//! The mathematical model of a NOR flash device: its byte contents together
//! with its geometry constants, and the sequence operations that the
//! read/write/erase contracts are stated with.

use vstd::prelude::*;

verus! {

/// The abstract state of a flash device: the bytes it stores, the
/// granularity constants of its hardware interface, and its failure class.
#[verifier::ext_equal]
pub struct FlashModel {
    /// Every byte the device currently stores; its length is the capacity.
    pub contents: Seq<u8>,
    /// The minimum number of bytes of one read operation.
    pub read_size: usize,
    /// The minimum number of bytes of one write operation.
    pub write_size: usize,
    /// The minimum number of bytes of one erase operation.
    pub erase_size: usize,
    /// The value every byte of an erased range holds.
    pub erase_byte: u8,
    /// Whether requests that pass validation are guaranteed to succeed:
    /// reads, erases, and writes onto fully-erased ranges never spuriously
    /// fail on such a device.
    pub reliable: bool,
    /// Whether every valid write is guaranteed to succeed with AND
    /// semantics, as on true multiwrite hardware that can always clear bits;
    /// a device that reports a dirty write instead does not have this.
    pub multiwrite_reliable: bool,
    /// How many erase operations have completed successfully on this device:
    /// the destructive cycles its wear budget pays for.
    pub erase_ops: nat,
    /// How many write operations have completed successfully on this device.
    pub write_ops: nat,
}

/// `base` with the range starting at `off` replaced by `data`; everything
/// outside that range is unchanged.
pub open spec fn splice(base: Seq<u8>, off: int, data: Seq<u8>) -> Seq<u8> {
    Seq::new(
        base.len(),
        |i: int|
            if off <= i < off + data.len() {
                data[i - off]
            } else {
                base[i]
            },
    )
}

/// `n` copies of the erased-byte value `b`.
pub open spec fn erased_seq(n: nat, b: u8) -> Seq<u8> {
    Seq::new(n, |i: int| b)
}

/// Pointwise bitwise AND of `data` onto `prev`: the effect of programming
/// `data` over existing contents `prev` on an AND-semantics device.
pub open spec fn and_seq(prev: Seq<u8>, data: Seq<u8>) -> Seq<u8> {
    Seq::new(data.len(), |i: int| prev[i] & data[i])
}

/// The request `data` at absolute address `addr` is AND-compatible with the
/// current contents `cur`: every requested byte ANDed with the byte it
/// overwrites equals the requested byte, so programming it directly
/// reproduces it without an erase.
pub open spec fn and_compatible(cur: Seq<u8>, addr: int, data: Seq<u8>) -> bool {
    forall|i: int| 0 <= i < data.len() ==> ((#[trigger] data[i]) & cur[addr + i]) == data[i]
}

/// The two models describe the same hardware: equal granularity constants,
/// equal capacity and the same failure class (the contents themselves may
/// differ).
pub open spec fn same_geometry(a: FlashModel, b: FlashModel) -> bool {
    &&& a.read_size == b.read_size
    &&& a.write_size == b.write_size
    &&& a.erase_size == b.erase_size
    &&& a.erase_byte == b.erase_byte
    &&& a.contents.len() == b.contents.len()
    &&& a.reliable == b.reliable
    &&& a.multiwrite_reliable == b.multiwrite_reliable
}

/// ANDing with the all-ones byte changes nothing.
pub proof fn lemma_and_ones(x: u8)
    ensures
        (0xffu8 & x) == x,
        (x & 0xffu8) == x,
{
    assert((0xffu8 & x) == x && (x & 0xffu8) == x) by (bit_vector);
}

/// Bitwise AND of bytes is commutative.
pub proof fn lemma_and_comm(x: u8, y: u8)
    ensures
        (x & y) == (y & x),
{
    assert((x & y) == (y & x)) by (bit_vector);
}

/// A number that a divisor of a divisor measures is measured by the smaller
/// divisor too: granularities that divide one another chain through.
pub proof fn lemma_mod_chain(x: int, d1: int, d2: int)
    requires
        0 <= x,
        0 < d1,
        0 < d2,
        x % d1 == 0,
        d1 % d2 == 0,
    ensures
        x % d2 == 0,
{
    vstd::arithmetic::div_mod::lemma_fundamental_div_mod(x, d1);
    vstd::arithmetic::div_mod::lemma_fundamental_div_mod(d1, d2);
    let a = x / d1;
    let b = d1 / d2;
    assert(x == (a * b) * d2) by (nonlinear_arith)
        requires
            x == d1 * a,
            d1 == d2 * b,
    ;
    vstd::arithmetic::div_mod::lemma_mod_multiples_basic(a * b, d2);
}

/// A read or write request lies within the device capacity `cap`.
pub open spec fn slice_in_bounds(cap: int, offset: int, length: int) -> bool {
    offset + length <= cap
}

/// Offset and length are both multiples of the granularity `align`.
pub open spec fn slice_aligned(align: int, offset: int, length: int) -> bool {
    offset % align == 0 && length % align == 0
}

/// An erase request `[from, to)` is ordered and within the capacity `cap`.
pub open spec fn erase_in_bounds(cap: int, from: int, to: int) -> bool {
    from <= to && to <= cap
}

/// Both ends of an erase request are multiples of the erase granularity.
pub open spec fn erase_aligned(erase_size: int, from: int, to: int) -> bool {
    from % erase_size == 0 && to % erase_size == 0
}

/// How many bytes of a request at `offset` of length `len` fall below the
/// capacity `cap`: the part of the request the page sequence can reach.
pub open spec fn eff_len(offset: int, len: int, cap: int) -> int {
    if offset >= cap {
        0
    } else if len <= cap - offset {
        len
    } else {
        cap - offset
    }
}

/// Extending a partially applied splice by the next adjacent chunk: if `cur`
/// holds `base` with the first `done` bytes of `data` spliced in at `off`,
/// then splicing the following chunk of `data` right after them yields `base`
/// with the first `done + chunk.len()` bytes of `data` spliced in.
pub proof fn lemma_splice_extend(
    base: Seq<u8>,
    data: Seq<u8>,
    off: int,
    done: int,
    chunk: Seq<u8>,
    cur: Seq<u8>,
    next: Seq<u8>,
)
    requires
        0 <= off,
        off + data.len() <= base.len(),
        0 <= done,
        done + chunk.len() <= data.len(),
        chunk == data.subrange(done, done + chunk.len()),
        cur == splice(base, off, data.take(done)),
        next == splice(cur, off + done, chunk),
    ensures
        next == splice(base, off, data.take(done + chunk.len())),
{
    assert(next =~= splice(base, off, data.take(done + chunk.len())));
}

/// Read-modify-write preservation: after writing `data` at `off` (the
/// contents become the splice of `data` onto `base`), reading the written
/// range back yields `data` exactly, and every byte outside `[off,
/// off + data.len())` equals its pre-write value.
pub proof fn lemma_write_read_back(base: Seq<u8>, off: int, data: Seq<u8>)
    requires
        0 <= off,
        off + data.len() <= base.len(),
    ensures
        splice(base, off, data).subrange(off, off + data.len()) == data,
        forall|i: int|
            0 <= i < base.len() && !(off <= i < off + data.len()) ==> #[trigger] splice(
                base,
                off,
                data,
            )[i] == base[i],
{
    assert(splice(base, off, data).subrange(off, off + data.len()) =~= data);
}

/// Writing the whole device replaces its contents entirely, whatever they
/// were before: reading the full address space back yields exactly what was
/// written.
pub proof fn lemma_full_write(base: Seq<u8>, data: Seq<u8>)
    requires
        data.len() == base.len(),
    ensures
        splice(base, 0, data) == data,
{
    assert(splice(base, 0, data) =~= data);
}

/// The contents of a device after a sequence of write requests, each a pair
/// of an offset and the written bytes, applied in order: every request
/// splices its bytes onto the result of the previous ones, which is what
/// each successful in-capacity adapter write guarantees.
pub open spec fn apply_writes(base: Seq<u8>, reqs: Seq<(int, Seq<u8>)>) -> Seq<u8>
    decreases reqs.len(),
{
    if reqs.len() == 0 {
        base
    } else {
        splice(apply_writes(base, reqs.drop_last()), reqs.last().0, reqs.last().1)
    }
}

/// The write request `r` writes the byte position `i`.
pub open spec fn req_covers(r: (int, Seq<u8>), i: int) -> bool {
    r.0 <= i < r.0 + r.1.len()
}

/// Some request of the sequence writes the byte position `i`.
pub open spec fn covered(reqs: Seq<(int, Seq<u8>)>, i: int) -> bool {
    exists|k: int| 0 <= k < reqs.len() && req_covers(#[trigger] reqs[k], i)
}

/// A sequence of writes never changes the capacity.
pub proof fn lemma_apply_writes_len(base: Seq<u8>, reqs: Seq<(int, Seq<u8>)>)
    ensures
        apply_writes(base, reqs).len() == base.len(),
    decreases reqs.len(),
{
    if reqs.len() > 0 {
        lemma_apply_writes_len(base, reqs.drop_last());
    }
}

proof fn lemma_apply_writes_index(
    b1: Seq<u8>,
    b2: Seq<u8>,
    reqs: Seq<(int, Seq<u8>)>,
    i: int,
)
    requires
        b1.len() == b2.len(),
        0 <= i < b1.len(),
        covered(reqs, i),
    ensures
        apply_writes(b1, reqs)[i] == apply_writes(b2, reqs)[i],
    decreases reqs.len(),
{
    lemma_apply_writes_len(b1, reqs.drop_last());
    lemma_apply_writes_len(b2, reqs.drop_last());
    let last = reqs.last();
    if req_covers(last, i) {
        assert(apply_writes(b1, reqs)[i] == last.1[i - last.0]);
        assert(apply_writes(b2, reqs)[i] == last.1[i - last.0]);
    } else {
        let k = choose|k: int| 0 <= k < reqs.len() && req_covers(#[trigger] reqs[k], i);
        assert(reqs[k] != last);
        assert(k < reqs.len() - 1);
        assert(reqs.drop_last()[k] == reqs[k]);
        assert(covered(reqs.drop_last(), i));
        lemma_apply_writes_index(b1, b2, reqs.drop_last(), i);
    }
}

/// Round-trip across the full device: when a sequence of write requests
/// together covers every byte position of the device, the final contents
/// are exactly determined by the requests, whatever the device held before
/// the sequence began; reading the device back after the last write
/// reproduces the written content and nothing of the initial state.
pub proof fn lemma_round_trip_full_cover(b1: Seq<u8>, b2: Seq<u8>, reqs: Seq<(int, Seq<u8>)>)
    requires
        b1.len() == b2.len(),
        forall|i: int| 0 <= i < b1.len() ==> #[trigger] covered(reqs, i),
    ensures
        apply_writes(b1, reqs) == apply_writes(b2, reqs),
{
    lemma_apply_writes_len(b1, reqs);
    lemma_apply_writes_len(b2, reqs);
    assert forall|i: int| 0 <= i < b1.len() implies apply_writes(b1, reqs)[i] == apply_writes(
        b2,
        reqs,
    )[i] by {
        lemma_apply_writes_index(b1, b2, reqs, i);
    }
    assert(apply_writes(b1, reqs) =~= apply_writes(b2, reqs));
}

/// Splicing an empty byte sequence changes nothing.
pub proof fn lemma_splice_empty(base: Seq<u8>, off: int)
    ensures
        splice(base, off, Seq::<u8>::empty()) == base,
{
    assert(splice(base, off, Seq::<u8>::empty()) =~= base);
}

/// Erasing a range that is already in the fully-erased state leaves the
/// contents unchanged: erase is idempotent.
pub proof fn lemma_splice_erased_identity(base: Seq<u8>, from: int, to: int, b: u8)
    requires
        0 <= from <= to <= base.len(),
        forall|i: int| from <= i < to ==> base[i] == b,
    ensures
        splice(base, from, erased_seq((to - from) as nat, b)) == base,
{
    assert(splice(base, from, erased_seq((to - from) as nat, b)) =~= base);
}

} // verus!
