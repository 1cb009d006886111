//! The read-modify-write adapters: they turn an arbitrary `(offset, bytes)`
//! write request into per-page read-merge-erase-write sequences, preserving
//! every byte outside the requested range.  The multiwrite variant first
//! tests whether the request can be programmed directly as a bitwise AND
//! onto the existing page contents, skipping the destructive erase.

use vstd::prelude::*;

use vstd::arithmetic::div_mod::{
    lemma_fundamental_div_mod, lemma_fundamental_div_mod_converse_mod, lemma_mod_add_multiples_vanish,
    lemma_mod_bound, lemma_mod_multiples_basic,
};
use vstd::slice::slice_subrange;

use crate::error::{NorFlashError, NorFlashErrorKind};
use crate::model::{
    and_compatible, and_seq, eff_len, lemma_and_comm, lemma_and_ones, lemma_mod_chain,
    lemma_splice_empty, lemma_splice_extend, same_geometry, slice_aligned, slice_in_bounds,
    splice, FlashModel,
};
use crate::nor_flash::{MultiwriteNorFlash, NorFlash};
use crate::overlap::{overlaps, touched_page_count, Triple};

verus! {

/// The geometry conventions the adapters rely on: positive granularities
/// that divide one another, pages tiling the capacity exactly, addresses
/// representable in 32 bits, and the all-ones erased byte of NOR flash.
pub open spec fn adapter_geometry(m: FlashModel) -> bool {
    &&& m.read_size > 0
    &&& m.write_size > 0
    &&& m.erase_size > 0
    &&& m.erase_size as int % m.write_size as int == 0
    &&& m.write_size as int % m.read_size as int == 0
    &&& m.contents.len() as int % m.erase_size as int == 0
    &&& m.contents.len() <= u32::MAX
    &&& m.erase_byte == 0xff
}

/// The multiwrite subset optimization is exact: programming `data` directly
/// onto a page region holding `prev` with AND semantics reproduces the
/// intended erase-and-rewrite result if and only if every byte of `data`
/// ANDed with the corresponding existing byte equals `data` itself.  When
/// the condition holds the erase can be skipped; when it does not, no
/// direct write can reproduce the request and the page must be erased.
pub proof fn lemma_subset_write_exact(page: Seq<u8>, off: int, data: Seq<u8>)
    requires
        0 <= off,
        off + data.len() <= page.len(),
    ensures
        splice(page, off, and_seq(page.subrange(off, off + data.len()), data)) == splice(
            page,
            off,
            data,
        ) <==> (forall|i: int|
            0 <= i < data.len() ==> ((#[trigger] data[i]) & page.subrange(
                off,
                off + data.len(),
            )[i]) == data[i]),
{
    let prev = page.subrange(off, off + data.len());
    if forall|i: int| 0 <= i < data.len() ==> ((#[trigger] data[i]) & prev[i]) == data[i] {
        assert forall|i: int| 0 <= i < data.len() implies and_seq(prev, data)[i] == data[i] by {
            lemma_and_comm(prev[i], data[i]);
        }
        assert(splice(page, off, and_seq(prev, data)) =~= splice(page, off, data));
    }
    if splice(page, off, and_seq(prev, data)) == splice(page, off, data) {
        assert forall|i: int| 0 <= i < data.len() implies ((#[trigger] data[i]) & prev[i])
            == data[i] by {
            assert(splice(page, off, and_seq(prev, data))[off + i] == (prev[i] & data[i]));
            assert(splice(page, off, data)[off + i] == data[i]);
            lemma_and_comm(prev[i], data[i]);
        }
    }
}

/// The arithmetic behind padding a direct write to the write granularity:
/// within a page whose start is a multiple of both the erase and the write
/// granularity, the padded region `[addr - pad, addr - pad + padded)` stays
/// inside the page, where `pad` realigns the address downwards and `padded`
/// rounds the length up to a multiple of the write granularity.
proof fn lemma_page_write_padding(
    ps: int,
    es: int,
    ws: int,
    addr: int,
    in_off: int,
    dlen: int,
    pad: int,
)
    requires
        0 <= ps,
        0 < ws,
        0 < es,
        es % ws == 0,
        ps % es == 0,
        addr == ps + in_off,
        0 <= in_off,
        0 < dlen,
        in_off + dlen <= es,
        pad == addr % ws,
    ensures
        0 <= pad <= in_off,
        0 <= (pad + dlen) % ws < ws,
        pad + dlen <= es,
        addr + dlen <= ps + es,
        (addr - pad) % ws == 0,
        (pad + dlen) % ws != 0 ==> pad + dlen + (ws - (pad + dlen) % ws) <= es,
        (pad + dlen) % ws != 0 ==> (addr - pad) + (pad + dlen + (ws - (pad + dlen) % ws)) <= ps
            + es,
        (pad + dlen) % ws != 0 ==> (pad + dlen + (ws - (pad + dlen) % ws)) % ws == 0,
{
    let rem = (pad + dlen) % ws;
    lemma_fundamental_div_mod(ps, es);
    lemma_fundamental_div_mod(es, ws);
    let a = ps / es;
    let b = es / ws;
    assert(ps == (a * b) * ws) by (nonlinear_arith)
        requires
            ps == es * a,
            es == ws * b,
    ;
    lemma_fundamental_div_mod(in_off, ws);
    lemma_mod_bound(in_off, ws);
    let g0 = in_off / ws;
    assert(addr == ws * (a * b + g0) + in_off % ws) by (nonlinear_arith)
        requires
            addr == ps + in_off,
            ps == (a * b) * ws,
            in_off == ws * g0 + in_off % ws,
    ;
    lemma_mod_bound(addr, ws);
    lemma_fundamental_div_mod_converse_mod(addr, ws, a * b + g0, in_off % ws);
    assert(pad == in_off % ws);
    assert(ws * g0 >= 0) by (nonlinear_arith)
        requires
            ws > 0,
            g0 >= 0,
    ;
    assert(pad <= in_off);
    assert(addr - pad == ws * (a * b + g0));
    lemma_mod_multiples_basic(a * b + g0, ws);
    lemma_fundamental_div_mod(pad + dlen, ws);
    lemma_mod_bound(pad + dlen, ws);
    if rem != 0 {
        let tq = (pad + dlen) / ws;
        let g1 = a * b + g0;
        let g2 = a * b + b;
        let g3 = tq + 1;
        assert(addr - pad == ws * g1);
        assert(ps + es == ws * g2) by (nonlinear_arith)
            requires
                ps == (a * b) * ws,
                es == ws * b,
                g2 == a * b + b,
        ;
        assert(pad + dlen + (ws - rem) == ws * g3) by (nonlinear_arith)
            requires
                pad + dlen == ws * tq + rem,
                g3 == tq + 1,
        ;
        assert(ws * g1 + ws * g3 < ws * g2 + ws);
        assert(g1 + g3 <= g2) by (nonlinear_arith)
            requires
                ws * g1 + ws * g3 < ws * g2 + ws,
                ws > 0,
        ;
        assert((addr - pad) + (pad + dlen + (ws - rem)) <= ps + es) by (nonlinear_arith)
            requires
                g1 + g3 <= g2,
                addr - pad == ws * g1,
                ps + es == ws * g2,
                pad + dlen + (ws - rem) == ws * g3,
                ws > 0,
        ;
        assert(pad + dlen + (ws - rem) <= es);
        lemma_mod_multiples_basic(g3, ws);
    }
}

/// Rewrite one page: read its current contents into `merge_buffer`, erase
/// it, overwrite the buffer at `in_off` with `bytes[data_start..data_end]`,
/// and program the merged buffer back.  On success the device holds its old
/// contents with exactly that data range replaced, at `page_start + in_off`.
#[verifier::loop_isolation(false)]
#[verifier::rlimit(50)]
fn rmw_page<S: NorFlash>(
    storage: &mut S,
    merge_buffer: &mut Vec<u8>,
    page_start: u32,
    in_off: usize,
    bytes: &[u8],
    data_start: usize,
    data_end: usize,
) -> (r: Result<(), S::Error>)
    requires
        adapter_geometry(old(storage).model()),
        old(merge_buffer).len() == old(storage).model().erase_size,
        page_start as int % old(storage).model().erase_size as int == 0,
        page_start + old(storage).model().erase_size <= old(storage).model().contents.len(),
        data_start <= data_end <= bytes.len(),
        in_off + (data_end - data_start) <= old(storage).model().erase_size,
    ensures
        same_geometry(old(storage).model(), final(storage).model()),
        final(storage).model().erase_byte == old(storage).model().erase_byte,
        final(merge_buffer).len() == old(merge_buffer).len(),
        old(storage).model().reliable ==> r is Ok,
        r is Ok ==> final(storage).model().contents == splice(
            old(storage).model().contents,
            page_start + in_off,
            bytes@.subrange(data_start as int, data_end as int),
        ),
        r is Ok ==> final(storage).model().erase_ops == old(storage).model().erase_ops + 1
            && final(storage).model().write_ops == old(storage).model().write_ops + 1,
{
    let ghost c0 = storage.model().contents;
    let ghost ps = page_start as int;
    let es = storage.erase_size();
    proof {
        let m = storage.model();
        lemma_mod_chain(ps, m.erase_size as int, m.write_size as int);
        lemma_mod_chain(ps, m.write_size as int, m.read_size as int);
        lemma_mod_chain(m.erase_size as int, m.write_size as int, m.read_size as int);
        lemma_mod_add_multiples_vanish(ps, m.erase_size as int);
    }
    match storage.read(page_start, merge_buffer) {
        Ok(()) => {},
        Err(e) => {
            return Err(e);
        },
    }
    let ghost page0 = merge_buffer@;
    let page_end = page_start + (es as u32);
    match storage.erase(page_start, page_end) {
        Ok(()) => {},
        Err(e) => {
            return Err(e);
        },
    }
    let ghost c2 = storage.model().contents;
    let dlen = data_end - data_start;
    let mut j: usize = 0;
    while j < dlen
        invariant
            j <= dlen,
            merge_buffer.len() == es,
            forall|i: int|
                in_off <= i < in_off + j ==> #[trigger] merge_buffer@[i] == bytes@[data_start + (
                i - in_off)],
            forall|i: int|
                0 <= i < es && !(in_off <= i < in_off + j) ==> #[trigger] merge_buffer@[i]
                    == page0[i],
        decreases dlen - j,
    {
        merge_buffer[in_off + j] = bytes[data_start + j];
        j += 1;
    }
    proof {
        assert forall|i: int| 0 <= i < merge_buffer.len() implies #[trigger] storage.model(
        ).contents[page_start + i] == storage.model().erase_byte by {}
    }
    match storage.write(page_start, merge_buffer.as_slice()) {
        Ok(()) => {},
        Err(e) => {
            return Err(e);
        },
    }
    proof {
        let chunk = bytes@.subrange(data_start as int, data_end as int);
        let c3 = storage.model().contents;
        let target = splice(c0, ps + in_off, chunk);
        assert forall|i: int| 0 <= i < c3.len() implies c3[i] == target[i] by {
            if ps <= i < ps + es as int {
                let x = i - ps;
                assert(c2[i] == 0xffu8);
                lemma_and_ones(merge_buffer@[x]);
                assert(c3[i] == merge_buffer@[x]);
                if in_off <= x < in_off + dlen {
                    assert(merge_buffer@[x] == bytes@[data_start + (x - in_off)]);
                } else {
                    assert(merge_buffer@[x] == page0[x]);
                    assert(page0[x] == c0[ps + x]);
                }
            }
        }
        assert(c3 =~= target);
    }
    Ok(())
}

/// One step of an adapter write: rewrite the page of triple `t` through
/// [`rmw_page`] and extend the splice bookkeeping from the first
/// `t.data_start` to the first `t.data_end` written bytes.
fn rmw_step<S: NorFlash>(
    storage: &mut S,
    merge_buffer: &mut Vec<u8>,
    offset: u32,
    bytes: &[u8],
    t: Triple,
    Ghost(base): Ghost<Seq<u8>>,
    Ghost(eff): Ghost<int>,
) -> (r: Result<(), S::Error>)
    requires
        adapter_geometry(old(storage).model()),
        old(merge_buffer).len() == old(storage).model().erase_size,
        base.len() == old(storage).model().contents.len(),
        eff == eff_len(offset as int, bytes.len() as int, base.len() as int),
        t.data_start < t.data_end,
        t.data_end as int <= eff,
        eff <= bytes@.len(),
        t.addr as int == offset + t.data_start,
        t.page.start <= t.addr,
        t.page.start as int % old(storage).model().erase_size as int == 0,
        t.addr + (t.data_end - t.data_start) - t.page.start <= old(
            storage,
        ).model().erase_size as int,
        t.page.size == old(storage).model().erase_size,
        t.page.spec_end() <= base.len(),
        old(storage).model().contents == splice(
            base,
            offset as int,
            bytes@.take(eff).take(t.data_start as int),
        ),
    ensures
        same_geometry(old(storage).model(), final(storage).model()),
        final(storage).model().erase_byte == old(storage).model().erase_byte,
        final(merge_buffer).len() == old(merge_buffer).len(),
        old(storage).model().reliable ==> r is Ok,
        r is Ok ==> final(storage).model().contents == splice(
            base,
            offset as int,
            bytes@.take(eff).take(t.data_end as int),
        ),
        r is Ok ==> final(storage).model().erase_ops == old(storage).model().erase_ops + 1
            && final(storage).model().write_ops == old(storage).model().write_ops + 1,
{
    let ghost cur = storage.model().contents;
    let in_off = (t.addr - t.page.start) as usize;
    match rmw_page(storage, merge_buffer, t.page.start, in_off, bytes, t.data_start, t.data_end) {
        Ok(()) => {},
        Err(e) => {
            return Err(e);
        },
    }
    proof {
        let chunk = bytes@.subrange(t.data_start as int, t.data_end as int);
        assert(chunk =~= bytes@.take(eff).subrange(t.data_start as int, t.data_end as int));
        lemma_splice_extend(
            base,
            bytes@.take(eff),
            offset as int,
            t.data_start as int,
            chunk,
            cur,
            storage.model().contents,
        );
    }
    Ok(())
}

/// One step of a multiwrite adapter write: like [`rmw_step`], but through
/// [`multiwrite_page`], which skips the erase when the requested bytes can
/// be programmed directly.
fn multiwrite_step<S: MultiwriteNorFlash>(
    storage: &mut S,
    merge_buffer: &mut Vec<u8>,
    offset: u32,
    bytes: &[u8],
    t: Triple,
    Ghost(base): Ghost<Seq<u8>>,
    Ghost(eff): Ghost<int>,
) -> (r: Result<(), S::Error>)
    requires
        adapter_geometry(old(storage).model()),
        old(merge_buffer).len() == old(storage).model().erase_size,
        base.len() == old(storage).model().contents.len(),
        eff == eff_len(offset as int, bytes.len() as int, base.len() as int),
        t.data_start < t.data_end,
        t.data_end as int <= eff,
        eff <= bytes@.len(),
        t.addr as int == offset + t.data_start,
        t.page.start <= t.addr,
        t.page.start as int % old(storage).model().erase_size as int == 0,
        t.addr + (t.data_end - t.data_start) - t.page.start <= old(
            storage,
        ).model().erase_size as int,
        t.page.size == old(storage).model().erase_size,
        t.page.spec_end() <= base.len(),
        old(storage).model().contents == splice(
            base,
            offset as int,
            bytes@.take(eff).take(t.data_start as int),
        ),
    ensures
        same_geometry(old(storage).model(), final(storage).model()),
        final(storage).model().erase_byte == old(storage).model().erase_byte,
        final(merge_buffer).len() == old(merge_buffer).len(),
        old(storage).model().reliable && old(storage).model().multiwrite_reliable ==> r is Ok,
        r is Ok ==> final(storage).model().contents == splice(
            base,
            offset as int,
            bytes@.take(eff).take(t.data_end as int),
        ),
        r is Ok ==> final(storage).model().write_ops == old(storage).model().write_ops + 1,
        r is Ok && and_compatible(
            old(storage).model().contents,
            t.addr as int,
            bytes@.subrange(t.data_start as int, t.data_end as int),
        ) ==> final(storage).model().erase_ops == old(storage).model().erase_ops,
        r is Ok && !and_compatible(
            old(storage).model().contents,
            t.addr as int,
            bytes@.subrange(t.data_start as int, t.data_end as int),
        ) ==> final(storage).model().erase_ops == old(storage).model().erase_ops + 1,
{
    let ghost cur = storage.model().contents;
    let in_off = (t.addr - t.page.start) as usize;
    match multiwrite_page(
        storage,
        merge_buffer,
        t.page.start,
        in_off,
        bytes,
        t.data_start,
        t.data_end,
    ) {
        Ok(()) => {},
        Err(e) => {
            return Err(e);
        },
    }
    proof {
        let chunk = bytes@.subrange(t.data_start as int, t.data_end as int);
        assert(chunk =~= bytes@.take(eff).subrange(t.data_start as int, t.data_end as int));
        lemma_splice_extend(
            base,
            bytes@.take(eff),
            offset as int,
            t.data_start as int,
            chunk,
            cur,
            storage.model().contents,
        );
    }
    Ok(())
}

/// A read-modify-write adapter for erase-required NOR flash: it implements
/// arbitrary byte-granular writes on top of a device that only supports
/// whole-page erase and write-once programming, by reading, erasing and
/// rewriting every touched page through a caller-supplied merge buffer.
pub struct RmwNorFlashStorage<S> {
    storage: S,
    merge_buffer: Vec<u8>,
}

impl<S> RmwNorFlashStorage<S> where S: NorFlash {
    /// The abstract contents and geometry of the wrapped device.
    pub closed spec fn model(&self) -> FlashModel {
        self.storage.model()
    }

    /// The bytes the wrapped device currently stores.
    pub open spec fn contents(&self) -> Seq<u8> {
        self.model().contents
    }

    /// Well-formedness: the merge buffer holds exactly one erase page, and
    /// the device geometry meets the adapter's conventions.
    pub closed spec fn inv(&self) -> bool {
        &&& adapter_geometry(self.storage.model())
        &&& self.merge_buffer.len() == self.storage.model().erase_size
    }

    /// Instantiate a new generic `Storage` from a `NorFlash` peripheral.
    ///
    /// The merge buffer must be at least as large as one erase page, and the
    /// device geometry must meet the NOR conventions: positive granularities
    /// dividing one another, a capacity that is a whole number of erase
    /// pages and representable in 32 bits, and an all-ones erased byte.
    pub fn new(nor_flash: S, merge_buffer: Vec<u8>) -> (r: Self)
        requires
            adapter_geometry(nor_flash.model()),
            merge_buffer.len() >= nor_flash.model().erase_size,
        ensures
            r.inv(),
            r.model() == nor_flash.model(),
    {
        let erase_size = nor_flash.erase_size();
        let mut buffer = merge_buffer;
        buffer.truncate(erase_size);
        RmwNorFlashStorage { storage: nor_flash, merge_buffer: buffer }
    }

    /// Unwrap to get the wrapped storage instance back.
    pub fn into_inner(self) -> (r: S)
        ensures
            r.model() == self.model(),
    {
        self.storage
    }

    /// Read a slice of data, starting at the given address offset; nothing
    /// special is done for reads, the request passes through to the device,
    /// which rejects it before touching the stored bytes if it is out of
    /// bounds or not aligned to the read granularity.
    pub fn read(&mut self, offset: u32, bytes: &mut Vec<u8>) -> (r: Result<(), S::Error>)
        requires
            old(self).inv(),
        ensures
            final(self).inv(),
            final(self).model() == old(self).model(),
            final(bytes).len() == old(bytes).len(),
            r is Ok ==> slice_in_bounds(
                old(self).contents().len() as int,
                offset as int,
                old(bytes).len() as int,
            ) && slice_aligned(
                old(self).model().read_size as int,
                offset as int,
                old(bytes).len() as int,
            ) && final(bytes)@ == old(self).contents().subrange(
                offset as int,
                offset + old(bytes).len(),
            ),
            !slice_in_bounds(
                old(self).contents().len() as int,
                offset as int,
                old(bytes).len() as int,
            ) ==> (r matches Err(e) && e.kind_spec() == NorFlashErrorKind::OutOfBounds),
            slice_in_bounds(
                old(self).contents().len() as int,
                offset as int,
                old(bytes).len() as int,
            ) && !slice_aligned(
                old(self).model().read_size as int,
                offset as int,
                old(bytes).len() as int,
            ) ==> (r matches Err(e) && e.kind_spec() == NorFlashErrorKind::NotAligned),
            old(self).model().reliable && slice_in_bounds(
                old(self).contents().len() as int,
                offset as int,
                old(bytes).len() as int,
            ) && slice_aligned(
                old(self).model().read_size as int,
                offset as int,
                old(bytes).len() as int,
            ) ==> r is Ok,
    {
        self.storage.read(offset, bytes)
    }

    /// The capacity of the wrapped peripheral in bytes.
    pub fn capacity(&self) -> (r: usize)
        ensures
            r == self.contents().len(),
    {
        self.storage.capacity()
    }

    /// Perform a read-modify-write of `bytes` at `offset`: every touched
    /// page is read, erased, merged and rewritten, so that on success the
    /// device holds its old contents with the requested range replaced, and
    /// every byte outside that range preserved verbatim.  The part of the
    /// request below the capacity is written; a first device error aborts
    /// the remaining pages with completed pages standing.
    #[verifier::loop_isolation(false)]
    #[verifier::rlimit(50)]
    pub fn write(&mut self, offset: u32, bytes: &[u8]) -> (r: Result<(), S::Error>)
        requires
            old(self).inv(),
        ensures
            final(self).inv(),
            same_geometry(old(self).model(), final(self).model()),
            r is Ok ==> final(self).contents() == splice(
                old(self).contents(),
                offset as int,
                bytes@.take(
                    eff_len(offset as int, bytes.len() as int, old(self).contents().len() as int),
                ),
            ),
            eff_len(offset as int, bytes.len() as int, old(self).contents().len() as int) == 0
                ==> r is Ok,
            old(self).model().reliable ==> r is Ok,
            r is Ok ==> final(self).model().erase_ops == old(self).model().erase_ops
                + touched_page_count(
                offset as int,
                bytes.len() as int,
                old(self).model().erase_size as int,
                old(self).contents().len() as int,
            ) && final(self).model().write_ops == old(self).model().write_ops
                + touched_page_count(
                offset as int,
                bytes.len() as int,
                old(self).model().erase_size as int,
                old(self).contents().len() as int,
            ),
    {
        let ghost m0 = self.storage.model();
        let erase_size = self.storage.erase_size();
        let capacity = self.storage.capacity();
        let ghost eff = eff_len(offset as int, bytes.len() as int, capacity as int);
        let ghost data_all = bytes@.take(eff);
        let triples = overlaps(offset, bytes.len(), erase_size, capacity);
        proof {
            assert(data_all.take(0) =~= Seq::<u8>::empty());
            lemma_splice_empty(m0.contents, offset as int);
            if triples@.len() == 0 {
                assert(data_all =~= Seq::<u8>::empty());
            }
        }
        let mut k: usize = 0;
        #[verifier::loop_isolation(true)]
        while k < triples.len()
            invariant
                k <= triples.len(),
                self.inv(),
                m0 == old(self).storage.model(),
                erase_size == m0.erase_size,
                capacity == m0.contents.len(),
                eff == eff_len(offset as int, bytes.len() as int, m0.contents.len() as int),
                data_all == bytes@.take(eff),
                0 <= eff <= bytes@.len(),
                eff > 0 ==> offset as int + eff <= m0.contents.len(),
                (eff == 0 <==> triples@.len() == 0),
                forall|j: int|
                    0 <= j < triples@.len() ==> {
                        let t = #[trigger] triples@[j];
                        &&& t.data_start < t.data_end
                        &&& t.data_end as int <= eff
                        &&& t.addr as int == offset + t.data_start
                        &&& t.page.start <= t.addr
                        &&& t.page.start as int % m0.erase_size as int == 0
                        &&& t.addr + (t.data_end - t.data_start) - t.page.start
                            <= m0.erase_size as int
                        &&& t.page.size == erase_size
                        &&& t.page.spec_end() <= m0.contents.len()
                    },
                triples@.len() > 0 ==> triples@[0].data_start == 0,
                triples@.len() > 0 ==> triples@[triples@.len() - 1].data_end as int == eff,
                forall|j: int|
                    1 <= j < triples@.len() ==> (#[trigger] triples@[j]).data_start == triples@[j
                        - 1].data_end,
                same_geometry(m0, self.storage.model()),
                self.storage.model().erase_byte == m0.erase_byte,
                self.storage.model().erase_ops == m0.erase_ops + k,
                self.storage.model().write_ops == m0.write_ops + k,
                self.storage.model().contents == splice(
                    m0.contents,
                    offset as int,
                    data_all.take(
                        if k == 0 {
                            0
                        } else {
                            triples@[k - 1].data_end as int
                        },
                    ),
                ),
            decreases triples.len() - k,
        {
            let t = triples[k];
            proof {
                assert(t.data_start as int == (if k == 0 {
                    0int
                } else {
                    triples@[k - 1].data_end as int
                }));
            }
            match rmw_step(
                &mut self.storage,
                &mut self.merge_buffer,
                offset,
                bytes,
                t,
                Ghost(m0.contents),
                Ghost(eff),
            ) {
                Ok(()) => {},
                Err(e) => {
                    return Err(e);
                },
            }
            k += 1;
        }
        proof {
            if triples@.len() > 0 {
                assert(data_all.take(eff) =~= data_all);
            }
        }
        Ok(())
    }
}


/// Write the data range of one page with the multiwrite optimization: read
/// the page, and if the requested bytes AND the existing contents equal the
/// requested bytes, program them directly, padded with the erased byte to
/// the write granularity (a no-op under AND semantics); otherwise fall back
/// to the erase-merge-rewrite of [`rmw_page`].  On success the device holds
/// its old contents with exactly that data range replaced.
#[verifier::loop_isolation(false)]
#[verifier::rlimit(50)]
fn multiwrite_page<S: MultiwriteNorFlash>(
    storage: &mut S,
    merge_buffer: &mut Vec<u8>,
    page_start: u32,
    in_off: usize,
    bytes: &[u8],
    data_start: usize,
    data_end: usize,
) -> (r: Result<(), S::Error>)
    requires
        adapter_geometry(old(storage).model()),
        old(merge_buffer).len() == old(storage).model().erase_size,
        page_start as int % old(storage).model().erase_size as int == 0,
        page_start + old(storage).model().erase_size <= old(storage).model().contents.len(),
        data_start < data_end <= bytes.len(),
        in_off + (data_end - data_start) <= old(storage).model().erase_size,
    ensures
        same_geometry(old(storage).model(), final(storage).model()),
        final(storage).model().erase_byte == old(storage).model().erase_byte,
        final(merge_buffer).len() == old(merge_buffer).len(),
        old(storage).model().reliable && old(storage).model().multiwrite_reliable ==> r is Ok,
        r is Ok ==> final(storage).model().contents == splice(
            old(storage).model().contents,
            page_start + in_off,
            bytes@.subrange(data_start as int, data_end as int),
        ),
        r is Ok ==> final(storage).model().write_ops == old(storage).model().write_ops + 1,
        r is Ok && and_compatible(
            old(storage).model().contents,
            page_start + in_off,
            bytes@.subrange(data_start as int, data_end as int),
        ) ==> final(storage).model().erase_ops == old(storage).model().erase_ops,
        r is Ok && !and_compatible(
            old(storage).model().contents,
            page_start + in_off,
            bytes@.subrange(data_start as int, data_end as int),
        ) ==> final(storage).model().erase_ops == old(storage).model().erase_ops + 1,
{
    let ghost cur = storage.model().contents;
    let ghost ps = page_start as int;
    let ghost addr_i = ps + in_off;
    let erase_size = storage.erase_size();
    let write_size = storage.write_size();
    let erased_byte = storage.erase_byte();
    let dlen = data_end - data_start;
    proof {
        let m = storage.model();
        lemma_mod_chain(ps, m.erase_size as int, m.write_size as int);
        lemma_mod_chain(ps, m.write_size as int, m.read_size as int);
        lemma_mod_chain(m.erase_size as int, m.write_size as int, m.read_size as int);
    }
    match storage.read(page_start, merge_buffer) {
        Ok(()) => {},
        Err(e) => {
            return Err(e);
        },
    }
    let ghost page0 = merge_buffer@;
    let mut is_subset = true;
    let mut j: usize = 0;
    while j < dlen
        invariant
            j <= dlen,
            is_subset == (forall|i: int|
                data_start <= i < data_start + j ==> ((#[trigger] bytes@[i]) & page0[in_off + (i
                    - data_start)]) == bytes@[i]),
        decreases dlen - j,
    {
        let a = bytes[data_start + j];
        let b = merge_buffer[in_off + j];
        if (a & b) != a {
            is_subset = false;
        }
        j += 1;
    }
    proof {
        let chunk = bytes@.subrange(data_start as int, data_end as int);
        assert forall|i: int| 0 <= i < dlen implies #[trigger] page0[in_off + i] == cur[addr_i
            + i] by {}
        if is_subset {
            assert forall|i: int| 0 <= i < chunk.len() implies ((#[trigger] chunk[i]) & cur[addr_i
                + i]) == chunk[i] by {
                assert(chunk[i] == bytes@[data_start + i]);
                assert((bytes@[data_start + i] & page0[in_off + i]) == bytes@[data_start + i]);
            }
            assert(and_compatible(cur, addr_i, chunk));
        } else if and_compatible(cur, addr_i, chunk) {
            assert forall|i: int|
                data_start <= i < data_start + dlen implies ((#[trigger] bytes@[i]) & page0[in_off
                + (i - data_start)]) == bytes@[i] by {
                assert(chunk[i - data_start] == bytes@[i]);
                assert((chunk[i - data_start] & cur[addr_i + (i - data_start)]) == chunk[i
                    - data_start]);
            }
            assert(false);
        }
    }
    if is_subset {
        let addr = page_start + (in_off as u32);
        let pad = (addr as usize) % write_size;
        proof {
            lemma_page_write_padding(
                ps,
                erase_size as int,
                write_size as int,
                addr_i,
                in_off as int,
                dlen as int,
                pad as int,
            );
        }
        let aligned_addr = addr - (pad as u32);
        let total = pad + dlen;
        let rem = total % write_size;
        let padded = if rem == 0 {
            total
        } else {
            total + (write_size - rem)
        };
        let mut j2: usize = 0;
        while j2 < padded
            invariant
                j2 <= padded,
                merge_buffer.len() == erase_size,
                forall|i: int| 0 <= i < j2 ==> #[trigger] merge_buffer@[i] == 0xffu8,
            decreases padded - j2,
        {
            merge_buffer[j2] = erased_byte;
            j2 += 1;
        }
        let mut j3: usize = 0;
        while j3 < dlen
            invariant
                j3 <= dlen,
                merge_buffer.len() == erase_size,
                forall|i: int|
                    pad <= i < pad + j3 ==> #[trigger] merge_buffer@[i] == bytes@[data_start + (i
                        - pad)],
                forall|i: int|
                    0 <= i < padded && !(pad <= i < pad + j3) ==> #[trigger] merge_buffer@[i]
                        == 0xffu8,
            decreases dlen - j3,
        {
            merge_buffer[pad + j3] = bytes[data_start + j3];
            j3 += 1;
        }
        let written = slice_subrange(merge_buffer.as_slice(), 0, padded);
        match storage.write(aligned_addr, written) {
            Ok(()) => {},
            Err(e) => {
                return Err(e);
            },
        }
        proof {
            let chunk = bytes@.subrange(data_start as int, data_end as int);
            let c2 = storage.model().contents;
            let target = splice(cur, addr_i, chunk);
            let al = aligned_addr as int;
            assert forall|i: int| 0 <= i < c2.len() implies c2[i] == target[i] by {
                if al <= i < al + padded {
                    let x = i - al;
                    assert(c2[i] == (cur[i] & merge_buffer@[x]));
                    if pad <= x < pad + dlen {
                        let y = x - pad;
                        assert(merge_buffer@[x] == bytes@[data_start + y]);
                        assert(cur[i] == page0[in_off + y]);
                        lemma_and_comm(cur[i], bytes@[data_start + y]);
                    } else {
                        assert(merge_buffer@[x] == 0xffu8);
                        lemma_and_ones(cur[i]);
                    }
                }
            }
            assert(c2 =~= target);
        }
        Ok(())
    } else {
        rmw_page(storage, merge_buffer, page_start, in_off, bytes, data_start, data_end)
    }
}

/// A read-modify-write adapter for multiwrite-capable NOR flash: like
/// [`RmwNorFlashStorage`] it implements arbitrary byte-granular writes, but
/// it skips the destructive erase whenever the requested bytes can be
/// programmed directly as a bitwise AND onto the existing page contents.
pub struct RmwMultiwriteNorFlashStorage<S> {
    storage: S,
    merge_buffer: Vec<u8>,
}

impl<S> RmwMultiwriteNorFlashStorage<S> where S: MultiwriteNorFlash {
    /// The abstract contents and geometry of the wrapped device.
    pub closed spec fn model(&self) -> FlashModel {
        self.storage.model()
    }

    /// The bytes the wrapped device currently stores.
    pub open spec fn contents(&self) -> Seq<u8> {
        self.model().contents
    }

    /// Well-formedness: the merge buffer holds exactly one erase page, and
    /// the device geometry meets the adapter's conventions.
    pub closed spec fn inv(&self) -> bool {
        &&& adapter_geometry(self.storage.model())
        &&& self.merge_buffer.len() == self.storage.model().erase_size
    }

    /// Instantiate a new generic `Storage` from a `NorFlash` peripheral.
    ///
    /// The merge buffer must be at least as large as one erase page, and the
    /// device geometry must meet the NOR conventions: positive granularities
    /// dividing one another, a capacity that is a whole number of erase
    /// pages and representable in 32 bits, and an all-ones erased byte.
    pub fn new(nor_flash: S, merge_buffer: Vec<u8>) -> (r: Self)
        requires
            adapter_geometry(nor_flash.model()),
            merge_buffer.len() >= nor_flash.model().erase_size,
        ensures
            r.inv(),
            r.model() == nor_flash.model(),
    {
        let erase_size = nor_flash.erase_size();
        let mut buffer = merge_buffer;
        buffer.truncate(erase_size);
        RmwMultiwriteNorFlashStorage { storage: nor_flash, merge_buffer: buffer }
    }

    /// Unwrap to get the wrapped storage instance back.
    pub fn into_inner(self) -> (r: S)
        ensures
            r.model() == self.model(),
    {
        self.storage
    }

    /// Read a slice of data, starting at the given address offset; nothing
    /// special is done for reads, the request passes through to the device,
    /// which rejects it before touching the stored bytes if it is out of
    /// bounds or not aligned to the read granularity.
    pub fn read(&mut self, offset: u32, bytes: &mut Vec<u8>) -> (r: Result<(), S::Error>)
        requires
            old(self).inv(),
        ensures
            final(self).inv(),
            final(self).model() == old(self).model(),
            final(bytes).len() == old(bytes).len(),
            r is Ok ==> slice_in_bounds(
                old(self).contents().len() as int,
                offset as int,
                old(bytes).len() as int,
            ) && slice_aligned(
                old(self).model().read_size as int,
                offset as int,
                old(bytes).len() as int,
            ) && final(bytes)@ == old(self).contents().subrange(
                offset as int,
                offset + old(bytes).len(),
            ),
            !slice_in_bounds(
                old(self).contents().len() as int,
                offset as int,
                old(bytes).len() as int,
            ) ==> (r matches Err(e) && e.kind_spec() == NorFlashErrorKind::OutOfBounds),
            slice_in_bounds(
                old(self).contents().len() as int,
                offset as int,
                old(bytes).len() as int,
            ) && !slice_aligned(
                old(self).model().read_size as int,
                offset as int,
                old(bytes).len() as int,
            ) ==> (r matches Err(e) && e.kind_spec() == NorFlashErrorKind::NotAligned),
            old(self).model().reliable && slice_in_bounds(
                old(self).contents().len() as int,
                offset as int,
                old(bytes).len() as int,
            ) && slice_aligned(
                old(self).model().read_size as int,
                offset as int,
                old(bytes).len() as int,
            ) ==> r is Ok,
    {
        self.storage.read(offset, bytes)
    }

    /// The capacity of the wrapped peripheral in bytes.
    pub fn capacity(&self) -> (r: usize)
        ensures
            r == self.contents().len(),
    {
        self.storage.capacity()
    }

    /// Perform a read-modify-write of `bytes` at `offset`, avoiding erase
    /// cycles where possible.  Each touched page is read; if the requested
    /// bytes AND the existing contents equal the requested bytes, they are
    /// programmed directly (padded to the write granularity with the erased
    /// byte, a no-op under AND) without erasing; otherwise the page falls
    /// back to the erase-merge-rewrite sequence.  On success the device
    /// holds its old contents with the requested range replaced and every
    /// byte outside it preserved verbatim, exactly as the erase-required
    /// adapter guarantees.
    #[verifier::loop_isolation(false)]
    #[verifier::rlimit(50)]
    pub fn write(&mut self, offset: u32, bytes: &[u8]) -> (r: Result<(), S::Error>)
        requires
            old(self).inv(),
        ensures
            final(self).inv(),
            same_geometry(old(self).model(), final(self).model()),
            r is Ok ==> final(self).contents() == splice(
                old(self).contents(),
                offset as int,
                bytes@.take(
                    eff_len(offset as int, bytes.len() as int, old(self).contents().len() as int),
                ),
            ),
            eff_len(offset as int, bytes.len() as int, old(self).contents().len() as int) == 0
                ==> r is Ok,
            old(self).model().reliable && old(self).model().multiwrite_reliable ==> r is Ok,
            r is Ok ==> final(self).model().write_ops == old(self).model().write_ops
                + touched_page_count(
                offset as int,
                bytes.len() as int,
                old(self).model().erase_size as int,
                old(self).contents().len() as int,
            ),
            r is Ok && touched_page_count(
                offset as int,
                bytes.len() as int,
                old(self).model().erase_size as int,
                old(self).contents().len() as int,
            ) == 1 && and_compatible(
                old(self).contents(),
                offset as int,
                bytes@.take(
                    eff_len(offset as int, bytes.len() as int, old(self).contents().len() as int),
                ),
            ) ==> final(self).model().erase_ops == old(self).model().erase_ops,
            r is Ok && touched_page_count(
                offset as int,
                bytes.len() as int,
                old(self).model().erase_size as int,
                old(self).contents().len() as int,
            ) == 1 && !and_compatible(
                old(self).contents(),
                offset as int,
                bytes@.take(
                    eff_len(offset as int, bytes.len() as int, old(self).contents().len() as int),
                ),
            ) ==> final(self).model().erase_ops == old(self).model().erase_ops + 1,
    {
        let ghost m0 = self.storage.model();
        let erase_size = self.storage.erase_size();
        let capacity = self.storage.capacity();
        let ghost eff = eff_len(offset as int, bytes.len() as int, capacity as int);
        let ghost data_all = bytes@.take(eff);
        let triples = overlaps(offset, bytes.len(), erase_size, capacity);
        proof {
            assert(data_all.take(0) =~= Seq::<u8>::empty());
            lemma_splice_empty(m0.contents, offset as int);
            if triples@.len() == 0 {
                assert(data_all =~= Seq::<u8>::empty());
            }
        }
        let mut k: usize = 0;
        #[verifier::loop_isolation(true)]
        while k < triples.len()
            invariant
                k <= triples.len(),
                self.inv(),
                m0 == old(self).storage.model(),
                erase_size == m0.erase_size,
                capacity == m0.contents.len(),
                eff == eff_len(offset as int, bytes.len() as int, m0.contents.len() as int),
                data_all == bytes@.take(eff),
                0 <= eff <= bytes@.len(),
                eff > 0 ==> offset as int + eff <= m0.contents.len(),
                (eff == 0 <==> triples@.len() == 0),
                forall|j: int|
                    0 <= j < triples@.len() ==> {
                        let t = #[trigger] triples@[j];
                        &&& t.data_start < t.data_end
                        &&& t.data_end as int <= eff
                        &&& t.addr as int == offset + t.data_start
                        &&& t.page.start <= t.addr
                        &&& t.page.start as int % m0.erase_size as int == 0
                        &&& t.addr + (t.data_end - t.data_start) - t.page.start
                            <= m0.erase_size as int
                        &&& t.page.size == erase_size
                        &&& t.page.spec_end() <= m0.contents.len()
                    },
                triples@.len() > 0 ==> triples@[0].data_start == 0,
                triples@.len() > 0 ==> triples@[triples@.len() - 1].data_end as int == eff,
                forall|j: int|
                    1 <= j < triples@.len() ==> (#[trigger] triples@[j]).data_start == triples@[j
                        - 1].data_end,
                same_geometry(m0, self.storage.model()),
                self.storage.model().erase_byte == m0.erase_byte,
                self.storage.model().write_ops == m0.write_ops + k,
                k == 0 ==> self.storage.model().erase_ops == m0.erase_ops,
                triples@.len() == 1 && k == 1 ==> ((and_compatible(
                    m0.contents,
                    offset as int,
                    data_all,
                ) ==> self.storage.model().erase_ops == m0.erase_ops) && (!and_compatible(
                    m0.contents,
                    offset as int,
                    data_all,
                ) ==> self.storage.model().erase_ops == m0.erase_ops + 1)),
                self.storage.model().contents == splice(
                    m0.contents,
                    offset as int,
                    data_all.take(
                        if k == 0 {
                            0
                        } else {
                            triples@[k - 1].data_end as int
                        },
                    ),
                ),
            decreases triples.len() - k,
        {
            let t = triples[k];
            proof {
                assert(t.data_start as int == (if k == 0 {
                    0int
                } else {
                    triples@[k - 1].data_end as int
                }));
                if k == 0 {
                    assert(data_all.take(0) =~= Seq::<u8>::empty());
                    lemma_splice_empty(m0.contents, offset as int);
                    assert(self.storage.model().contents == m0.contents);
                }
            }
            match multiwrite_step(
                &mut self.storage,
                &mut self.merge_buffer,
                offset,
                bytes,
                t,
                Ghost(m0.contents),
                Ghost(eff),
            ) {
                Ok(()) => {},
                Err(e) => {
                    return Err(e);
                },
            }
            proof {
                if k == 0 && triples@.len() == 1 {
                    assert(bytes@.subrange(t.data_start as int, t.data_end as int) =~= data_all);
                    assert(t.addr as int == offset as int);
                }
            }
            k += 1;
        }
        proof {
            if triples@.len() > 0 {
                assert(data_all.take(eff) =~= data_all);
            }
        }
        Ok(())
    }
}

} // verus!
