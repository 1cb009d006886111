//! The page-overlap decomposition: given the page geometry of a device and a
//! `(data, offset)` write request, produce one `(data range, page, absolute
//! address)` triple per page the request touches, in ascending address order.
//! Concatenating the data ranges, in order, reproduces the request exactly.

use vstd::prelude::*;

use vstd::arithmetic::div_mod::{
    lemma_div_is_ordered, lemma_fundamental_div_mod, lemma_mod_bound, lemma_mod_multiples_basic,
};

use crate::model::eff_len;
use crate::page::Page;

verus! {

/// One element of a decomposition: the sub-range `[data_start, data_end)` of
/// the request's data falls inside `page`, and `addr` is the absolute device
/// address of the first byte of that sub-range.
#[derive(Clone, Copy, Debug, PartialEq, Eq, Structural)]
pub struct Triple {
    /// Start of the data sub-range, as an index into the request's bytes.
    pub data_start: usize,
    /// End (exclusive) of the data sub-range.
    pub data_end: usize,
    /// The page this sub-range falls into.
    pub page: Page,
    /// The absolute device address of the sub-range's first byte.
    pub addr: u32,
}

/// The index of the first page a request starting at `offset` touches.
pub open spec fn first_page_index(offset: int, erase_size: int) -> int {
    offset / erase_size
}

/// The index of the last page a request of effective length `eff` starting
/// at `offset` touches.
pub open spec fn last_page_index(offset: int, eff: int, erase_size: int) -> int {
    (offset + eff - 1) / erase_size
}

/// How many pages a request of `len` bytes at `offset` touches: the number
/// of triples its decomposition yields, and so the number of erase and
/// full-page write operations the erase-required adapter costs for it.
pub open spec fn touched_page_count(offset: int, len: int, erase_size: int, cap: int) -> int {
    let eff = eff_len(offset, len, cap);
    if eff == 0 {
        0
    } else {
        last_page_index(offset, eff, erase_size) - first_page_index(offset, erase_size) + 1
    }
}

/// The `k`-th triple of the decomposition of a request at `offset` with
/// effective length `eff` over pages of size `erase_size`: its page is the
/// `k`-th touched page, its address is where that page and the request start
/// to overlap, and its data range is that overlap shifted into the request.
pub open spec fn triple_matches(t: Triple, offset: int, eff: int, erase_size: int, k: int) -> bool {
    let p = first_page_index(offset, erase_size) + k;
    &&& t.page.start as int == p * erase_size
    &&& t.page.size as int == erase_size
    &&& t.addr as int == (if p * erase_size > offset {
        p * erase_size
    } else {
        offset
    })
    &&& t.data_start as int == t.addr - offset
    &&& t.data_end as int == (if (p + 1) * erase_size < offset + eff {
        (p + 1) * erase_size
    } else {
        offset + eff
    }) - offset
}

/// The geometric characterization of a decomposition: the triples are, in
/// order, exactly the touched pages of the request, as [`triple_matches`]
/// states.  Opaque so that callers that only need the tiling facts of
/// [`overlaps`] are not burdened with it; reveal it to use the page formulas.
#[verifier::opaque]
pub open spec fn decomposes(
    r: Seq<Triple>,
    offset: int,
    len: int,
    erase_size: int,
    cap: int,
) -> bool {
    let eff = eff_len(offset, len, cap);
    &&& (eff > 0 ==> r.len() == last_page_index(offset, eff, erase_size) - first_page_index(
        offset,
        erase_size,
    ) + 1)
    &&& (forall|k: int|
        0 <= k < r.len() ==> triple_matches(#[trigger] r[k], offset, eff, erase_size, k))
}

/// The concatenation, in yield order, of the data sub-ranges of `triples`,
/// taken out of `bytes`.
pub open spec fn concat_data(bytes: Seq<u8>, triples: Seq<Triple>) -> Seq<u8>
    decreases triples.len(),
{
    if triples.len() == 0 {
        Seq::empty()
    } else {
        concat_data(bytes, triples.drop_last()) + bytes.subrange(
            triples.last().data_start as int,
            triples.last().data_end as int,
        )
    }
}

proof fn lemma_mul_le(a: int, b: int, c: int)
    requires
        a <= b,
        c >= 0,
    ensures
        a * c <= b * c,
{
    assert(a * c <= b * c) by (nonlinear_arith)
        requires
            a <= b,
            c >= 0,
    ;
}

/// Decompose a request of `len` bytes at address `offset` over the pages of
/// a device with the given erase granularity and capacity.  The triples
/// cover, page by page and in ascending address order, exactly the part of
/// the request that lies below `capacity`; their data ranges tile
/// `[0, eff_len)` without gaps or overlaps.
pub fn overlaps(offset: u32, len: usize, erase_size: usize, capacity: usize) -> (r: Vec<Triple>)
    requires
        erase_size > 0,
        capacity % erase_size == 0,
        capacity <= u32::MAX,
    ensures
        ({
            let off = offset as int;
            let e = erase_size as int;
            let cap = capacity as int;
            let eff = eff_len(off, len as int, cap);
            &&& (eff == 0 <==> r@.len() == 0)
            &&& r@.len() == touched_page_count(off, len as int, e, cap)
            &&& decomposes(r@, off, len as int, e, cap)
            &&& (forall|k: int|
                0 <= k < r@.len() ==> {
                    let t = #[trigger] r@[k];
                    &&& t.data_start < t.data_end
                    &&& t.data_end as int <= eff
                    &&& eff <= len
                    &&& t.addr as int == off + t.data_start
                    &&& t.page.start <= t.addr
                    &&& t.page.start as int % e == 0
                    &&& t.addr + (t.data_end - t.data_start) - t.page.start <= e
                    &&& t.page.size == erase_size
                    &&& t.page.spec_end() <= cap
                })
            &&& (r@.len() > 0 ==> r@[0].data_start == 0)
            &&& (r@.len() > 0 ==> r@[r@.len() - 1].data_end as int == eff)
            &&& (forall|k: int|
                1 <= k < r@.len() ==> (#[trigger] r@[k]).data_start == r@[k - 1].data_end)
        }),
{
    let ghost e_i = erase_size as int;
    let ghost cap_i = capacity as int;
    let mut r: Vec<Triple> = Vec::new();
    proof {
        reveal(decomposes);
    }
    let off = offset as usize;
    if off >= capacity {
        return r;
    }
    let rest = capacity - off;
    let eff = if len <= rest {
        len
    } else {
        rest
    };
    if eff == 0 {
        return r;
    }
    let first = off / erase_size;
    let last = (off + eff - 1) / erase_size;
    proof {
        let x = off as int;
        let n = eff as int;
        let f = first as int;
        let l = last as int;
        let q = cap_i / e_i;
        lemma_fundamental_div_mod(x, e_i);
        lemma_mod_bound(x, e_i);
        assert(f * e_i <= x && x < f * e_i + e_i) by (nonlinear_arith)
            requires
                x == e_i * f + x % e_i,
                0 <= x % e_i,
                (x % e_i) < e_i,
        ;
        lemma_fundamental_div_mod(x + n - 1, e_i);
        lemma_mod_bound(x + n - 1, e_i);
        assert(l * e_i <= x + n - 1 && x + n - 1 < l * e_i + e_i) by (nonlinear_arith)
            requires
                x + n - 1 == e_i * l + (x + n - 1) % e_i,
                0 <= (x + n - 1) % e_i,
                ((x + n - 1) % e_i) < e_i,
        ;
        lemma_div_is_ordered(x, x + n - 1, e_i);
        lemma_fundamental_div_mod(cap_i, e_i);
        // The last touched page still lies below the capacity.
        assert((l + 1) * e_i <= cap_i) by (nonlinear_arith)
            requires
                cap_i == e_i * q,
                e_i > 0,
                l * e_i <= x + n - 1,
                x + n <= cap_i,
                0 <= l,
        ;
    }
    let mut p = first;
    while p <= last
        invariant
            erase_size as int == e_i,
            capacity as int == cap_i,
            e_i > 0,
            cap_i <= u32::MAX,
            off == offset as usize,
            off < capacity,
            0 < eff <= len,
            off as int + eff as int <= cap_i,
            eff as int == eff_len(offset as int, len as int, cap_i),
            first as int == first_page_index(off as int, e_i),
            last as int == last_page_index(off as int, eff as int, e_i),
            first as int * e_i <= off as int,
            (off as int) < first as int * e_i + e_i,
            last as int * e_i <= off as int + eff as int - 1,
            off as int + eff as int - 1 < last as int * e_i + e_i,
            (last as int + 1) * e_i <= cap_i,
            first <= p <= last + 1,
            r@.len() == p - first,
            forall|k: int|
                0 <= k < r@.len() ==> triple_matches(
                    #[trigger] r@[k],
                    off as int,
                    eff as int,
                    e_i,
                    k,
                ),
            forall|k: int|
                0 <= k < r@.len() ==> {
                    let t = #[trigger] r@[k];
                    &&& t.data_start < t.data_end
                    &&& t.data_end as int <= eff as int
                    &&& t.addr as int == off + t.data_start
                    &&& t.page.start <= t.addr
                    &&& t.page.start as int % e_i == 0
                    &&& t.addr + (t.data_end - t.data_start) - t.page.start <= e_i
                    &&& t.page.size == erase_size
                    &&& t.page.spec_end() <= cap_i
                },
            r@.len() > 0 ==> r@[0].data_start == 0,
            r@.len() > 0 ==> r@[r@.len() - 1].data_end as int == (if p as int * e_i < off as int
                + eff as int {
                p as int * e_i
            } else {
                off as int + eff as int
            }) - off as int,
            forall|k: int|
                1 <= k < r@.len() ==> (#[trigger] r@[k]).data_start == r@[k - 1].data_end,
        decreases last + 1 - p,
    {
        proof {
            lemma_mul_le(first as int, p as int, e_i);
            lemma_mul_le(p as int, last as int, e_i);
            lemma_mul_le(p as int + 1, last as int + 1, e_i);
            if first < p {
                lemma_mul_le(first as int + 1, p as int, e_i);
            }
            lemma_mod_multiples_basic(p as int, e_i);
            assert((p as int + 1) * e_i == p as int * e_i + e_i) by (nonlinear_arith);
            assert((first as int + 1) * e_i == first as int * e_i + e_i) by (nonlinear_arith);
            assert((last as int + 1) * e_i == last as int * e_i + e_i) by (nonlinear_arith);
        }
        let ps = p * erase_size;
        let pe = ps + erase_size;
        let addr = if ps > off {
            ps
        } else {
            off
        };
        let request_end = off + eff;
        let dend_abs = if pe < request_end {
            pe
        } else {
            request_end
        };
        let page = Page { start: ps as u32, size: erase_size };
        let triple = Triple {
            data_start: addr - off,
            data_end: dend_abs - off,
            page,
            addr: addr as u32,
        };
        r.push(triple);
        proof {
            let k = p as int - first as int;
            assert(r@[k] == triple);
            assert(triple_matches(triple, off as int, eff as int, e_i, k));
            assert(forall|j: int|
                0 <= j < r@.len() - 1 ==> r@[j] == r@.subrange(0, r@.len() - 1)[j]);
            if k >= 1 {
                assert(r@[k - 1].data_end as int == (if p as int * e_i < off as int + eff as int {
                    p as int * e_i
                } else {
                    off as int + eff as int
                }) - off as int);
                assert(triple.data_start == r@[k - 1].data_end);
            }
        }
        p = p + 1;
    }
    proof {
        assert((last as int + 1) * e_i == last as int * e_i + e_i) by (nonlinear_arith);
        reveal(decomposes);
    }
    r
}

proof fn lemma_concat_data_range(bytes: Seq<u8>, triples: Seq<Triple>)
    requires
        triples.len() > 0,
        forall|k: int|
            0 <= k < triples.len() ==> {
                let t = #[trigger] triples[k];
                t.data_start <= t.data_end && t.data_end as int <= bytes.len()
            },
        forall|k: int|
            1 <= k < triples.len() ==> (#[trigger] triples[k]).data_start == triples[k
                - 1].data_end,
    ensures
        triples[0].data_start <= triples.last().data_end,
        concat_data(bytes, triples) == bytes.subrange(
            triples[0].data_start as int,
            triples.last().data_end as int,
        ),
    decreases triples.len(),
{
    assert(triples[triples.len() - 1] == triples.last());
    if triples.len() == 1 {
        assert(triples.drop_last().len() == 0);
        assert(concat_data(bytes, triples.drop_last()) == Seq::<u8>::empty());
        assert(concat_data(bytes, triples) =~= bytes.subrange(
            triples[0].data_start as int,
            triples.last().data_end as int,
        ));
    } else {
        let prefix = triples.drop_last();
        assert(forall|j: int| 0 <= j < prefix.len() ==> #[trigger] prefix[j] == triples[j]);
        lemma_concat_data_range(bytes, prefix);
        assert(prefix[0] == triples[0]);
        assert(prefix.last() == triples[triples.len() - 2]);
        assert(triples.last().data_start == triples[triples.len() - 2].data_end);
        assert(concat_data(bytes, triples) =~= bytes.subrange(
            triples[0].data_start as int,
            triples.last().data_end as int,
        ));
    }
}

/// Decomposition completeness: for a request `(offset, bytes)` that lies
/// within the device capacity, concatenating the data sub-ranges yielded by
/// the decomposition, in yield order, reproduces `bytes` exactly, and the
/// yielded absolute addresses are strictly ascending and contiguous: each
/// triple starts exactly where the previous one ended.
pub proof fn lemma_overlaps_complete(bytes: Seq<u8>, triples: Seq<Triple>, offset: int)
    requires
        triples.len() == 0 ==> bytes.len() == 0,
        triples.len() > 0 ==> triples[0].data_start == 0,
        triples.len() > 0 ==> triples.last().data_end as int == bytes.len(),
        forall|k: int|
            0 <= k < triples.len() ==> {
                let t = #[trigger] triples[k];
                t.data_start <= t.data_end && t.data_end as int <= bytes.len() && t.addr as int
                    == offset + t.data_start
            },
        forall|k: int|
            1 <= k < triples.len() ==> (#[trigger] triples[k]).data_start == triples[k
                - 1].data_end,
    ensures
        concat_data(bytes, triples) == bytes,
        forall|k: int|
            1 <= k < triples.len() ==> (#[trigger] triples[k]).addr == triples[k - 1].addr + (
            triples[k - 1].data_end - triples[k - 1].data_start),
{
    if triples.len() == 0 {
        assert(concat_data(bytes, triples) =~= bytes);
    } else {
        lemma_concat_data_range(bytes, triples);
        assert(bytes.subrange(0, bytes.len() as int) =~= bytes);
    }
}

} // verus!
