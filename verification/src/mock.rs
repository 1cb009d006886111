//! A RAM-backed flash device for tests: it validates every request with the
//! shared checkers, programs bytes with AND semantics, and reports a dirty
//! write whenever a write could not store exactly the requested bytes.

use vstd::prelude::*;

use crate::error::{ErrorType, NorFlashErrorKind};
use crate::model::{
    and_seq, erase_aligned, erase_in_bounds, erased_seq, lemma_and_ones, slice_aligned,
    slice_in_bounds, splice, FlashModel,
};
use crate::nor_flash::{
    check_erase_raw, check_slice_raw, MultiwriteNorFlash, NorFlash, ReadNorFlash,
};

verus! {

/// Whether one byte can be programmed to `data` over the existing value
/// `prev`: on a multiwrite device any value whose set bits are already set
/// may be written; on a plain device the byte must additionally still be in
/// the erased state.
pub open spec fn write_allowed(prev: u8, data: u8, multi: bool, erase_byte: u8) -> bool {
    (multi || prev == erase_byte) && (prev & data) == data
}

/// The state this device leaves behind when a write is blocked at index
/// `i0`: the bytes before `i0` have already been programmed (ANDed), the
/// byte at `i0` itself has been ANDed too unless a plain device refused it
/// up front for not being erased, and everything after is untouched.
pub open spec fn blocked_write_state(
    d0: Seq<u8>,
    offset: int,
    data: Seq<u8>,
    multi: bool,
    erase_byte: u8,
    d1: Seq<u8>,
    i0: int,
) -> bool {
    let cut = if !multi && d0[offset + i0] != erase_byte {
        i0
    } else {
        i0 + 1
    };
    &&& 0 <= i0 < data.len()
    &&& !write_allowed(d0[offset + i0], data[i0], multi, erase_byte)
    &&& (forall|i: int|
        0 <= i < i0 ==> write_allowed(d0[offset + i], #[trigger] data[i], multi, erase_byte))
    &&& d1 == splice(d0, offset, and_seq(d0.subrange(offset, offset + cut), data.take(cut)))
}

/// Simple RAM-backed flash storage implementation for tests.
///
/// `MULTI_WRITE` selects whether writing a word that is not in the erased
/// state is tolerated (with AND semantics) or reported as a dirty write.
#[derive(Clone, Copy)]
pub struct MockFlash<
    const CAPACITY: usize,
    const READ_SIZE: usize,
    const WRITE_SIZE: usize,
    const ERASE_SIZE: usize,
    const ERASE_BYTE: u8,
    const MULTI_WRITE: bool,
> {
    /// The stored bytes.
    pub data: [u8; CAPACITY],
    /// How many erase operations have completed on this device.
    pub erase_ops: Ghost<nat>,
    /// How many write operations have completed on this device.
    pub write_ops: Ghost<nat>,
}

impl<
    const CAPACITY: usize,
    const READ_SIZE: usize,
    const WRITE_SIZE: usize,
    const ERASE_SIZE: usize,
    const ERASE_BYTE: u8,
    const MULTI_WRITE: bool,
> Default for MockFlash<CAPACITY, READ_SIZE, WRITE_SIZE, ERASE_SIZE, ERASE_BYTE, MULTI_WRITE> {
    /// A device whose every byte starts in the erased state.
    fn default() -> (r: Self)
        ensures
            r.data@ == erased_seq(CAPACITY as nat, ERASE_BYTE),
            r.erase_ops@ == 0,
            r.write_ops@ == 0,
    {
        let r = MockFlash {
            data: [ERASE_BYTE; CAPACITY],
            erase_ops: Ghost(0nat),
            write_ops: Ghost(0nat),
        };
        proof {
            assert(r.data@ =~= erased_seq(CAPACITY as nat, ERASE_BYTE));
        }
        r
    }
}

impl<
    const CAPACITY: usize,
    const READ_SIZE: usize,
    const WRITE_SIZE: usize,
    const ERASE_SIZE: usize,
    const ERASE_BYTE: u8,
    const MULTI_WRITE: bool,
> ErrorType for MockFlash<CAPACITY, READ_SIZE, WRITE_SIZE, ERASE_SIZE, ERASE_BYTE, MULTI_WRITE> {
    type Error = NorFlashErrorKind;
}

impl<
    const CAPACITY: usize,
    const READ_SIZE: usize,
    const WRITE_SIZE: usize,
    const ERASE_SIZE: usize,
    const ERASE_BYTE: u8,
    const MULTI_WRITE: bool,
> ReadNorFlash for MockFlash<CAPACITY, READ_SIZE, WRITE_SIZE, ERASE_SIZE, ERASE_BYTE, MULTI_WRITE> {
    open spec fn model(&self) -> FlashModel {
        FlashModel {
            contents: self.data@,
            read_size: READ_SIZE,
            write_size: WRITE_SIZE,
            erase_size: ERASE_SIZE,
            erase_byte: ERASE_BYTE,
            reliable: ERASE_BYTE == 0xff,
            multiwrite_reliable: false,
            erase_ops: self.erase_ops@,
            write_ops: self.write_ops@,
        }
    }

    fn read_size(&self) -> usize {
        READ_SIZE
    }

    fn capacity(&self) -> (r: usize)
        ensures
            r == CAPACITY,
    {
        CAPACITY
    }

    fn read(&mut self, offset: u32, bytes: &mut Vec<u8>) -> (r: Result<(), Self::Error>)
        ensures
            r is Ok <==> slice_in_bounds(CAPACITY as int, offset as int, old(bytes).len() as int)
                && slice_aligned(READ_SIZE as int, offset as int, old(bytes).len() as int),
            r is Err ==> final(bytes)@ == old(bytes)@,
    {
        let length = bytes.len();
        match check_slice_raw(CAPACITY, READ_SIZE, offset, length) {
            Ok(()) => {},
            Err(e) => {
                return Err(e);
            },
        }
        let off = offset as usize;
        let mut j: usize = 0;
        while j < length
            invariant
                j <= length,
                bytes.len() == length,
                off + length <= self.data@.len(),
                forall|i: int| 0 <= i < j ==> bytes@[i] == self.data@[off + i],
            decreases length - j,
        {
            let v = self.data[off + j];
            bytes[j] = v;
            j += 1;
        }
        proof {
            assert(bytes@ =~= self.data@.subrange(offset as int, offset + length));
        }
        Ok(())
    }
}

impl<
    const CAPACITY: usize,
    const READ_SIZE: usize,
    const WRITE_SIZE: usize,
    const ERASE_SIZE: usize,
    const ERASE_BYTE: u8,
    const MULTI_WRITE: bool,
> NorFlash for MockFlash<CAPACITY, READ_SIZE, WRITE_SIZE, ERASE_SIZE, ERASE_BYTE, MULTI_WRITE> {
    fn write_size(&self) -> usize {
        WRITE_SIZE
    }

    fn erase_size(&self) -> usize {
        ERASE_SIZE
    }

    fn erase_byte(&self) -> u8 {
        ERASE_BYTE
    }

    fn erase(&mut self, from: u32, to: u32) -> (r: Result<(), Self::Error>)
        ensures
            r is Ok <==> erase_in_bounds(CAPACITY as int, from as int, to as int)
                && erase_aligned(ERASE_SIZE as int, from as int, to as int),
            r is Err ==> final(self).data@ == old(self).data@,
    {
        match check_erase_raw(CAPACITY, ERASE_SIZE, from, to) {
            Ok(()) => {},
            Err(e) => {
                return Err(e);
            },
        }
        let f = from as usize;
        let t = to as usize;
        let ghost d0 = self.data@;
        let mut j: usize = f;
        while j < t
            invariant
                f <= j <= t,
                t <= self.data@.len(),
                self.data@.len() == d0.len(),
                self.erase_ops@ == old(self).erase_ops@,
                self.write_ops@ == old(self).write_ops@,
                forall|i: int| f <= i < j ==> self.data@[i] == ERASE_BYTE,
                forall|i: int| 0 <= i < d0.len() && !(f <= i < j) ==> self.data@[i] == d0[i],
            decreases t - j,
        {
            self.data[j] = ERASE_BYTE;
            j += 1;
        }
        proof {
            self.erase_ops@ = self.erase_ops@ + 1;
            assert(self.data@ =~= splice(
                d0,
                from as int,
                erased_seq((to - from) as nat, ERASE_BYTE),
            ));
            assert(self.model() =~= (FlashModel {
                contents: splice(d0, from as int, erased_seq((to - from) as nat, ERASE_BYTE)),
                erase_ops: old(self).model().erase_ops + 1,
                ..old(self).model()
            }));
        }
        Ok(())
    }

    #[verifier::loop_isolation(false)]
    fn write(&mut self, offset: u32, bytes: &[u8]) -> (r: Result<(), Self::Error>)
        ensures
            r is Ok <==> (slice_in_bounds(CAPACITY as int, offset as int, bytes.len() as int)
                && slice_aligned(WRITE_SIZE as int, offset as int, bytes.len() as int) && (forall|
                i: int,
            |
                0 <= i < bytes.len() ==> write_allowed(
                    old(self).data@[offset + i],
                    #[trigger] bytes@[i],
                    MULTI_WRITE,
                    ERASE_BYTE,
                ))),
            r is Ok ==> final(self).data@ == splice(old(self).data@, offset as int, bytes@),
            r is Err && slice_in_bounds(CAPACITY as int, offset as int, bytes.len() as int)
                && slice_aligned(WRITE_SIZE as int, offset as int, bytes.len() as int) ==> r
                == Err::<(), NorFlashErrorKind>(NorFlashErrorKind::DirtyWrite) && (exists|i0: int|
                #[trigger] blocked_write_state(
                    old(self).data@,
                    offset as int,
                    bytes@,
                    MULTI_WRITE,
                    ERASE_BYTE,
                    final(self).data@,
                    i0,
                )),
    {
        let length = bytes.len();
        match check_slice_raw(CAPACITY, WRITE_SIZE, offset, length) {
            Ok(()) => {},
            Err(e) => {
                return Err(e);
            },
        }
        let off = offset as usize;
        let ghost d0 = self.data@;
        let mut j: usize = 0;
        while j < length
            invariant
                j <= length,
                length == bytes@.len(),
                off + length <= self.data@.len(),
                self.data@.len() == d0.len(),
                self.erase_ops@ == old(self).erase_ops@,
                self.write_ops@ == old(self).write_ops@,
                forall|i: int| 0 <= i < j ==> self.data@[off + i] == (d0[off + i] & bytes@[i]),
                forall|i: int|
                    0 <= i < j ==> write_allowed(
                        d0[off + i],
                        #[trigger] bytes@[i],
                        MULTI_WRITE,
                        ERASE_BYTE,
                    ),
                forall|i: int| 0 <= i < d0.len() && !(off <= i < off + j) ==> self.data@[i]
                    == d0[i],
            decreases length - j,
        {
            let dst = self.data[off + j];
            if !MULTI_WRITE && dst != ERASE_BYTE {
                proof {
                    lemma_and_ones(bytes@[j as int]);
                    assert(!write_allowed(d0[off + j], bytes@[j as int], MULTI_WRITE, ERASE_BYTE));
                    assert(self.data@ =~= splice(
                        d0,
                        offset as int,
                        and_seq(d0.subrange(offset as int, offset + j), bytes@.take(j as int)),
                    ));
                    assert(blocked_write_state(
                        d0,
                        offset as int,
                        bytes@,
                        MULTI_WRITE,
                        ERASE_BYTE,
                        self.data@,
                        j as int,
                    ));
                }
                return Err(NorFlashErrorKind::DirtyWrite);
            }
            let src = bytes[j];
            let nv = dst & src;
            self.data[off + j] = nv;
            if src != nv {
                proof {
                    lemma_and_ones(bytes@[j as int]);
                    assert(!write_allowed(d0[off + j], bytes@[j as int], MULTI_WRITE, ERASE_BYTE));
                    assert(self.data@ =~= splice(
                        d0,
                        offset as int,
                        and_seq(
                            d0.subrange(offset as int, offset + j + 1),
                            bytes@.take(j as int + 1),
                        ),
                    ));
                    assert(blocked_write_state(
                        d0,
                        offset as int,
                        bytes@,
                        MULTI_WRITE,
                        ERASE_BYTE,
                        self.data@,
                        j as int,
                    ));
                }
                return Err(NorFlashErrorKind::DirtyWrite);
            }
            j += 1;
        }
        proof {
            assert(self.data@ =~= splice(
                d0,
                offset as int,
                and_seq(d0.subrange(offset as int, offset + length), bytes@),
            ));
            self.write_ops@ = self.write_ops@ + 1;
            assert(self.model() =~= (FlashModel {
                contents: splice(
                    d0,
                    offset as int,
                    and_seq(d0.subrange(offset as int, offset + length), bytes@),
                ),
                write_ops: old(self).model().write_ops + 1,
                ..old(self).model()
            }));
            assert(self.data@ =~= splice(d0, offset as int, bytes@));
        }
        Ok(())
    }
}

impl<
    const CAPACITY: usize,
    const READ_SIZE: usize,
    const WRITE_SIZE: usize,
    const ERASE_SIZE: usize,
    const ERASE_BYTE: u8,
> MultiwriteNorFlash for MockFlash<CAPACITY, READ_SIZE, WRITE_SIZE, ERASE_SIZE, ERASE_BYTE, true> {

}

} // verus!
