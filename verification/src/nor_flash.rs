//! The device capability contracts: read-only flash, erasable flash, and the
//! multiwrite marker, together with the pure bounds/alignment validators that
//! run before any hardware access.

use vstd::prelude::*;

use crate::error::{ErrorType, NorFlashError, NorFlashErrorKind};
use crate::model::{
    and_seq, erase_aligned, erase_in_bounds, erased_seq, same_geometry, slice_aligned,
    slice_in_bounds, splice, FlashModel,
};

verus! {

/// Read only NOR flash trait.
///
/// Every operation is specified against the device's [`FlashModel`]: reads
/// leave the model unchanged and, on success, return exactly the modelled
/// contents of the requested range.  Requests that are out of bounds or not
/// aligned to the read granularity fail before touching the stored bytes.
pub trait ReadNorFlash: ErrorType {
    /// The abstract contents and geometry of this device.
    spec fn model(&self) -> FlashModel;

    /// The minimum number of bytes the storage peripheral can read.
    fn read_size(&self) -> (r: usize)
        ensures
            r == self.model().read_size,
    ;

    /// The capacity of the peripheral in bytes.
    fn capacity(&self) -> (r: usize)
        ensures
            r == self.model().contents.len(),
    ;

    /// Read a slice of data from the storage peripheral, starting the read
    /// operation at the given address offset, and reading `bytes.len()`
    /// bytes.
    ///
    /// Returns an error if the arguments are not aligned or out of bounds.
    /// The implementation can use the [`check_read`] helper function.  On a
    /// reliable device a valid read always succeeds.
    fn read(&mut self, offset: u32, bytes: &mut Vec<u8>) -> (r: Result<(), Self::Error>)
        requires
            old(self).model().read_size > 0,
        ensures
            final(self).model() == old(self).model(),
            final(bytes).len() == old(bytes).len(),
            old(self).model().reliable && slice_in_bounds(
                old(self).model().contents.len() as int,
                offset as int,
                old(bytes).len() as int,
            ) && slice_aligned(
                old(self).model().read_size as int,
                offset as int,
                old(bytes).len() as int,
            ) ==> r is Ok,
            r is Ok ==> {
                &&& slice_in_bounds(
                    old(self).model().contents.len() as int,
                    offset as int,
                    old(bytes).len() as int,
                )
                &&& slice_aligned(
                    old(self).model().read_size as int,
                    offset as int,
                    old(bytes).len() as int,
                )
                &&& final(bytes)@ == old(self).model().contents.subrange(
                    offset as int,
                    offset + old(bytes).len(),
                )
            },
            !slice_in_bounds(
                old(self).model().contents.len() as int,
                offset as int,
                old(bytes).len() as int,
            ) ==> (r matches Err(e) && e.kind_spec() == NorFlashErrorKind::OutOfBounds),
            slice_in_bounds(
                old(self).model().contents.len() as int,
                offset as int,
                old(bytes).len() as int,
            ) && !slice_aligned(
                old(self).model().read_size as int,
                offset as int,
                old(bytes).len() as int,
            ) ==> (r matches Err(e) && e.kind_spec() == NorFlashErrorKind::NotAligned),
    ;
}

/// NOR flash trait.
///
/// Erase sets every byte of the requested page range to the erased-byte
/// value.  A successful write programs bytes with AND semantics: the new
/// contents of the written range are the bitwise AND of the previous contents
/// and the written data, which is the strongest guarantee common to
/// write-once and multiwrite devices.  Both operations reject unaligned or
/// out-of-bounds requests without touching the stored bytes.
pub trait NorFlash: ReadNorFlash {
    /// The minimum number of bytes the storage peripheral can write.
    fn write_size(&self) -> (r: usize)
        ensures
            r == self.model().write_size,
    ;

    /// The minimum number of bytes the storage peripheral can erase.
    fn erase_size(&self) -> (r: usize)
        ensures
            r == self.model().erase_size,
    ;

    /// The content of erased storage, usually `0xff` for NOR flash.
    fn erase_byte(&self) -> (r: u8)
        ensures
            r == self.model().erase_byte,
    ;

    /// Erase the given storage range, clearing all data within `[from..to]`.
    /// The given range will contain the erased-byte value afterwards.
    ///
    /// Returns an error if the arguments are not aligned or out of bounds
    /// (the case where `to < from` is considered out of bounds).  The
    /// implementation can use the [`check_erase`] helper function.  On a
    /// reliable device a valid erase always succeeds.
    fn erase(&mut self, from: u32, to: u32) -> (r: Result<(), Self::Error>)
        requires
            old(self).model().erase_size > 0,
        ensures
            same_geometry(old(self).model(), final(self).model()),
            old(self).model().reliable && erase_in_bounds(
                old(self).model().contents.len() as int,
                from as int,
                to as int,
            ) && erase_aligned(old(self).model().erase_size as int, from as int, to as int)
                ==> r is Ok,
            r is Ok ==> {
                &&& erase_in_bounds(
                    old(self).model().contents.len() as int,
                    from as int,
                    to as int,
                )
                &&& erase_aligned(old(self).model().erase_size as int, from as int, to as int)
                &&& final(self).model() == (FlashModel {
                    contents: splice(
                        old(self).model().contents,
                        from as int,
                        erased_seq((to - from) as nat, old(self).model().erase_byte),
                    ),
                    erase_ops: old(self).model().erase_ops + 1,
                    ..old(self).model()
                })
            },
            !erase_in_bounds(old(self).model().contents.len() as int, from as int, to as int)
                ==> (r matches Err(e) && e.kind_spec() == NorFlashErrorKind::OutOfBounds
                    && final(self).model() == old(self).model()),
            erase_in_bounds(old(self).model().contents.len() as int, from as int, to as int)
                && !erase_aligned(old(self).model().erase_size as int, from as int, to as int)
                ==> (r matches Err(e) && e.kind_spec() == NorFlashErrorKind::NotAligned
                    && final(self).model() == old(self).model()),
    ;

    /// Write `bytes` starting at the given address offset.
    ///
    /// On success the written range holds the bitwise AND of its previous
    /// contents and `bytes`; on a freshly erased range of an all-ones device
    /// that is `bytes` itself.  Writing to the same word twice without an
    /// intervening erase is not allowed on plain devices and fails with a
    /// dirty-write error rather than storing something other than `bytes`.
    ///
    /// Returns an error if the arguments are not aligned or out of bounds.
    /// The implementation can use the [`check_write`] helper function.  On a
    /// reliable device a valid write onto a fully-erased range always
    /// succeeds, and on a reliable-multiwrite device every valid write
    /// succeeds.
    fn write(&mut self, offset: u32, bytes: &[u8]) -> (r: Result<(), Self::Error>)
        requires
            old(self).model().write_size > 0,
        ensures
            same_geometry(old(self).model(), final(self).model()),
            old(self).model().reliable && slice_in_bounds(
                old(self).model().contents.len() as int,
                offset as int,
                bytes.len() as int,
            ) && slice_aligned(
                old(self).model().write_size as int,
                offset as int,
                bytes.len() as int,
            ) && (forall|i: int|
                0 <= i < bytes.len() ==> #[trigger] old(self).model().contents[offset + i] == old(
                    self,
                ).model().erase_byte) ==> r is Ok,
            old(self).model().multiwrite_reliable && slice_in_bounds(
                old(self).model().contents.len() as int,
                offset as int,
                bytes.len() as int,
            ) && slice_aligned(
                old(self).model().write_size as int,
                offset as int,
                bytes.len() as int,
            ) ==> r is Ok,
            r is Ok ==> {
                &&& slice_in_bounds(
                    old(self).model().contents.len() as int,
                    offset as int,
                    bytes.len() as int,
                )
                &&& slice_aligned(
                    old(self).model().write_size as int,
                    offset as int,
                    bytes.len() as int,
                )
                &&& final(self).model() == (FlashModel {
                    contents: splice(
                        old(self).model().contents,
                        offset as int,
                        and_seq(
                            old(self).model().contents.subrange(
                                offset as int,
                                offset + bytes.len(),
                            ),
                            bytes@,
                        ),
                    ),
                    write_ops: old(self).model().write_ops + 1,
                    ..old(self).model()
                })
            },
            !slice_in_bounds(
                old(self).model().contents.len() as int,
                offset as int,
                bytes.len() as int,
            ) ==> (r matches Err(e) && e.kind_spec() == NorFlashErrorKind::OutOfBounds
                && final(self).model() == old(self).model()),
            slice_in_bounds(
                old(self).model().contents.len() as int,
                offset as int,
                bytes.len() as int,
            ) && !slice_aligned(
                old(self).model().write_size as int,
                offset as int,
                bytes.len() as int,
            ) ==> (r matches Err(e) && e.kind_spec() == NorFlashErrorKind::NotAligned
                && final(self).model() == old(self).model()),
    ;
}

/// Marker trait for NorFlash relaxing the restrictions on `write`.
///
/// Writes to the same word twice are now allowed.  The result is the logical
/// AND of the previous data and the written data: it is only possible to
/// change 1 bits to 0 bits.
pub trait MultiwriteNorFlash: NorFlash {}

/// Return whether a read operation is within bounds and aligned.
pub fn check_read<T: ReadNorFlash>(flash: &T, offset: u32, length: usize) -> (r: Result<
    (),
    NorFlashErrorKind,
>)
    requires
        flash.model().read_size > 0,
    ensures
        r is Ok <==> slice_in_bounds(
            flash.model().contents.len() as int,
            offset as int,
            length as int,
        ) && slice_aligned(flash.model().read_size as int, offset as int, length as int),
        r == Err::<(), NorFlashErrorKind>(NorFlashErrorKind::OutOfBounds) <==> !slice_in_bounds(
            flash.model().contents.len() as int,
            offset as int,
            length as int,
        ),
        r == Err::<(), NorFlashErrorKind>(NorFlashErrorKind::NotAligned) <==> slice_in_bounds(
            flash.model().contents.len() as int,
            offset as int,
            length as int,
        ) && !slice_aligned(flash.model().read_size as int, offset as int, length as int),
{
    let align = flash.read_size();
    check_slice(flash, align, offset, length)
}

/// Return whether a write operation is within bounds and aligned.
pub fn check_write<T: NorFlash>(flash: &T, offset: u32, length: usize) -> (r: Result<
    (),
    NorFlashErrorKind,
>)
    requires
        flash.model().write_size > 0,
    ensures
        r is Ok <==> slice_in_bounds(
            flash.model().contents.len() as int,
            offset as int,
            length as int,
        ) && slice_aligned(flash.model().write_size as int, offset as int, length as int),
        r == Err::<(), NorFlashErrorKind>(NorFlashErrorKind::OutOfBounds) <==> !slice_in_bounds(
            flash.model().contents.len() as int,
            offset as int,
            length as int,
        ),
        r == Err::<(), NorFlashErrorKind>(NorFlashErrorKind::NotAligned) <==> slice_in_bounds(
            flash.model().contents.len() as int,
            offset as int,
            length as int,
        ) && !slice_aligned(flash.model().write_size as int, offset as int, length as int),
{
    let align = flash.write_size();
    check_slice(flash, align, offset, length)
}

/// Return whether an `(offset, length)` request is within `capacity` and
/// aligned to the granularity `align`, from the plain values alone.  Bounds
/// are checked first: an out-of-bounds request reports `OutOfBounds` even if
/// also unaligned.
pub fn check_slice_raw(capacity: usize, align: usize, offset: u32, length: usize) -> (r: Result<
    (),
    NorFlashErrorKind,
>)
    requires
        align > 0,
    ensures
        r is Ok <==> slice_in_bounds(capacity as int, offset as int, length as int)
            && slice_aligned(align as int, offset as int, length as int),
        r == Err::<(), NorFlashErrorKind>(NorFlashErrorKind::OutOfBounds) <==> !slice_in_bounds(
            capacity as int,
            offset as int,
            length as int,
        ),
        r == Err::<(), NorFlashErrorKind>(NorFlashErrorKind::NotAligned) <==> slice_in_bounds(
            capacity as int,
            offset as int,
            length as int,
        ) && !slice_aligned(align as int, offset as int, length as int),
{
    let offset_usize = offset as usize;
    if length > capacity || offset_usize > capacity - length {
        return Err(NorFlashErrorKind::OutOfBounds);
    }
    if offset_usize % align != 0 || length % align != 0 {
        return Err(NorFlashErrorKind::NotAligned);
    }
    Ok(())
}

/// Return whether an `(offset, length)` request is within the capacity of
/// `flash` and aligned to the granularity `align`.  Bounds are checked first:
/// an out-of-bounds request reports `OutOfBounds` even if also unaligned.
pub fn check_slice<T: ReadNorFlash>(flash: &T, align: usize, offset: u32, length: usize) -> (r:
    Result<(), NorFlashErrorKind>)
    requires
        align > 0,
    ensures
        r is Ok <==> slice_in_bounds(
            flash.model().contents.len() as int,
            offset as int,
            length as int,
        ) && slice_aligned(align as int, offset as int, length as int),
        r == Err::<(), NorFlashErrorKind>(NorFlashErrorKind::OutOfBounds) <==> !slice_in_bounds(
            flash.model().contents.len() as int,
            offset as int,
            length as int,
        ),
        r == Err::<(), NorFlashErrorKind>(NorFlashErrorKind::NotAligned) <==> slice_in_bounds(
            flash.model().contents.len() as int,
            offset as int,
            length as int,
        ) && !slice_aligned(align as int, offset as int, length as int),
{
    let capacity = flash.capacity();
    check_slice_raw(capacity, align, offset, length)
}

/// Return whether an erase range is ordered, within `capacity`, and aligned
/// to the erase granularity, from the plain values alone.  Bounds are checked
/// first: an out-of-bounds range reports `OutOfBounds` even if also
/// unaligned.
pub fn check_erase_raw(capacity: usize, erase_size: usize, from: u32, to: u32) -> (r: Result<
    (),
    NorFlashErrorKind,
>)
    requires
        erase_size > 0,
    ensures
        r is Ok <==> erase_in_bounds(capacity as int, from as int, to as int) && erase_aligned(
            erase_size as int,
            from as int,
            to as int,
        ),
        r == Err::<(), NorFlashErrorKind>(NorFlashErrorKind::OutOfBounds) <==> !erase_in_bounds(
            capacity as int,
            from as int,
            to as int,
        ),
        r == Err::<(), NorFlashErrorKind>(NorFlashErrorKind::NotAligned) <==> erase_in_bounds(
            capacity as int,
            from as int,
            to as int,
        ) && !erase_aligned(erase_size as int, from as int, to as int),
{
    let from_usize = from as usize;
    let to_usize = to as usize;
    if from_usize > to_usize || to_usize > capacity {
        return Err(NorFlashErrorKind::OutOfBounds);
    }
    if from_usize % erase_size != 0 || to_usize % erase_size != 0 {
        return Err(NorFlashErrorKind::NotAligned);
    }
    Ok(())
}

/// Return whether an erase operation is aligned and within bounds.  Bounds
/// are checked first: an out-of-bounds range reports `OutOfBounds` even if
/// also unaligned.
pub fn check_erase<T: NorFlash>(flash: &T, from: u32, to: u32) -> (r: Result<
    (),
    NorFlashErrorKind,
>)
    requires
        flash.model().erase_size > 0,
    ensures
        r is Ok <==> erase_in_bounds(flash.model().contents.len() as int, from as int, to as int)
            && erase_aligned(flash.model().erase_size as int, from as int, to as int),
        r == Err::<(), NorFlashErrorKind>(NorFlashErrorKind::OutOfBounds) <==> !erase_in_bounds(
            flash.model().contents.len() as int,
            from as int,
            to as int,
        ),
        r == Err::<(), NorFlashErrorKind>(NorFlashErrorKind::NotAligned) <==> erase_in_bounds(
            flash.model().contents.len() as int,
            from as int,
            to as int,
        ) && !erase_aligned(flash.model().erase_size as int, from as int, to as int),
{
    let capacity = flash.capacity();
    let erase_size = flash.erase_size();
    check_erase_raw(capacity, erase_size, from, to)
}

} // verus!
