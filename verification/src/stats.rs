//! A forwarding wrapper that counts how many read, write and erase
//! operations reach the device, and how many granularity-sized chunks they
//! covered.  Counters saturate instead of wrapping around.

use vstd::prelude::*;

use crate::error::ErrorType;
use crate::model::FlashModel;
use crate::nor_flash::{MultiwriteNorFlash, NorFlash, ReadNorFlash};

verus! {

/// A counter bumped by one, stopping at the largest representable value.
pub open spec fn saturating_inc(x: usize) -> usize {
    if x < usize::MAX {
        (x + 1) as usize
    } else {
        x
    }
}

/// A counter advanced by `y` chunks, stopping at the largest representable
/// value.
pub open spec fn saturating_add_chunks(x: usize, y: int) -> usize {
    if x + y <= usize::MAX {
        (x + y) as usize
    } else {
        usize::MAX
    }
}

/// A wrapper for NOR flash storage to collect usage statistics.
#[derive(Clone, Copy, Debug)]
pub struct NorFlashStats<S> {
    /// The wrapped storage instance.
    pub storage: S,
    /// Number of read operations.
    pub reads: usize,
    /// Amount of read chunks.
    pub read: usize,
    /// Number of write operations.
    pub writes: usize,
    /// Amount of written chunks.
    pub written: usize,
    /// Number of erase operations.
    pub erases: usize,
    /// Amount of erased sectors.
    pub erased: usize,
}

impl<S> From<S> for NorFlashStats<S> {
    fn from(storage: S) -> Self {
        NorFlashStats { storage, reads: 0, read: 0, writes: 0, written: 0, erases: 0, erased: 0 }
    }
}

impl<S> vstd::std_specs::convert::FromSpecImpl<S> for NorFlashStats<S> {
    open spec fn obeys_from_spec() -> bool {
        true
    }

    open spec fn from_spec(storage: S) -> Self {
        NorFlashStats { storage, reads: 0, read: 0, writes: 0, written: 0, erases: 0, erased: 0 }
    }
}

impl<S> NorFlashStats<S> {
    /// Unwrap to get the wrapped storage instance.
    pub fn into_inner(self) -> (r: S)
        ensures
            r == self.storage,
    {
        self.storage
    }
}

impl<S: ErrorType> ErrorType for NorFlashStats<S> {
    type Error = S::Error;
}

impl<S: ReadNorFlash> ReadNorFlash for NorFlashStats<S> {
    open spec fn model(&self) -> FlashModel {
        self.storage.model()
    }

    fn read_size(&self) -> usize {
        self.storage.read_size()
    }

    fn capacity(&self) -> usize {
        self.storage.capacity()
    }

    fn read(&mut self, offset: u32, bytes: &mut Vec<u8>) -> (r: Result<(), Self::Error>)
        ensures
            r is Ok ==> final(self).reads == saturating_inc(old(self).reads) && final(self).read
                == saturating_add_chunks(
                old(self).read,
                old(bytes).len() as int / old(self).model().read_size as int,
            ),
            r is Err ==> final(self).reads == old(self).reads && final(self).read == old(self).read,
            final(self).writes == old(self).writes,
            final(self).written == old(self).written,
            final(self).erases == old(self).erases,
            final(self).erased == old(self).erased,
    {
        let res = self.storage.read(offset, bytes);
        if res.is_ok() {
            let chunk_size = self.storage.read_size();
            let chunks = bytes.len() / chunk_size;
            self.reads = if self.reads < usize::MAX {
                self.reads + 1
            } else {
                self.reads
            };
            self.read = if self.read <= usize::MAX - chunks {
                self.read + chunks
            } else {
                usize::MAX
            };
        }
        res
    }
}

impl<S: NorFlash> NorFlash for NorFlashStats<S> {
    fn write_size(&self) -> usize {
        self.storage.write_size()
    }

    fn erase_size(&self) -> usize {
        self.storage.erase_size()
    }

    fn erase_byte(&self) -> u8 {
        self.storage.erase_byte()
    }

    fn erase(&mut self, from: u32, to: u32) -> (r: Result<(), Self::Error>)
        ensures
            r is Ok ==> final(self).erases == saturating_inc(old(self).erases) && final(self).erased == saturating_add_chunks(
                old(self).erased,
                (to - from) as int / old(self).model().erase_size as int,
            ),
            r is Err ==> final(self).erases == old(self).erases && final(self).erased == old(self).erased,
            final(self).reads == old(self).reads,
            final(self).read == old(self).read,
            final(self).writes == old(self).writes,
            final(self).written == old(self).written,
    {
        let res = self.storage.erase(from, to);
        if res.is_ok() {
            let chunk_size = self.storage.erase_size();
            let chunks = ((to - from) as usize) / chunk_size;
            self.erases = if self.erases < usize::MAX {
                self.erases + 1
            } else {
                self.erases
            };
            self.erased = if self.erased <= usize::MAX - chunks {
                self.erased + chunks
            } else {
                usize::MAX
            };
        }
        res
    }

    fn write(&mut self, offset: u32, bytes: &[u8]) -> (r: Result<(), Self::Error>)
        ensures
            r is Ok ==> final(self).writes == saturating_inc(old(self).writes) && final(self).written == saturating_add_chunks(
                old(self).written,
                bytes.len() as int / old(self).model().write_size as int,
            ),
            r is Err ==> final(self).writes == old(self).writes && final(self).written == old(self).written,
            final(self).reads == old(self).reads,
            final(self).read == old(self).read,
            final(self).erases == old(self).erases,
            final(self).erased == old(self).erased,
    {
        let res = self.storage.write(offset, bytes);
        if res.is_ok() {
            let chunk_size = self.storage.write_size();
            let chunks = bytes.len() / chunk_size;
            self.writes = if self.writes < usize::MAX {
                self.writes + 1
            } else {
                self.writes
            };
            self.written = if self.written <= usize::MAX - chunks {
                self.written + chunks
            } else {
                usize::MAX
            };
        }
        res
    }
}

impl<S: MultiwriteNorFlash> MultiwriteNorFlash for NorFlashStats<S> {

}

} // verus!
