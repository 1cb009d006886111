//! Byte-addressable read/write access on top of block-erase NOR flash.
//!
//! Hardware NOR flash only supports whole-page erase and page-granular,
//! write-once (or AND-only) programming.  This crate turns an arbitrary
//! `(offset, length)` write request into a proved-correct sequence of
//! read-merge-erase-write operations against erase-sized pages, never losing
//! bytes outside the requested range, skipping destructive erase cycles when
//! the device tolerates repeated bitwise-AND writes, and rejecting requests
//! that violate alignment or capacity invariants before touching hardware.

mod error;
mod mock;
mod model;
mod nor_flash;
mod overlap;
mod page;
mod rmw;
mod stats;

pub use error::{ErrorType, NorFlashError, NorFlashErrorKind};
pub use mock::{blocked_write_state, write_allowed, MockFlash};
pub use model::{
    and_compatible, and_seq, apply_writes, covered, eff_len, erase_aligned, erase_in_bounds, erased_seq,
    lemma_apply_writes_len, lemma_full_write, lemma_round_trip_full_cover,
    lemma_and_comm, lemma_and_ones, lemma_mod_chain, lemma_splice_erased_identity,
    lemma_write_read_back, req_covers, same_geometry,
    slice_aligned, slice_in_bounds, splice, FlashModel,
};
pub use nor_flash::{
    check_erase, check_erase_raw, check_read, check_slice, check_slice_raw, check_write,
    MultiwriteNorFlash, NorFlash, ReadNorFlash,
};
pub use overlap::{
    concat_data, decomposes, first_page_index, last_page_index, lemma_overlaps_complete,
    overlaps, touched_page_count, triple_matches, Triple,
};
pub use page::Page;
pub use rmw::{
    adapter_geometry, lemma_subset_write_exact, RmwMultiwriteNorFlashStorage,
    RmwNorFlashStorage,
};
pub use stats::{saturating_add_chunks, saturating_inc, NorFlashStats};
