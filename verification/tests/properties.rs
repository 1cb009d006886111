use embedded_storage::{
    check_erase_raw, check_read, check_slice_raw, check_write, overlaps, MockFlash, NorFlash,
    NorFlashError, NorFlashErrorKind, NorFlashStats, Page, ReadNorFlash,
    RmwMultiwriteNorFlashStorage, RmwNorFlashStorage,
};

const TEST_SIZE: usize = 64;
const TEST_WORD: usize = 4;
const TEST_PAGE: usize = 16;
type TestFlash = MockFlash<TEST_SIZE, TEST_WORD, TEST_WORD, TEST_PAGE, 0xff, false>;
type MultiFlash = MockFlash<TEST_SIZE, TEST_WORD, TEST_WORD, TEST_PAGE, 0xff, true>;

#[test]
fn decomposition_page_straddling_request() {
    // A 5-byte request at offset 12 straddles the pages [0, 16) and
    // [16, 32): the data ranges tile [0, 5) and the addresses are
    // contiguous with the page geometry.
    let triples = overlaps(12, 5, TEST_PAGE, TEST_SIZE);
    assert_eq!(triples.len(), 2);

    assert_eq!(triples[0].data_start, 0);
    assert_eq!(triples[0].data_end, 4);
    assert_eq!(triples[0].addr, 12);
    assert_eq!(triples[0].page.start, 0);
    assert_eq!(triples[0].page.size, TEST_PAGE);

    assert_eq!(triples[1].data_start, 4);
    assert_eq!(triples[1].data_end, 5);
    assert_eq!(triples[1].addr, 16);
    assert_eq!(triples[1].page.start, 16);
    assert_eq!(triples[1].page.size, TEST_PAGE);

    // Concatenating the data ranges in yield order reproduces the request.
    let bytes = [10u8, 20, 30, 40, 50];
    let mut joined = Vec::new();
    for t in &triples {
        joined.extend_from_slice(&bytes[t.data_start..t.data_end]);
    }
    assert_eq!(joined[..], bytes[..]);
}

#[test]
fn decomposition_whole_device() {
    let triples = overlaps(0, TEST_SIZE, TEST_PAGE, TEST_SIZE);
    assert_eq!(triples.len(), 4);
    for (k, t) in triples.iter().enumerate() {
        assert_eq!(t.page.start as usize, k * TEST_PAGE);
        assert_eq!(t.addr as usize, k * TEST_PAGE);
        assert_eq!(t.data_start, k * TEST_PAGE);
        assert_eq!(t.data_end, (k + 1) * TEST_PAGE);
    }
}

#[test]
fn decomposition_empty_and_out_of_range() {
    assert_eq!(overlaps(0, 0, TEST_PAGE, TEST_SIZE).len(), 0);
    assert_eq!(overlaps(64, 8, TEST_PAGE, TEST_SIZE).len(), 0);
    // Only the part below the capacity is covered.
    let triples = overlaps(60, 8, TEST_PAGE, TEST_SIZE);
    assert_eq!(triples.len(), 1);
    assert_eq!(triples[0].data_start, 0);
    assert_eq!(triples[0].data_end, 4);
    assert_eq!(triples[0].addr, 60);
    assert_eq!(triples[0].page.start, 48);
}

#[test]
fn rmw_preserves_bytes_outside_request() {
    // The worked example: 64-byte device, 16-byte erase size, 4-byte write
    // size; write 5 bytes at offset 12, spanning pages [0, 16) and
    // [16, 32); afterwards byte 11 and bytes 17 and up retain their prior
    // contents.
    let mut flash = TestFlash::default();
    let mut prior = [0u8; TEST_SIZE];
    for (i, b) in prior.iter_mut().enumerate() {
        *b = 0x80 | (i as u8);
    }
    flash.data.copy_from_slice(&prior);

    let mut storage = RmwNorFlashStorage::new(flash, vec![0u8; TEST_PAGE]);
    let bytes = [1u8, 2, 3, 4, 5];
    assert_eq!(storage.write(12, &bytes), Ok(()));

    let mut read_back = vec![0u8; TEST_SIZE];
    assert_eq!(storage.read(0, &mut read_back), Ok(()));
    assert_eq!(read_back[12..17], bytes[..]);
    for i in (0..12).chain(17..TEST_SIZE) {
        assert_eq!(read_back[i], prior[i], "byte {} must retain its prior value", i);
    }
}

#[test]
fn alignment_rejection_leaves_device_untouched() {
    let mut flash = TestFlash::default();
    let mut prior = [0u8; TEST_SIZE];
    for (i, b) in prior.iter_mut().enumerate() {
        *b = i as u8;
    }
    flash.data.copy_from_slice(&prior);

    assert_eq!(flash.write(2, &[9u8; 4]), Err(NorFlashErrorKind::NotAligned));
    assert_eq!(flash.write(0, &[9u8; 3]), Err(NorFlashErrorKind::NotAligned));
    assert_eq!(flash.erase(1, 17), Err(NorFlashErrorKind::NotAligned));
    let mut buffer = vec![0u8; 3];
    assert_eq!(flash.read(0, &mut buffer), Err(NorFlashErrorKind::NotAligned));
    assert_eq!(buffer, vec![0u8; 3]);
    assert_eq!(flash.data[..], prior[..]);
}

#[test]
fn bounds_rejection() {
    let mut flash = TestFlash::default();
    assert_eq!(flash.write(64, &[9u8; 4]), Err(NorFlashErrorKind::OutOfBounds));
    assert_eq!(flash.write(60, &[9u8; 8]), Err(NorFlashErrorKind::OutOfBounds));
    let mut buffer = vec![0u8; 8];
    assert_eq!(flash.read(60, &mut buffer), Err(NorFlashErrorKind::OutOfBounds));
    assert_eq!(flash.erase(0, 80), Err(NorFlashErrorKind::OutOfBounds));
    // An erase whose range is reversed is out of bounds, even though both
    // ends are aligned.
    assert_eq!(flash.erase(32, 16), Err(NorFlashErrorKind::OutOfBounds));
    // A request that is both out of bounds and unaligned reports the
    // bounds error: bounds are checked first.
    assert_eq!(flash.write(63, &[9u8; 2]), Err(NorFlashErrorKind::OutOfBounds));
}

#[test]
fn validator_exact_boundaries() {
    assert_eq!(check_slice_raw(64, 4, 60, 4), Ok(()));
    assert_eq!(check_slice_raw(64, 4, 0, 64), Ok(()));
    assert_eq!(check_slice_raw(64, 4, 64, 0), Ok(()));
    assert_eq!(
        check_slice_raw(64, 4, 61, 4),
        Err(NorFlashErrorKind::OutOfBounds)
    );
    assert_eq!(
        check_slice_raw(64, 4, 2, 4),
        Err(NorFlashErrorKind::NotAligned)
    );
    assert_eq!(
        check_slice_raw(64, 4, 0, 6),
        Err(NorFlashErrorKind::NotAligned)
    );
    assert_eq!(check_erase_raw(64, 16, 16, 48), Ok(()));
    assert_eq!(check_erase_raw(64, 16, 0, 0), Ok(()));
    assert_eq!(
        check_erase_raw(64, 16, 48, 16),
        Err(NorFlashErrorKind::OutOfBounds)
    );
    assert_eq!(
        check_erase_raw(64, 16, 0, 80),
        Err(NorFlashErrorKind::OutOfBounds)
    );
    assert_eq!(
        check_erase_raw(64, 16, 8, 24),
        Err(NorFlashErrorKind::NotAligned)
    );

    let flash = TestFlash::default();
    assert_eq!(check_read(&flash, 0, 64), Ok(()));
    assert_eq!(check_read(&flash, 2, 4), Err(NorFlashErrorKind::NotAligned));
    assert_eq!(check_write(&flash, 0, 64), Ok(()));
    assert_eq!(check_write(&flash, 64, 4), Err(NorFlashErrorKind::OutOfBounds));
}

#[test]
fn multiwrite_subset_skips_erase() {
    // A page whose first word holds 0xf0 bytes: a request whose bytes AND
    // the existing contents equal the request is programmed with one write
    // and no erase; one that does not triggers exactly one erase and one
    // full-page write.
    let flash = MultiFlash::default();
    let stats = NorFlashStats::from(flash);
    let mut storage = RmwMultiwriteNorFlashStorage::new(stats, vec![0u8; TEST_PAGE]);

    // The erased page accepts anything directly.
    assert_eq!(storage.write(0, &[0xf0u8; 4]), Ok(()));
    let stats = storage.into_inner();
    assert_eq!(stats.erases, 0);
    assert_eq!(stats.writes, 1);
    assert_eq!(stats.written, 1);

    // 0x30 & 0xf0 == 0x30: still a subset, written directly without erase.
    let mut storage = RmwMultiwriteNorFlashStorage::new(stats, vec![0u8; TEST_PAGE]);
    assert_eq!(storage.write(0, &[0x30u8; 4]), Ok(()));
    let stats = storage.into_inner();
    assert_eq!(stats.erases, 0);
    assert_eq!(stats.writes, 2);
    assert_eq!(stats.written, 2);

    // 0x0f & 0x30 != 0x0f: not a subset, so the page is erased once and
    // rewritten in full.
    let mut storage = RmwMultiwriteNorFlashStorage::new(stats, vec![0u8; TEST_PAGE]);
    assert_eq!(storage.write(0, &[0x0fu8; 4]), Ok(()));
    let stats = storage.into_inner();
    assert_eq!(stats.erases, 1);
    assert_eq!(stats.erased, 1);
    assert_eq!(stats.writes, 3);
    assert_eq!(stats.written, 2 + TEST_PAGE / TEST_WORD);

    let flash = stats.into_inner();
    assert_eq!(flash.data[..4], [0x0fu8; 4]);
    assert_eq!(flash.data[4..16], [0xffu8; 12]);
}

#[test]
fn multiwrite_preserves_bytes_outside_request() {
    let flash = MultiFlash::default();
    let mut storage = RmwMultiwriteNorFlashStorage::new(flash, vec![0u8; TEST_PAGE]);
    assert_eq!(storage.write(0, &[0x55u8; 64]), Ok(()));
    // A subset request covering part of one page: programmed without
    // disturbing its neighbours.
    assert_eq!(storage.write(20, &[0x54u8, 0x15, 0x44, 0x04]), Ok(()));
    let flash = storage.into_inner();
    assert_eq!(flash.data[16..20], [0x55u8; 4]);
    assert_eq!(flash.data[20..24], [0x54u8, 0x15, 0x44, 0x04]);
    assert_eq!(flash.data[24..28], [0x55u8; 4]);
}

#[test]
fn idempotent_erase() {
    let mut flash = TestFlash::default();
    assert_eq!(flash.erase(0, TEST_PAGE as u32), Ok(()));
    assert_eq!(flash.data[..], [0xffu8; TEST_SIZE][..]);
    // Erasing a page already in its fully-erased state succeeds and leaves
    // it unchanged.
    assert_eq!(flash.erase(0, TEST_PAGE as u32), Ok(()));
    assert_eq!(flash.data[..], [0xffu8; TEST_SIZE][..]);
}

#[test]
fn round_trip_across_full_device() {
    // Starting from a fully erased device, overlapping page-straddling
    // writes of varying length cover every byte position; reading the full
    // device back reproduces exactly what a shadow copy says was written
    // last at each position.
    let flash = TestFlash::default();
    let mut storage = RmwNorFlashStorage::new(flash, vec![0u8; TEST_PAGE]);
    let mut shadow = [0xffu8; TEST_SIZE];

    let requests: [(u32, usize, u8); 5] = [
        (0, 13, 0xa0),
        (10, 22, 0xb0),
        (30, 17, 0xc0),
        (41, 23, 0xd0),
        (5, 9, 0xe0),
    ];
    for (off, len, tag) in requests {
        let data: Vec<u8> = (0..len).map(|i| tag | (i as u8 & 0x0f)).collect();
        assert_eq!(storage.write(off, &data), Ok(()));
        shadow[off as usize..off as usize + len].copy_from_slice(&data);
    }

    let mut read_back = vec![0u8; TEST_SIZE];
    assert_eq!(storage.read(0, &mut read_back), Ok(()));
    assert_eq!(read_back[..], shadow[..]);
}

#[test]
fn dirty_write_on_programmed_word() {
    let mut flash = TestFlash::default();
    assert_eq!(flash.write(0, &[1, 2, 3, 4]), Ok(()));
    // Writing the same word again without an intervening erase is refused,
    // and on a plain device the pre-erase check fires before any byte is
    // touched.
    assert_eq!(flash.write(0, &[1, 2, 3, 4]), Err(NorFlashErrorKind::DirtyWrite));
    assert_eq!(flash.data[..4], [1, 2, 3, 4][..]);
}

#[test]
fn dirty_write_partial_effect() {
    // On a multiwrite device the bytes before the failing index have
    // already been programmed (ANDed), the failing byte itself is ANDed
    // too, and everything after it stays untouched.
    let mut flash = MultiFlash::default();
    assert_eq!(flash.write(0, &[0xf0u8; 4]), Ok(()));
    assert_eq!(
        flash.write(0, &[0x30, 0x0f, 0x30, 0x30]),
        Err(NorFlashErrorKind::DirtyWrite)
    );
    assert_eq!(flash.data[..4], [0x30, 0x00, 0xf0, 0xf0][..]);
}

#[test]
fn error_kinds_and_messages() {
    assert_eq!(NorFlashErrorKind::NotAligned.kind(), NorFlashErrorKind::NotAligned);
    assert_eq!(NorFlashErrorKind::OutOfBounds.kind(), NorFlashErrorKind::OutOfBounds);
    assert_eq!(NorFlashErrorKind::DirtyWrite.kind(), NorFlashErrorKind::DirtyWrite);
    assert_eq!(NorFlashErrorKind::Other.kind(), NorFlashErrorKind::Other);
    assert_eq!(
        NorFlashErrorKind::NotAligned.message(),
        "Arguments are not properly aligned"
    );
    assert_eq!(NorFlashErrorKind::OutOfBounds.message(), "Arguments are out of bounds");
    assert_eq!(NorFlashErrorKind::DirtyWrite.message(), "Dirty write operation");
    assert_eq!(
        NorFlashErrorKind::Other.message(),
        "An implementation specific error occurred"
    );
}

#[test]
fn page_geometry() {
    let page = Page::new(2, TEST_PAGE);
    assert_eq!(page.start, 32);
    assert_eq!(page.size, TEST_PAGE);
    assert_eq!(page.end(), 48);
    assert!(page.contains(32));
    assert!(page.contains(47));
    assert!(!page.contains(48));
    assert!(!page.contains(31));
}

#[test]
fn stats_counts_reads_and_chunks() {
    let mut flash = TestFlash::default();
    for (i, b) in flash.data.iter_mut().enumerate() {
        *b = i as u8;
    }
    let mut stats = NorFlashStats::from(flash);
    let mut buffer = vec![0u8; 8];
    assert_eq!(stats.read(0, &mut buffer), Ok(()));
    assert_eq!(buffer[..], (0u8..8).collect::<Vec<u8>>()[..]);
    assert_eq!(stats.reads, 1);
    assert_eq!(stats.read, 2);
    // A rejected request counts nothing.
    assert_eq!(stats.read(2, &mut buffer), Err(NorFlashErrorKind::NotAligned));
    assert_eq!(stats.reads, 1);
    assert_eq!(stats.erase(0, 32), Ok(()));
    assert_eq!(stats.erases, 1);
    assert_eq!(stats.erased, 2);
    assert_eq!(stats.write(0, &[7u8; 8]), Ok(()));
    assert_eq!(stats.writes, 1);
    assert_eq!(stats.written, 2);
    let flash = stats.into_inner();
    assert_eq!(flash.data[..8], [7u8; 8][..]);
}

#[test]
fn capacity_passthrough() {
    let flash = TestFlash::default();
    assert_eq!(flash.capacity(), TEST_SIZE);
    assert_eq!(flash.read_size(), TEST_WORD);
    assert_eq!(flash.write_size(), TEST_WORD);
    assert_eq!(flash.erase_size(), TEST_PAGE);
    assert_eq!(flash.erase_byte(), 0xff);
    let storage = RmwNorFlashStorage::new(flash, vec![0u8; TEST_PAGE]);
    assert_eq!(storage.capacity(), TEST_SIZE);
    let flash = storage.into_inner();
    let mut multi = MultiFlash::default();
    multi.data = flash.data;
    let storage = RmwMultiwriteNorFlashStorage::new(multi, vec![0u8; TEST_PAGE]);
    assert_eq!(storage.capacity(), TEST_SIZE);
}
