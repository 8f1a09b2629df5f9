use wavplay::block_device::MemBlockDevice;
use wavplay::exfat::ExFat;
use wavplay::exfat::FileType;
use wavplay::exfat::FsError;
use wavplay::BLOCK_SIZE;

fn zero_block() -> [u8; BLOCK_SIZE] {
    [0u8; BLOCK_SIZE]
}

fn boot_sector() -> [u8; BLOCK_SIZE] {
    let mut b = zero_block();
    b[3..11].copy_from_slice(b"EXFAT   ");
    b[0x058..0x05c].copy_from_slice(&4u32.to_le_bytes()); // cluster heap offset
    b[0x060..0x064].copy_from_slice(&2u32.to_le_bytes()); // root directory cluster
    b[0x06c] = 9; // 512-byte sectors
    b[0x1fe] = 0x55;
    b[0x1ff] = 0xaa;
    b
}

fn primary_entry(secondary_count: u8, attributes: u16) -> [u8; 32] {
    let mut e = [0u8; 32];
    e[0] = 0x85;
    e[1] = secondary_count;
    e[4..6].copy_from_slice(&attributes.to_le_bytes());
    e
}

fn stream_entry(first_cluster: u32, valid_data_length: u64, data_length: u64) -> [u8; 32] {
    let mut e = [0u8; 32];
    e[0] = 0xC0;
    e[8..16].copy_from_slice(&valid_data_length.to_le_bytes());
    e[20..24].copy_from_slice(&first_cluster.to_le_bytes());
    e[24..32].copy_from_slice(&data_length.to_le_bytes());
    e
}

fn name_entry(units: &[u16]) -> [u8; 32] {
    assert!(units.len() <= 15);
    let mut e = [0u8; 32];
    e[0] = 0xC1;
    for (i, u) in units.iter().enumerate() {
        e[2 + 2 * i..4 + 2 * i].copy_from_slice(&u.to_le_bytes());
    }
    e
}

fn ascii_units(s: &str) -> Vec<u16> {
    s.chars().map(|c| c as u16).collect()
}

fn set_entry(block: &mut [u8; BLOCK_SIZE], idx: usize, entry: [u8; 32]) {
    block[32 * idx..32 * idx + 32].copy_from_slice(&entry);
}

fn name_of(e: &wavplay::exfat::FsEntry) -> String {
    e.name.iter().collect()
}

#[test]
fn listing_yields_the_file_record() {
    let mut blocks = vec![zero_block(); 8];
    blocks[0] = boot_sector();
    let mut dir = zero_block();
    set_entry(&mut dir, 0, primary_entry(2, 0));
    set_entry(&mut dir, 1, stream_entry(4, 1000, 1580));
    set_entry(&mut dir, 2, name_entry(&ascii_units("HELLO.WAV")));
    blocks[4] = dir;
    let mut fs = ExFat::new(MemBlockDevice::new(blocks)).unwrap();
    let listing = fs.list_directory(fs.first_cluster_of_root_directory).unwrap();
    assert_eq!(listing.len(), 1);
    let rec = &listing[0];
    assert_eq!(name_of(rec), "HELLO.WAV");
    assert_eq!(rec.first_cluster, 4);
    assert_eq!(rec.valid_data_length, 1000);
    assert_eq!(rec.data_length, 1580);
    assert!(matches!(rec.file_type, FileType::File));
}

#[test]
fn directory_attribute_bit_marks_a_folder() {
    let mut blocks = vec![zero_block(); 8];
    blocks[0] = boot_sector();
    let mut dir = zero_block();
    set_entry(&mut dir, 0, primary_entry(2, 0x0010));
    set_entry(&mut dir, 1, stream_entry(7, 0, 0));
    set_entry(&mut dir, 2, name_entry(&ascii_units("MUSIC")));
    blocks[4] = dir;
    let mut fs = ExFat::new(MemBlockDevice::new(blocks)).unwrap();
    let listing = fs.list_directory(2).unwrap();
    assert_eq!(listing.len(), 1);
    assert!(matches!(listing[0].file_type, FileType::Directory));
    assert_eq!(name_of(&listing[0]), "MUSIC");
}

#[test]
fn boundary_crossing_lookahead_is_lossless() {
    // Variant A: the primary entry is the last of its sector, so both
    // secondary entries lie in the following sector.
    let mut blocks_a = vec![zero_block(); 8];
    blocks_a[0] = boot_sector();
    let mut dir0 = zero_block();
    for i in 0..15 {
        let mut filler = [0u8; 32];
        filler[0] = 0x81; // allocation-bitmap entry, skipped
        set_entry(&mut dir0, i, filler);
    }
    set_entry(&mut dir0, 15, primary_entry(2, 0));
    let mut dir1 = zero_block();
    set_entry(&mut dir1, 0, stream_entry(9, 123, 456));
    set_entry(&mut dir1, 1, name_entry(&ascii_units("CROSSING")));
    blocks_a[4] = dir0;
    blocks_a[5] = dir1;
    let mut fs_a = ExFat::new(MemBlockDevice::new(blocks_a)).unwrap();
    let listing_a = fs_a.list_directory(2).unwrap();

    // Variant B: the same group sits entirely within one sector.
    let mut blocks_b = vec![zero_block(); 8];
    blocks_b[0] = boot_sector();
    let mut dir = zero_block();
    set_entry(&mut dir, 0, primary_entry(2, 0));
    set_entry(&mut dir, 1, stream_entry(9, 123, 456));
    set_entry(&mut dir, 2, name_entry(&ascii_units("CROSSING")));
    blocks_b[4] = dir;
    let mut fs_b = ExFat::new(MemBlockDevice::new(blocks_b)).unwrap();
    let listing_b = fs_b.list_directory(2).unwrap();

    assert_eq!(listing_a.len(), 1);
    assert_eq!(listing_b.len(), 1);
    let (a, b) = (&listing_a[0], &listing_b[0]);
    assert_eq!(name_of(a), name_of(b));
    assert_eq!(a.first_cluster, b.first_cluster);
    assert_eq!(a.valid_data_length, b.valid_data_length);
    assert_eq!(a.data_length, b.data_length);
    assert_eq!(name_of(a), "CROSSING");
}

#[test]
fn surrogate_pair_in_name_decodes() {
    let mut blocks = vec![zero_block(); 8];
    blocks[0] = boot_sector();
    let mut dir = zero_block();
    set_entry(&mut dir, 0, primary_entry(2, 0));
    set_entry(&mut dir, 1, stream_entry(3, 1, 1));
    set_entry(&mut dir, 2, name_entry(&[0xD83D, 0xDE00])); // U+1F600
    blocks[4] = dir;
    let mut fs = ExFat::new(MemBlockDevice::new(blocks)).unwrap();
    let listing = fs.list_directory(2).unwrap();
    assert_eq!(name_of(&listing[0]), "\u{1F600}");
}

#[test]
fn lone_surrogate_fails_the_whole_listing() {
    let mut blocks = vec![zero_block(); 8];
    blocks[0] = boot_sector();
    let mut dir = zero_block();
    set_entry(&mut dir, 0, primary_entry(2, 0));
    set_entry(&mut dir, 1, stream_entry(3, 1, 1));
    set_entry(&mut dir, 2, name_entry(&[0x0041, 0xD800]));
    blocks[4] = dir;
    let mut fs = ExFat::new(MemBlockDevice::new(blocks)).unwrap();
    let err = fs.list_directory(2).unwrap_err();
    assert_eq!(err, FsError::ErrorDecodingName);
}

#[test]
fn zero_units_are_padding_and_dropped() {
    let mut blocks = vec![zero_block(); 8];
    blocks[0] = boot_sector();
    let mut dir = zero_block();
    set_entry(&mut dir, 0, primary_entry(2, 0));
    set_entry(&mut dir, 1, stream_entry(3, 1, 1));
    set_entry(&mut dir, 2, name_entry(&[0x0041, 0x0000, 0x0042]));
    blocks[4] = dir;
    let mut fs = ExFat::new(MemBlockDevice::new(blocks)).unwrap();
    let listing = fs.list_directory(2).unwrap();
    let name = name_of(&listing[0]);
    assert_eq!(name, "AB");
    assert!(!name.contains('\u{0}'));
}

#[test]
fn name_exceeding_bound_fails_the_listing() {
    // 18 fragments of 15 characters each: 270 encoded bytes, past the
    // 255-byte bound.
    let mut blocks = vec![zero_block(); 8];
    blocks[0] = boot_sector();
    let mut dir0 = zero_block();
    set_entry(&mut dir0, 0, primary_entry(19, 0));
    set_entry(&mut dir0, 1, stream_entry(3, 1, 1));
    for i in 2..16 {
        set_entry(&mut dir0, i, name_entry(&ascii_units("ABCDEFGHIJKLMNO")));
    }
    let mut dir1 = zero_block();
    for i in 0..4 {
        set_entry(&mut dir1, i, name_entry(&ascii_units("ABCDEFGHIJKLMNO")));
    }
    blocks[4] = dir0;
    blocks[5] = dir1;
    let mut fs = ExFat::new(MemBlockDevice::new(blocks)).unwrap();
    let err = fs.list_directory(2).unwrap_err();
    assert_eq!(err, FsError::ErrorDecodingName);
}

#[test]
fn name_at_the_bound_is_accepted() {
    // 17 fragments: 255 characters exactly.
    let mut blocks = vec![zero_block(); 8];
    blocks[0] = boot_sector();
    let mut dir0 = zero_block();
    set_entry(&mut dir0, 0, primary_entry(18, 0));
    set_entry(&mut dir0, 1, stream_entry(3, 1, 1));
    for i in 2..16 {
        set_entry(&mut dir0, i, name_entry(&ascii_units("ABCDEFGHIJKLMNO")));
    }
    let mut dir1 = zero_block();
    for i in 0..3 {
        set_entry(&mut dir1, i, name_entry(&ascii_units("ABCDEFGHIJKLMNO")));
    }
    blocks[4] = dir0;
    blocks[5] = dir1;
    let mut fs = ExFat::new(MemBlockDevice::new(blocks)).unwrap();
    let listing = fs.list_directory(2).unwrap();
    assert_eq!(listing[0].name.len(), 255);
}

#[test]
fn long_directory_is_truncated_at_the_cap() {
    // 240 primary entries across 15 sectors; the cap is 205 records.
    let mut blocks = vec![zero_block(); 24];
    blocks[0] = boot_sector();
    for s in 0..15 {
        let mut dir = zero_block();
        for i in 0..16 {
            set_entry(&mut dir, i, primary_entry(0, 0));
        }
        blocks[4 + s] = dir;
    }
    blocks[19] = zero_block(); // terminator sector
    let mut fs = ExFat::new(MemBlockDevice::new(blocks)).unwrap();
    let listing = fs.list_directory(2).unwrap();
    assert_eq!(listing.len(), 205);
}

#[test]
fn empty_directory_lists_nothing() {
    let mut blocks = vec![zero_block(); 8];
    blocks[0] = boot_sector();
    let mut fs = ExFat::new(MemBlockDevice::new(blocks)).unwrap();
    let listing = fs.list_directory(2).unwrap();
    assert!(listing.is_empty());
}
