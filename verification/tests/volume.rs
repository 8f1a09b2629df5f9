use wavplay::block_device::MemBlockDevice;
use wavplay::exfat::ExFat;
use wavplay::exfat::FsError;
use wavplay::BLOCK_SIZE;

fn zero_block() -> [u8; BLOCK_SIZE] {
    [0u8; BLOCK_SIZE]
}

fn put_u16(b: &mut [u8; BLOCK_SIZE], off: usize, v: u16) {
    b[off..off + 2].copy_from_slice(&v.to_le_bytes());
}

fn put_u32(b: &mut [u8; BLOCK_SIZE], off: usize, v: u32) {
    b[off..off + 4].copy_from_slice(&v.to_le_bytes());
}

fn put_u64(b: &mut [u8; BLOCK_SIZE], off: usize, v: u64) {
    b[off..off + 8].copy_from_slice(&v.to_le_bytes());
}

/// A boot sector with the exFAT name signature, the trailing boot signature,
/// and a fixed set of geometry fields.
fn boot_sector() -> [u8; BLOCK_SIZE] {
    let mut b = zero_block();
    b[3..11].copy_from_slice(b"EXFAT   ");
    put_u64(&mut b, 0x040, 0); // partition offset
    put_u64(&mut b, 0x048, 200_000); // volume length
    put_u32(&mut b, 0x050, 24); // fat offset
    put_u32(&mut b, 0x054, 8); // fat length
    put_u32(&mut b, 0x058, 4); // cluster heap offset
    put_u32(&mut b, 0x05c, 1000); // cluster count
    put_u32(&mut b, 0x060, 2); // first cluster of root directory
    put_u32(&mut b, 0x064, 0xDEAD_BEEF); // volume serial number
    put_u16(&mut b, 0x06a, 0x0003); // volume flags
    b[0x06c] = 9; // bytes per sector shift: 512
    b[0x06d] = 0; // sectors per cluster shift: 1
    b[0x06e] = 1; // number of fats
    b[0x06f] = 0x80; // drive select
    b[0x070] = 42; // percent in use
    b[0x1fe] = 0x55;
    b[0x1ff] = 0xaa;
    b
}

#[test]
fn open_volume_parses_every_geometry_field() {
    let mut blocks = vec![zero_block(); 8];
    blocks[0] = boot_sector();
    let fs = ExFat::new(MemBlockDevice::new(blocks)).unwrap();
    assert_eq!(fs.partition_offset, 0);
    assert_eq!(fs.volume_length, 200_000);
    assert_eq!(fs.fat_offset, 24);
    assert_eq!(fs.fat_length, 8);
    assert_eq!(fs.cluster_heap_offset, 4);
    assert_eq!(fs.cluster_count, 1000);
    assert_eq!(fs.first_cluster_of_root_directory, 2);
    assert_eq!(fs.volume_serial_number, 0xDEAD_BEEF);
    assert_eq!(fs.volume_flags, 0x0003);
    assert_eq!(fs.bytes_per_sector_shift, 9);
    assert_eq!(fs.sectors_per_cluster_shift, 0);
    assert_eq!(fs.number_of_fats, 1);
    assert_eq!(fs.drive_select, 0x80);
    assert_eq!(fs.percent_in_use, 42);
}

#[test]
fn boot_sector_found_at_candidate_32768() {
    // The signature sits only at candidate 32768; candidates 0, 65536 and
    // 2048 read as zeros.
    let mut blocks = vec![zero_block(); 65_537];
    blocks[32_768] = boot_sector();
    let fs = ExFat::new(MemBlockDevice::new(blocks)).unwrap();
    assert_eq!(fs.volume_serial_number, 0xDEAD_BEEF);
}

#[test]
fn wrong_boot_signature_is_reported() {
    let mut blocks = vec![zero_block(); 8];
    let mut b = boot_sector();
    b[0x1fe] = 0x00; // break the trailing signature
    blocks[0] = b;
    let err = match ExFat::new(MemBlockDevice::new(blocks)) {
        Err(e) => e,
        Ok(_) => panic!("expected an error"),
    };
    assert_eq!(err, FsError::InvalidBootSignature);
}

#[test]
fn no_candidate_matching_is_no_boot_sector() {
    let blocks = vec![zero_block(); 65_537];
    let err = match ExFat::new(MemBlockDevice::new(blocks)) {
        Err(e) => e,
        Ok(_) => panic!("expected an error"),
    };
    assert_eq!(err, FsError::NoBootSector);
}

#[test]
fn failed_candidate_read_is_read_fail() {
    // Candidate 0 reads zeros; the read of candidate 65536 is beyond the
    // device and fails, which aborts the search.
    let blocks = vec![zero_block(); 8];
    let err = match ExFat::new(MemBlockDevice::new(blocks)) {
        Err(e) => e,
        Ok(_) => panic!("expected an error"),
    };
    assert_eq!(err, FsError::ReadFail);
}

#[test]
fn cluster_two_maps_to_cluster_heap_start() {
    let mut blocks = vec![zero_block(); 8];
    blocks[0] = boot_sector();
    let fs = ExFat::new(MemBlockDevice::new(blocks)).unwrap();
    // partition offset 0 + cluster heap offset 4
    assert_eq!(fs.calc_cluster_sector(2), 4);
}

#[test]
fn cluster_to_sector_is_strictly_increasing() {
    let mut blocks = vec![zero_block(); 8];
    let mut b = boot_sector();
    b[0x06d] = 3; // 8 sectors per cluster
    blocks[0] = b;
    let fs = ExFat::new(MemBlockDevice::new(blocks)).unwrap();
    assert_eq!(fs.calc_cluster_sector(2), 4);
    assert_eq!(fs.calc_cluster_sector(3), 12);
    assert_eq!(fs.calc_cluster_sector(4), 20);
    let mut prev = fs.calc_cluster_sector(2);
    for c in 3..40 {
        let s = fs.calc_cluster_sector(c);
        assert!(s > prev);
        prev = s;
    }
}

#[test]
fn read_sector_maps_device_fault_to_read_fail() {
    let mut blocks = vec![zero_block(); 8];
    blocks[0] = boot_sector();
    blocks[5][17] = 99;
    let mut fs = ExFat::new(MemBlockDevice::new(blocks)).unwrap();
    assert_eq!(fs.read_sector(5).unwrap()[17], 99);
    assert_eq!(fs.read_sector(100).unwrap_err(), FsError::ReadFail);
}
