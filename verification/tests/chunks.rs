use wavplay::block_device::MemBlockDevice;
use wavplay::exfat::ExFat;
use wavplay::riff::get_first_chunk;
use wavplay::wav::Format;
use wavplay::wav::WavFile;
use wavplay::BLOCK_SIZE;

fn zero_block() -> [u8; BLOCK_SIZE] {
    [0u8; BLOCK_SIZE]
}

fn boot_sector() -> [u8; BLOCK_SIZE] {
    let mut b = zero_block();
    b[3..11].copy_from_slice(b"EXFAT   ");
    b[0x058..0x05c].copy_from_slice(&4u32.to_le_bytes()); // cluster heap offset
    b[0x060..0x064].copy_from_slice(&2u32.to_le_bytes()); // root directory cluster
    b[0x06c] = 9;
    b[0x1fe] = 0x55;
    b[0x1ff] = 0xaa;
    b
}

const DATA_LENGTH: u32 = 1536;

/// First block of a small WAV file: outer RIFF header, WAVE tag, "fmt "
/// chunk at byte 12, "data" chunk at byte 36 with its payload from byte 44.
fn wav_first_block() -> [u8; BLOCK_SIZE] {
    let mut b = zero_block();
    b[0..4].copy_from_slice(b"RIFF");
    b[4..8].copy_from_slice(&(36 + DATA_LENGTH).to_le_bytes());
    b[8..12].copy_from_slice(b"WAVE");
    b[12..16].copy_from_slice(b"fmt ");
    b[16..20].copy_from_slice(&16u32.to_le_bytes());
    b[20..22].copy_from_slice(&1u16.to_le_bytes()); // PCM
    b[22..24].copy_from_slice(&2u16.to_le_bytes()); // stereo
    b[24..28].copy_from_slice(&44_100u32.to_le_bytes());
    b[28..32].copy_from_slice(&176_400u32.to_le_bytes());
    b[32..34].copy_from_slice(&4u16.to_le_bytes()); // block align
    b[34..36].copy_from_slice(&16u16.to_le_bytes()); // bits per sample
    b[36..40].copy_from_slice(b"data");
    b[40..44].copy_from_slice(&DATA_LENGTH.to_le_bytes());
    // payload pattern
    for i in 44..BLOCK_SIZE {
        b[i] = (i % 251) as u8;
    }
    b[44] = 0x01;
    b[45] = 0x80;
    b
}

/// Image: boot sector at block 0, the WAV file at cluster 4 (blocks 6..10).
fn wav_image() -> Vec<[u8; BLOCK_SIZE]> {
    let mut blocks = vec![zero_block(); 12];
    blocks[0] = boot_sector();
    blocks[6] = wav_first_block();
    for blk in 7..10 {
        let mut b = zero_block();
        for i in 0..BLOCK_SIZE {
            b[i] = ((blk * 7 + i) % 249) as u8;
        }
        blocks[blk] = b;
    }
    blocks
}

#[test]
fn chunk_walk_follows_the_advance_rules() {
    let mut fs = ExFat::new(MemBlockDevice::new(wav_image())).unwrap();
    let start = fs.calc_cluster_sector(4);
    assert_eq!(start, 6);

    // Outer "RIFF": advances by 8, its length covers the nested chunks.
    let c0 = get_first_chunk(start, &mut fs.block_device).unwrap();
    assert_eq!(&c0.identifier, b"RIFF");
    assert_eq!(c0.chunk_start, 0);
    assert_eq!(c0.next_chunk, 8);

    // Bare "WAVE" form tag: advances by 4, it has no length field.
    let c1 = c0.get_next_chunk(&mut fs.block_device, start).unwrap();
    assert_eq!(&c1.identifier, b"WAVE");
    assert_eq!(c1.chunk_start, 8);
    assert_eq!(c1.next_chunk, 12);

    // Leaf "fmt ": advances by 8 + declared length.
    let c2 = c1.get_next_chunk(&mut fs.block_device, start).unwrap();
    assert_eq!(&c2.identifier, b"fmt ");
    assert_eq!(c2.length, 16);
    assert_eq!(c2.chunk_start, 12);
    assert_eq!(c2.next_chunk, 36);

    // "data" chunk.
    let c3 = c2.get_next_chunk(&mut fs.block_device, start).unwrap();
    assert_eq!(&c3.identifier, b"data");
    assert_eq!(c3.length as u64, DATA_LENGTH as u64);
    assert_eq!(c3.chunk_start, 36);
    assert_eq!(c3.next_chunk, 36 + 8 + DATA_LENGTH as u64);
}

#[test]
fn open_wav_fills_the_format_descriptor() {
    let mut fs = ExFat::new(MemBlockDevice::new(wav_image())).unwrap();
    let mut listing_entry = wavplay::exfat::FsEntry {
        name: Vec::new(),
        file_type: wavplay::exfat::FileType::File,
        first_cluster: 4,
        valid_data_length: 0,
        data_length: 0,
    };
    listing_entry.name.push('A');
    let wav = WavFile::new(&mut fs, &listing_entry).unwrap();
    assert_eq!(wav.start_block_address, 6);
    assert!(matches!(wav.format, Format::Pcm));
    assert_eq!(wav.n_channels, 2);
    assert_eq!(wav.sample_rate, 44_100);
    assert_eq!(wav.byte_rate, 176_400);
    assert_eq!(wav.block_align, 4);
    assert_eq!(wav.bits_per_sample, 16);
    assert_eq!(wav.bytes_per_channel, 2);
    assert_eq!(wav.first_byte, 44);
    assert_eq!(wav.data_length, DATA_LENGTH);
    assert_eq!(wav.bytes_read, 0);
}

#[test]
fn open_without_data_chunk_fails() {
    let mut blocks = wav_image();
    blocks[6][36..40].copy_from_slice(b"junk");
    let mut fs = ExFat::new(MemBlockDevice::new(blocks)).unwrap();
    let entry = wavplay::exfat::FsEntry {
        name: Vec::new(),
        file_type: wavplay::exfat::FileType::File,
        first_cluster: 4,
        valid_data_length: 0,
        data_length: 0,
    };
    assert!(WavFile::new(&mut fs, &entry).is_err());
}

#[test]
fn open_without_fmt_chunk_fails() {
    let mut blocks = wav_image();
    blocks[6][12..16].copy_from_slice(b"junk");
    // keep the walk consistent: the junk chunk still declares length 16, so
    // the walk reaches "data" with no format seen
    let mut fs = ExFat::new(MemBlockDevice::new(blocks)).unwrap();
    let entry = wavplay::exfat::FsEntry {
        name: Vec::new(),
        file_type: wavplay::exfat::FileType::File,
        first_cluster: 4,
        valid_data_length: 0,
        data_length: 0,
    };
    assert!(WavFile::new(&mut fs, &entry).is_err());
}

#[test]
fn decode_format_maps_the_known_codes() {
    assert!(matches!(Format::decode_format(0x0001), Format::Pcm));
    assert!(matches!(Format::decode_format(0x0003), Format::IeeeFloat));
    assert!(matches!(Format::decode_format(0x0006), Format::Alaw));
    assert!(matches!(Format::decode_format(0x0007), Format::Mulaw));
    assert!(matches!(Format::decode_format(0x1234), Format::Other));
}

#[test]
fn open_wav_with_mulaw_code_reports_mulaw() {
    let mut blocks = wav_image();
    blocks[6][20..22].copy_from_slice(&7u16.to_le_bytes()); // mu-law format code
    let mut fs = ExFat::new(MemBlockDevice::new(blocks)).unwrap();
    let entry = wavplay::exfat::FsEntry {
        name: Vec::new(),
        file_type: wavplay::exfat::FileType::File,
        first_cluster: 4,
        valid_data_length: 0,
        data_length: 0,
    };
    let wav = WavFile::new(&mut fs, &entry).unwrap();
    assert!(matches!(wav.format, Format::Mulaw));
}

fn open_test_wav(fs: &mut ExFat<MemBlockDevice>) -> WavFile {
    let entry = wavplay::exfat::FsEntry {
        name: Vec::new(),
        file_type: wavplay::exfat::FileType::File,
        first_cluster: 4,
        valid_data_length: 0,
        data_length: 0,
    };
    WavFile::new(fs, &entry).unwrap()
}

#[test]
fn first_block_read_skips_the_header_block() {
    let image = wav_image();
    let expected_block_7 = image[7];
    let mut fs = ExFat::new(MemBlockDevice::new(image)).unwrap();
    let mut wav = open_test_wav(&mut fs);
    let mut buf = [0u8; BLOCK_SIZE];
    wav.get_next_pcm_block(&mut fs, &mut buf).unwrap();
    // The first returned block is block 7, one past the block that holds
    // the chunk headers; none of the header bytes appear.
    assert_eq!(buf, expected_block_7);
    assert_eq!(wav.bytes_read, (512 - 44) + 512);
}

#[test]
fn final_partial_block_is_never_returned() {
    let mut fs = ExFat::new(MemBlockDevice::new(wav_image())).unwrap();
    let mut wav = open_test_wav(&mut fs);
    let mut buf = [0u8; BLOCK_SIZE];
    // data_length 1536: after the alignment skip of 468 bytes, two full
    // blocks fit before the boundary; the trailing partial block does not.
    assert!(wav.get_next_pcm_block(&mut fs, &mut buf).is_ok());
    assert!(wav.get_next_pcm_block(&mut fs, &mut buf).is_ok());
    assert!(wav.get_next_pcm_block(&mut fs, &mut buf).is_err());
    // a subsequent call keeps failing and moves the cursor no further
    let before = wav.bytes_read;
    assert!(wav.get_next_pcm_block(&mut fs, &mut buf).is_err());
    assert_eq!(wav.bytes_read, before);
}

#[test]
fn buffered_samples_trim_and_decode() {
    let image = wav_image();
    let mut fs = ExFat::new(MemBlockDevice::new(image.clone())).unwrap();
    let mut wav = open_test_wav(&mut fs);
    let mut scratch: Vec<u8> = Vec::new();
    let mut out: Vec<i32> = Vec::new();
    wav.get_next_samples(&mut fs, &mut scratch, &mut out).unwrap();

    // All 1536 data bytes fit in one buffered read.
    assert_eq!(wav.bytes_read, DATA_LENGTH);
    assert_eq!(scratch.len(), DATA_LENGTH as usize);
    // The scratch holds the file bytes from the first sample byte on: no
    // chunk-header bytes.
    assert_eq!(scratch[0], 0x01);
    assert_eq!(scratch[1], 0x80);
    assert_eq!(&scratch[..468], &image[6][44..512]);
    assert_eq!(&scratch[468..980], &image[7][..]);

    // 16-bit stereo: 768 per-channel samples, each left-shifted by 16.
    assert_eq!(out.len(), 768);
    assert_eq!(out[0], -2_147_418_112); // 0x8001 << 16 as a signed word
    let v1 = u16::from_le_bytes([image[6][46], image[6][47]]) as u32;
    assert_eq!(out[1], (v1 << 16) as i32);
}

#[test]
fn buffered_samples_resume_after_a_raw_read() {
    let image = wav_image();
    let mut fs = ExFat::new(MemBlockDevice::new(image.clone())).unwrap();
    let mut wav = open_test_wav(&mut fs);
    let mut buf = [0u8; BLOCK_SIZE];
    wav.get_next_pcm_block(&mut fs, &mut buf).unwrap();
    // cursor now at 980 consumed bytes; the buffered read continues there
    let mut scratch: Vec<u8> = Vec::new();
    let mut out: Vec<i32> = Vec::new();
    wav.get_next_samples(&mut fs, &mut scratch, &mut out).unwrap();
    assert_eq!(wav.bytes_read, DATA_LENGTH);
    assert_eq!(scratch.len(), (DATA_LENGTH - 980) as usize);
    assert_eq!(out.len(), scratch.len() / 2);
}

#[test]
fn header_straddling_a_block_boundary_is_refused() {
    // A chunk whose next header would begin 6 bytes before the end of a
    // block cannot be read: the walker does not split headers across
    // blocks.
    let mut fs = ExFat::new(MemBlockDevice::new(wav_image())).unwrap();
    let straddling = wavplay::riff::ChunkInfo {
        identifier: *b"junk",
        length: 0,
        chunk_start: 0,
        next_chunk: 506,
    };
    assert!(straddling.get_next_chunk(&mut fs.block_device, 6).is_err());
    // The same header fully inside the next block is read fine.
    let aligned = wavplay::riff::ChunkInfo {
        identifier: *b"junk",
        length: 0,
        chunk_start: 0,
        next_chunk: 512,
    };
    assert!(aligned.get_next_chunk(&mut fs.block_device, 6).is_ok());
}

#[test]
fn chunk_walk_fails_on_an_unreadable_block() {
    let mut fs = ExFat::new(MemBlockDevice::new(wav_image())).unwrap();
    // block 200 is beyond the image, so the read fails
    assert!(get_first_chunk(200, &mut fs.block_device).is_err());
}
