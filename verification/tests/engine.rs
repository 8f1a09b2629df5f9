use wavplay::audio_buffer::pack_block;
use wavplay::audio_buffer::silence_block;
use wavplay::audio_buffer::AudioBufState;
use wavplay::audio_buffer::DbufInfo;
use wavplay::audio_buffer::SAMPLES_PER_BLOCK;
use wavplay::binary_helpers::bit_on;
use wavplay::binary_helpers::convert_to_signed;
use wavplay::BLOCK_SIZE;

fn playing_count(d: &DbufInfo) -> usize {
    d.buf_states
        .iter()
        .filter(|s| matches!(s, AudioBufState::Playing))
        .count()
}

#[test]
fn startup_has_one_playing_and_one_empty_slot() {
    let d = DbufInfo::new();
    assert!(matches!(d.buf_states[0], AudioBufState::Playing));
    assert!(matches!(d.buf_states[1], AudioBufState::Empty));
    assert_eq!(playing_count(&d), 1);
}

#[test]
fn find_buffer_returns_the_first_match() {
    let d = DbufInfo { buf_states: [AudioBufState::Filled, AudioBufState::Filled] };
    assert_eq!(d.find_buffer(AudioBufState::Filled), Some(0));
    assert_eq!(d.find_buffer(AudioBufState::Empty), None);
    let d = DbufInfo { buf_states: [AudioBufState::Playing, AudioBufState::Filled] };
    assert_eq!(d.find_buffer(AudioBufState::Filled), Some(1));
}

#[test]
fn full_slot_cycle_keeps_at_most_one_playing() {
    let mut d = DbufInfo::new();
    // Producer claims the empty slot and fills it.
    let claimed = d.producer_claim().unwrap();
    assert_eq!(claimed, 1);
    assert!(matches!(d.buf_states[1], AudioBufState::Filling));
    assert_eq!(playing_count(&d), 1);
    // No second slot is idle while one is filling.
    assert_eq!(d.producer_claim(), None);
    d.producer_publish(claimed);
    assert!(matches!(d.buf_states[1], AudioBufState::Filled));
    assert_eq!(playing_count(&d), 1);
    // Consumer promotes the filled slot and retires the other in the same
    // invocation.
    let playing = d.consumer_advance().unwrap();
    assert_eq!(playing, 1);
    assert!(matches!(d.buf_states[1], AudioBufState::Playing));
    assert!(matches!(d.buf_states[0], AudioBufState::Empty));
    assert_eq!(playing_count(&d), 1);
}

#[test]
fn underrun_leaves_both_states_unchanged() {
    let mut d = DbufInfo { buf_states: [AudioBufState::Playing, AudioBufState::Filling] };
    // No slot is Filled: the consumer selects nothing (the caller then hands
    // the silence block to the transport) and both states stay as they were.
    assert_eq!(d.consumer_advance(), None);
    assert!(matches!(d.buf_states[0], AudioBufState::Playing));
    assert!(matches!(d.buf_states[1], AudioBufState::Filling));
    let silence = silence_block();
    assert_eq!(silence.len(), SAMPLES_PER_BLOCK);
    assert!(silence.iter().all(|&s| s == 0));
}

#[test]
fn repeated_cycles_preserve_the_invariant() {
    let mut d = DbufInfo::new();
    for _ in 0..20 {
        if let Some(i) = d.producer_claim() {
            d.producer_publish(i);
        }
        assert!(playing_count(&d) <= 1);
        d.consumer_advance();
        assert!(playing_count(&d) <= 1);
    }
}

#[test]
fn pack_block_pairs_bytes_little_endian() {
    let mut bytes = [0u8; BLOCK_SIZE];
    bytes[0] = 0x34;
    bytes[1] = 0x12;
    bytes[2] = 0xFF;
    bytes[3] = 0x00;
    bytes[510] = 0x01;
    bytes[511] = 0x80;
    let packed = pack_block(&bytes);
    assert_eq!(packed.len(), SAMPLES_PER_BLOCK);
    assert_eq!(packed[0], 0x1234);
    assert_eq!(packed[1], 0x00FF);
    assert_eq!(packed[255], 0x8001);
}

#[test]
fn bit_on_checks_single_bits() {
    assert!(bit_on(0b100, 2));
    assert!(!bit_on(0b100, 1));
    assert!(bit_on(1 << 63, 63));
    assert!(!bit_on(0, 0));
    assert!(bit_on(u64::MAX, 31));
}

#[test]
fn convert_to_signed_reinterprets_the_word() {
    assert_eq!(convert_to_signed(5), 5);
    assert_eq!(convert_to_signed(0), 0);
    assert_eq!(convert_to_signed(0x7FFF_FFFF), i32::MAX);
    assert_eq!(convert_to_signed(0x8000_0000), i32::MIN);
    assert_eq!(convert_to_signed(0xFFFF_FFFF), -1);
    assert_eq!(convert_to_signed(0x8000_0001), i32::MIN + 1);
}
