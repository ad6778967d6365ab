use aes67_vsc::format::{
    AudioFormat, BufferFormat, FrameFormat, SampleFormat, SampleMetadata, SampleRatio, SampleReader,
};

#[test]
fn test_u8_is_consumed() {
    let byte = 0b10001010u8;
    assert!(
        byte.is_consumed(),
        "Expected is_consumed to be true when most significant bit is 1."
    );

    let byte = 0b00101001u8;
    assert!(
        !byte.is_consumed(),
        "Expected is_consumed to be false when most significant bit is 0."
    );
}

#[test]
fn test_u8_set_consumed() {
    let mut byte = 0b11100100u8;
    byte.set_consumed(false);
    assert!(
        !byte.is_consumed(),
        "Expected is_consumed to be false after setting it to false."
    );

    byte.set_consumed(true);
    assert!(
        byte.is_consumed(),
        "Expected is_consumed to be true after setting it to true."
    );
}

#[test]
fn test_u8_get_format() {
    let byte = 0b01110010u8;
    assert_eq!(
        byte.get_format(),
        SampleFormat::L16,
        "Expected format to be L16 when second most significant bit is 1."
    );

    let byte = 0b00110010u8;
    assert_eq!(
        byte.get_format(),
        SampleFormat::L24,
        "Expected format to be L24 when second most significant bit is 0."
    );
}

#[test]
fn test_u8_set_format() {
    let mut byte = 0b0000000u8;
    byte.set_format(SampleFormat::L16);
    assert_eq!(
        byte.get_format(),
        SampleFormat::L16,
        "Expected format to be L16 after setting it to L16."
    );

    byte.set_format(SampleFormat::L24);
    assert_eq!(
        byte.get_format(),
        SampleFormat::L24,
        "Expected format to be L24 after setting it to L24."
    );
}

#[test]
fn test_u8_is_muted() {
    let byte = 0b11110010u8;
    assert!(
        byte.is_muted(),
        "Expected is_muted to be true when third most significant bit is 1."
    );

    let byte = 0b11000100u8;
    assert!(
        !byte.is_muted(),
        "Expected is_muted to be false when third most significant bit is 0."
    );
}

#[test]
fn test_u8_set_muted() {
    let mut byte = 0b01010100u8;
    byte.set_muted(true);
    assert!(
        byte.is_muted(),
        "Expected is_muted to be true after setting it to true."
    );

    byte.set_muted(false);
    assert!(
        !byte.is_muted(),
        "Expected is_muted to be false after setting it to false."
    );
}

#[test]
fn test_u8_is_phase_inverted() {
    let byte = 0b11010100u8;
    assert!(
        byte.is_phase_inverted(),
        "Expected is_phase_inverted to be true when fourth most significant bit is 1."
    );

    let byte = 0b10100101u8;
    assert!(
        !byte.is_phase_inverted(),
        "Expected is_phase_inverted to be false when fourth most significant bit is 0."
    );
}

#[test]
fn test_u8_set_phase_inverted() {
    let mut byte = 0b10100101u8;
    byte.set_phase_inverted(true);
    assert!(
        byte.is_phase_inverted(),
        "Expected is_phase_inverted to be true after setting it to true."
    );

    byte.set_phase_inverted(false);
    assert!(
        !byte.is_phase_inverted(),
        "Expected is_phase_inverted to be false after setting it to false."
    );
}

#[test]
fn test_sample_reader_default_values() {
    let mut target = [4, 4, 4, 4];

    let src = [1, 2, 3];
    SampleFormat::to_internal_format(&src, &mut target);
    assert!(!target[0].is_consumed());
    assert_eq!(target[0].get_format(), SampleFormat::L24);
    assert!(!target[0].is_muted());
    assert!(!target[0].is_phase_inverted());

    let src = [1, 2];
    SampleFormat::to_internal_format(&src, &mut target);
    assert!(!target[0].is_consumed());
    assert_eq!(target[0].get_format(), SampleFormat::L16);
    assert!(!target[0].is_muted());
    assert!(!target[0].is_phase_inverted());
}

#[test]
fn internal_format_keeps_the_value_of_a_sample() {
    let mut slot = [0xffu8; 4];
    SampleFormat::to_internal_format(&[0x80, 0x00, 0x00], &mut slot);
    assert_eq!(slot, [0x00, 0x80, 0x00, 0x00]);
    assert_eq!(SampleFormat::Internal.read_i32(&slot), Some(-8388608));
    assert_eq!(SampleFormat::L24.read_i32(&[0x80, 0x00, 0x00]), Some(-8388608));

    SampleFormat::to_internal_format(&[0xff, 0xfe], &mut slot);
    assert_eq!(slot, [0x40, 0x80, 0xff, 0xfe]);
    assert_eq!(SampleFormat::Internal.read_i32(&slot), Some(-2));
    assert_eq!(SampleFormat::L16.read_i32(&[0xff, 0xfe]), Some(-2));
}

#[test]
fn ratios_are_symmetric() {
    assert_eq!(
        SampleFormat::L16.read_ratio(&[0x80, 0x00]),
        Some(SampleRatio { numerator: -32767, denominator: 32767 })
    );
    assert_eq!(
        SampleFormat::L16.read_ratio(&[0x7f, 0xff]),
        Some(SampleRatio { numerator: 32767, denominator: 32767 })
    );
    assert_eq!(
        SampleFormat::L24.read_ratio(&[0x80, 0x00, 0x00]),
        Some(SampleRatio { numerator: -8388607, denominator: 8388607 })
    );
    assert_eq!(
        SampleFormat::L24.read_ratio(&[0x00, 0x00, 0x01]),
        Some(SampleRatio { numerator: 1, denominator: 8388607 })
    );
}

#[test]
fn consumed_samples_are_not_read_and_muted_ones_are_silent() {
    let consumed = [0x80u8, 1, 2, 3];
    let value: Option<i32> = SampleFormat::Internal.read_sample(&consumed);
    assert_eq!(value, None);
    let muted = [0x20u8, 1, 2, 3];
    let value: Option<i32> = SampleFormat::Internal.read_sample(&muted);
    assert_eq!(value, Some(0));
    let plain = [0x00u8, 1, 2, 3];
    let value: Option<i32> = SampleFormat::Internal.read_sample(&plain);
    assert_eq!(value, Some(0x010203));
    let short = [0x40u8, 1, 2, 3];
    let value: Option<i32> = SampleFormat::Internal.read_sample(&short);
    assert_eq!(value, Some(0x0203));
}

#[test]
fn flags_do_not_touch_each_other() {
    let mut byte = 0u8;
    byte.set_consumed(true);
    byte.set_muted(true);
    byte.set_phase_inverted(true);
    byte.set_disabled(true);
    byte.set_format(SampleFormat::L16);
    assert_eq!(byte, 0b11111000);
    byte.set_muted(false);
    assert_eq!(byte, 0b11011000);
    assert!(byte.is_disabled());
    byte.set_disabled(false);
    assert_eq!(byte, 0b11010000);
}

#[test]
fn sample_formats_have_names_and_widths() {
    assert_eq!(SampleFormat::from_str("L24").unwrap(), SampleFormat::L24);
    assert!(SampleFormat::from_str("L16").is_err());
    assert_eq!(SampleFormat::L16.bytes_per_sample(), 2);
    assert_eq!(SampleFormat::L24.bytes_per_sample(), 3);
    assert_eq!(SampleFormat::Internal.bytes_per_sample(), 4);
}

#[test]
fn buffer_sizes_follow_from_formats() {
    let frame_format = FrameFormat { channels: 2, sample_format: SampleFormat::Internal };
    let audio_format = AudioFormat { sample_rate: 48000, frame_format };
    assert_eq!(frame_format.bytes_per_frame(), 8);
    assert_eq!(frame_format.samples_per_frame(), 2);
    assert_eq!(frame_format.sample_index_in_buffer_frame(1), 4);
    assert_eq!(audio_format.samples_per_link_offset_buffer(192), 384);
    assert_eq!(audio_format.bytes_per_buffer(192), 1536);
    let format = BufferFormat::for_rtp_playout_buffer(768, audio_format);
    assert_eq!(format.buffer_len, 6144);
    assert_eq!(format.frames_per_buffer(), 768);
    assert_eq!(format.bytes_per_buffer(), 6144);
    let odd = BufferFormat { buffer_len: 6147, audio_format };
    assert_eq!(odd.frames_per_buffer(), 768);
    assert_eq!(odd.bytes_per_buffer(), 6144);
}
