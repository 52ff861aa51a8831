use voice_assistant::convert::{convert_packet, packet_bytes, Converted, PacketLayout, SILENT};
use voice_assistant::format::{form_len, parse_mix_format, MixFormat};

fn plain(tag: u16, channels: u16, rate: u32, align: u16, width: u16) -> Vec<u8> {
    let mut v: Vec<u8> = vec![];
    v.extend(tag.to_le_bytes());
    v.extend(channels.to_le_bytes());
    v.extend(rate.to_le_bytes());
    v.extend((rate * align as u32).to_le_bytes());
    v.extend(align.to_le_bytes());
    v.extend(width.to_le_bytes());
    v
}

const FLOAT: [u8; 16] =
    [3, 0, 0, 0, 0, 0, 0x10, 0, 0x80, 0, 0, 0xaa, 0, 0x38, 0x9b, 0x71];

fn extensible(guid: [u8; 16]) -> Vec<u8> {
    let mut v: Vec<u8> = plain(0xfffe, 2, 48000, 8, 32);
    // How many bytes follow, the valid bits, and the places of the channels.
    v.extend([22, 0]);
    v.extend([32, 0]);
    v.extend([3, 0, 0, 0]);
    v.extend(guid);
    assert_eq!(v.len(), 40);
    v
}

#[test]
fn a_plain_format_is_read_field_by_field() {
    let bytes: Vec<u8> = plain(1, 2, 44100, 4, 16);
    assert_eq!(form_len(&bytes[..2]), 16);
    let format: MixFormat = parse_mix_format(&bytes);
    assert_eq!(format.wave.format_tag, 1);
    assert_eq!(format.wave.channels, 2);
    assert_eq!(format.wave.samples_per_sec, 44100);
    assert_eq!(format.wave.avg_bytes_per_sec, 176400);
    assert_eq!(format.wave.block_align, 4);
    assert_eq!(format.wave.bits_per_sample, 16);
    assert_eq!(format.bits, 16);
    assert!(!format.is_float);
}

#[test]
fn the_float_tag_means_floating_point() {
    assert!(parse_mix_format(&plain(3, 1, 16000, 4, 32)).is_float);
    assert!(!parse_mix_format(&plain(2, 1, 16000, 4, 32)).is_float);
}

#[test]
fn the_extensible_form_names_its_encoding() {
    let bytes: Vec<u8> = extensible(FLOAT);
    assert_eq!(form_len(&bytes), 40);
    let format: MixFormat = parse_mix_format(&bytes);
    assert!(format.is_float);
    assert_eq!(format.bits, 32);
    assert_eq!(format.wave.samples_per_sec, 48000);
}

#[test]
fn a_float_device_delivers_its_samples_unchanged() {
    let format: MixFormat = parse_mix_format(&extensible(FLOAT));
    let l: PacketLayout =
        layout(format.wave.channels, format.bits, format.is_float, format.wave.block_align);
    let mut data: Vec<u8> = vec![];
    for x in [0.5f32, -0.25, 1.0, 0.0] {
        data.extend(x.to_le_bytes());
    }
    assert!(matches!(
        convert_packet(&data, 2, 0, l),
        Converted::Float(samples)
            if samples == vec![0.5f32.to_bits(), (-0.25f32).to_bits(), 1.0f32.to_bits(), 0]
    ));
}

#[test]
fn other_encodings_are_not_floating_point() {
    let mut pcm: [u8; 16] = FLOAT;
    pcm[0] = 1;
    assert!(!parse_mix_format(&extensible(pcm)).is_float);
    // The identifier counts in its own place only.
    let mut moved: Vec<u8> = extensible([0; 16]);
    moved[20..36].copy_from_slice(&FLOAT);
    assert!(!parse_mix_format(&moved).is_float);
}

#[test]
fn every_byte_of_the_encoding_counts() {
    for i in 0..16usize {
        let mut guid: [u8; 16] = FLOAT;
        guid[i] ^= 1;
        assert!(!parse_mix_format(&extensible(guid)).is_float, "byte {}", i);
    }
}

fn layout(channels: u16, width: u16, is_float: bool, block_align: u16) -> PacketLayout {
    PacketLayout { channels, bits: width, is_float, block_align }
}

#[test]
fn a_silent_packet_is_silence_whatever_it_holds() {
    let l: PacketLayout = layout(2, 16, false, 4);
    assert_eq!(packet_bytes(l, 3, SILENT), Some(0));
    assert!(matches!(convert_packet(&[], 3, SILENT | 1, l), Converted::Silence(6)));
    assert!(matches!(convert_packet(&[1, 2, 3, 4], 1, 1, l), Converted::Scaled { .. }));
}

#[test]
fn samples_of_two_bytes_are_signed() {
    let l: PacketLayout = layout(2, 16, false, 4);
    assert_eq!(packet_bytes(l, 2, 0), Some(8));
    let data: [u8; 8] = [0x00, 0x80, 0xff, 0x7f, 0xff, 0xff, 0x01, 0x00];
    assert!(matches!(
        convert_packet(&data, 2, 0, l),
        Converted::Scaled { samples, full_scale: 32768 } if samples == vec![-32768, 32767, -1, 1]
    ));
}

#[test]
fn samples_of_three_bytes_are_signed() {
    let l: PacketLayout = layout(1, 24, false, 3);
    assert_eq!(packet_bytes(l, 4, 0), Some(12));
    let data: [u8; 12] = [0, 0, 0x80, 0xff, 0xff, 0x7f, 0xff, 0xff, 0xff, 0x56, 0x34, 0x12];
    assert!(matches!(
        convert_packet(&data, 4, 0, l),
        Converted::Scaled { samples, full_scale: 8388608 }
            if samples == vec![-8388608, 8388607, -1, 0x123456]
    ));
}

#[test]
fn samples_of_three_bytes_stop_where_the_packet_does() {
    // Two frames of four bytes hold two whole samples, not four.
    let l: PacketLayout = layout(2, 24, false, 4);
    assert_eq!(packet_bytes(l, 2, 0), Some(6));
    assert!(matches!(
        convert_packet(&[1, 0, 0, 2, 0, 0, 3, 0], 2, 0, l),
        Converted::Scaled { samples, .. } if samples == vec![1, 2]
    ));
}

#[test]
fn samples_of_four_bytes_are_signed() {
    let l: PacketLayout = layout(1, 32, false, 4);
    let data: [u8; 12] = [0, 0, 0, 0x80, 0xff, 0xff, 0xff, 0x7f, 0xfe, 0xff, 0xff, 0xff];
    assert_eq!(packet_bytes(l, 3, 0), Some(12));
    assert!(matches!(
        convert_packet(&data, 3, 0, l),
        Converted::Scaled { samples, full_scale: 2147483648 }
            if samples == vec![i32::MIN, i32::MAX, -2]
    ));
}

#[test]
fn floating_point_samples_are_taken_over() {
    let l: PacketLayout = layout(2, 32, true, 8);
    let mut data: Vec<u8> = vec![];
    for x in [0.25f32, -1.0, 0.0, 3.5] {
        data.extend(x.to_le_bytes());
    }
    assert_eq!(packet_bytes(l, 2, 0), Some(16));
    assert!(matches!(
        convert_packet(&data, 2, 0, l),
        Converted::Float(samples)
            if samples == vec![0.25f32.to_bits(), (-1.0f32).to_bits(), 0, 3.5f32.to_bits()]
    ));
}

#[test]
fn unknown_encodings_are_taken_for_silence() {
    for (width, is_float) in [(8u16, false), (16, true), (24, true), (64, true), (0, false)] {
        let l: PacketLayout = layout(2, width, is_float, 4);
        assert_eq!(packet_bytes(l, 5, 0), Some(0));
        assert!(matches!(convert_packet(&[], 5, 0, l), Converted::Unsupported(10)));
    }
}

#[test]
fn a_device_without_channels_delivers_nothing() {
    let l: PacketLayout = layout(0, 16, false, 0);
    assert_eq!(packet_bytes(l, 5, 0), Some(0));
    assert!(matches!(
        convert_packet(&[], 5, 0, l),
        Converted::Scaled { samples, .. } if samples.is_empty()
    ));
}
