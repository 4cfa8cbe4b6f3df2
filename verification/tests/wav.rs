use creek::wav::bit_depth::BitDepth;
use creek::wav::encoder_state::WavEncoderState;
use creek::wav::error::{WavFatalError, WavOpenError};
use creek::wav::header::Header;
use creek::wav::wav_bit_depth::{Int16, Int24, Uint8, WavBitDepth};
use creek::wav::{Format, FormatType};
use creek::write::{num_files_to_file_name_extension, WriteStatus};

fn le32(b: &[u8], at: usize) -> u32 {
    u32::from_le_bytes([b[at], b[at + 1], b[at + 2], b[at + 3]])
}

#[test]
fn format_sizes() {
    assert_eq!(Format::Uint8.bits_per_sample(), 8);
    assert_eq!(Format::Int16.bits_per_sample(), 16);
    assert_eq!(Format::Int24.bits_per_sample(), 24);
    assert_eq!(Format::Float32.bits_per_sample(), 32);
    assert_eq!(Format::Float64.bits_per_sample(), 64);
    assert_eq!(Format::Uint8.bytes_per_sample(), 1);
    assert_eq!(Format::Int16.bytes_per_sample(), 2);
    assert_eq!(Format::Int24.bytes_per_sample(), 3);
    assert_eq!(Format::Float32.bytes_per_sample(), 4);
    assert_eq!(Format::Float64.bytes_per_sample(), 8);
    assert_eq!(Format::Int24.format_type(), FormatType::Pcm);
    assert_eq!(Format::Float64.format_type(), FormatType::Float);
}

#[test]
fn pcm_header_bytes() {
    let h = Header::new(2, 44100, Format::Int16);
    let expected: Vec<u8> = vec![
        b'R', b'I', b'F', b'F', 36, 0, 0, 0, b'W', b'A', b'V', b'E', b'f', b'm', b't', b' ', 16, 0, 0, 0,
        1, 0, 2, 0, 0x44, 0xAC, 0, 0, 0x10, 0xB1, 0x02, 0x00, 4, 0, 16, 0, b'd', b'a', b't', b'a', 0,
        0, 0, 0,
    ];
    assert_eq!(h.buffer(), &expected[..]);
    assert_eq!(h.max_data_bytes(), u32::MAX - 36);
}

#[test]
fn float_header_bytes() {
    let mut h = Header::new(1, 48000, Format::Float32);
    let b = h.buffer();
    assert_eq!(b.len(), 58);
    assert_eq!(le32(b, 4), 50);
    assert_eq!(le32(b, 16), 18);
    assert_eq!(&b[20..22], &[3, 0]);
    assert_eq!(&b[36..38], &[0, 0]);
    assert_eq!(&b[38..42], b"fact");
    assert_eq!(le32(b, 42), 4);
    assert_eq!(le32(b, 46), 0);
    assert_eq!(&b[50..54], b"data");
    assert_eq!(h.max_data_bytes(), u32::MAX - 50);
    h.set_num_frames(10);
    let b = h.buffer();
    assert_eq!(le32(b, 4), 50 + 40);
    assert_eq!(le32(b, 46), 10);
    assert_eq!(le32(b, 54), 40);
}

#[test]
fn header_sizes_read_back() {
    let mut h = Header::new(2, 44100, Format::Int16);
    h.set_num_frames(3);
    assert_eq!(le32(h.buffer(), 4), 36 + 12);
    assert_eq!(le32(h.buffer(), 40), 12);
    // The last write wins.
    h.set_num_frames(1000);
    h.set_num_frames(5);
    assert_eq!(le32(h.buffer(), 4), 36 + 20);
    assert_eq!(le32(h.buffer(), 40), 20);
}

#[test]
fn odd_data_is_padded() {
    let mut h = Header::new(1, 8000, Format::Uint8);
    h.set_num_frames(3);
    assert_eq!(le32(h.buffer(), 40), 4);
    assert_eq!(le32(h.buffer(), 4), 40);
    let mut h = Header::new(1, 8000, Format::Int24);
    h.set_num_frames(1);
    assert_eq!(le32(h.buffer(), 40), 4);
}

#[test]
fn encoder_state_new() {
    let s = WavEncoderState::<i16>::new(2, 44100, Format::Int16, 4).unwrap();
    assert_eq!(s.num_files(), 1);
    assert_eq!(s.header(), Header::new(2, 44100, Format::Int16).buffer());
}

#[test]
fn encoder_state_accepts_no_channels() {
    let mut s = WavEncoderState::<i16>::new(0, 44100, Format::Int16, 4).unwrap();
    assert_eq!(s.header(), Header::new(0, 44100, Format::Int16).buffer());
    assert!(s.can_record(4));
    assert_eq!(s.record_frames(4), (0, false));
    assert!(matches!(s.after_block(false), Ok(WriteStatus::WrittenOk)));
}

#[test]
fn encoder_state_refuses_parameters() {
    let r = WavEncoderState::<i16>::new(2, u32::MAX, Format::Int16, 4);
    assert!(matches!(r, Err(WavOpenError::CodecParamsNotSupported { num_channels: 2, .. })));
    let r = WavEncoderState::<u8>::new(1, 44100, Format::Uint8, 4_294_967_258);
    assert!(r.is_ok());
}

#[test]
fn encoder_state_accepts_blocks_larger_than_a_file() {
    // A block larger than a file is accepted: each block then starts a new
    // file, and the header refuses only frames it cannot state.
    let mut s = WavEncoderState::<u8>::new(1, 44100, Format::Uint8, 4_294_967_259).unwrap();
    assert!(s.is_full());
    assert!(s.can_record(10));
    assert!(!s.can_record(4_294_967_259));
    let (bytes, full) = s.record_frames(10);
    assert_eq!(bytes, 10);
    assert!(full);
}

#[test]
fn encoder_state_counts_frames() {
    let mut s = WavEncoderState::<i16>::new(2, 44100, Format::Int16, 4).unwrap();
    let (bytes, full) = s.record_frames(4);
    assert_eq!(bytes, 16);
    assert!(!full);
    let (bytes, full) = s.record_frames(3);
    assert_eq!(bytes, 28);
    assert!(!full);
    assert_eq!(le32(s.header(), 40), 28);
    s.finish();
    assert_eq!(s.num_files(), 0);
    assert_eq!(le32(s.header(), 40), 28);
}

#[test]
fn encoder_state_rolls_over_to_new_file() {
    // A block fills almost a whole file, so one more frame makes it full.
    let mut s = WavEncoderState::<u8>::new(1, 44100, Format::Uint8, 4_294_967_258).unwrap();
    let (bytes, full) = s.record_frames(1);
    assert_eq!(bytes, 1);
    assert!(full);
    assert_eq!(s.next_file().unwrap(), 2);
    s.start_new_file();
    assert_eq!(le32(s.header(), 40), 0);
    assert_eq!(s.extra_file_extensions(), vec!["_001".to_string()]);
    assert_eq!(s.next_file().unwrap(), 3);
    assert_eq!(s.extra_file_extensions(), vec!["_001".to_string(), "_002".to_string()]);
    s.restart();
    assert_eq!(s.num_files(), 1);
    assert!(s.extra_file_extensions().is_empty());
    s.discard();
    assert_eq!(s.num_files(), 0);
}

#[test]
fn encoder_state_after_full_block_starts_new_file() {
    let mut s = WavEncoderState::<u8>::new(1, 44100, Format::Uint8, 4_294_967_258).unwrap();
    let (_, full) = s.record_frames(1);
    assert!(full);
    assert!(matches!(s.after_block(true), Ok(WriteStatus::ReachedMaxSize { num_files: 2 })));
    assert_eq!(s.num_files(), 2);
    assert_eq!(le32(s.header(), 40), 0);
}

#[test]
fn encoder_state_after_block_not_full_keeps_file() {
    let mut s = WavEncoderState::<i16>::new(2, 44100, Format::Int16, 4).unwrap();
    let (_, full) = s.record_frames(3);
    assert!(!full);
    assert!(matches!(s.after_block(full), Ok(WriteStatus::WrittenOk)));
    assert_eq!(s.num_files(), 1);
    assert_eq!(le32(s.header(), 40), 12);
}

#[test]
fn reached_max_size_error_kind() {
    let e = WavFatalError::ReachedMaxSize;
    assert!(matches!(e, WavFatalError::ReachedMaxSize));
    let e: WavFatalError = std::io::Error::new(std::io::ErrorKind::Other, "x").into();
    assert!(matches!(e, WavFatalError::Io(_)));
    let e: WavOpenError = std::io::Error::new(std::io::ErrorKind::Other, "x").into();
    assert!(matches!(e, WavOpenError::Io(_)));
}

#[test]
fn sample_bytes() {
    let mut u = Uint8::new(4, 1);
    assert_eq!(u.as_bytes(&[1, 2, 255]), &[1, 2, 255]);
    assert_eq!(Uint8::format(), Format::Uint8);
    let mut i = Int16::new(4, 1);
    assert_eq!(i.as_bytes(&[1, -2, 0x1234]), &[1, 0, 0xfe, 0xff, 0x34, 0x12]);
    assert_eq!(Int16::format(), Format::Int16);
    let mut t = Int24::new(4, 2);
    assert_eq!(t.as_bytes(&[0x123456, -1, 0]), &[0x56, 0x34, 0x12, 0xff, 0xff, 0xff, 0, 0, 0]);
    assert_eq!(t.as_bytes(&[7]), &[7, 0, 0]);
    assert_eq!(Int24::format(), Format::Int24);
}

#[test]
fn bit_depth_conversions() {
    let b = BitDepth::from(vec![1u8, 2]);
    assert_eq!(b, BitDepth::Uint8(vec![1, 2]));
    assert_eq!(Vec::<u8>::try_from(b.clone()).unwrap(), vec![1, 2]);
    assert_eq!(Vec::<i16>::try_from(b.clone()), Err("Bit-depth is not 16"));
    assert_eq!(Vec::<i32>::try_from(b), Err("Bit-depth is not 24"));
    let b = BitDepth::from(vec![-3i16]);
    assert_eq!(Vec::<i16>::try_from(b.clone()).unwrap(), vec![-3]);
    assert_eq!(Vec::<u8>::try_from(b), Err("Bit-depth is not 8"));
    let b = BitDepth::from(vec![9i32]);
    assert_eq!(Vec::<i32>::try_from(b).unwrap(), vec![9]);
    assert_eq!(BitDepth::default(), BitDepth::Empty);
}

#[test]
fn file_name_extensions() {
    assert_eq!(num_files_to_file_name_extension(0), "");
    assert_eq!(num_files_to_file_name_extension(1), "");
    assert_eq!(num_files_to_file_name_extension(2), "_001");
    assert_eq!(num_files_to_file_name_extension(10), "_009");
    assert_eq!(num_files_to_file_name_extension(11), "_010");
    assert_eq!(num_files_to_file_name_extension(100), "_099");
    assert_eq!(num_files_to_file_name_extension(101), "_100");
    assert_eq!(num_files_to_file_name_extension(1001), "_1000");
    assert_eq!(num_files_to_file_name_extension(u32::MAX), "_4294967294");
}

#[test]
fn extension_format_up_to_a_thousand_files() {
    for n in 2..=1000u32 {
        let e = num_files_to_file_name_extension(n);
        assert_eq!(e.len(), 4);
        assert!(e.starts_with('_'));
        assert_eq!(e[1..].parse::<u32>().unwrap(), n - 1);
    }
}

#[test]
fn header_format_reads_back() {
    let h = Header::new(6, 96000, Format::Int24);
    let b = h.buffer();
    assert_eq!(u16::from_le_bytes([b[22], b[23]]), 6);
    assert_eq!(le32(b, 24), 96000);
    assert_eq!(le32(b, 28), 96000 * 6 * 3);
    assert_eq!(u16::from_le_bytes([b[32], b[33]]), 18);
    assert_eq!(u16::from_le_bytes([b[34], b[35]]), 24);
}
