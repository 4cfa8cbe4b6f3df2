use creek::audio_block::AudioBlock;
use creek::decode::{frame_to_time_parts, wrap_frame, DecodeAction, DecodeCursor};
use creek::path::{PathBuffer, PathError};

#[test]
fn wrapping_frames() {
    assert_eq!(wrap_frame(0, 5), 0);
    assert_eq!(wrap_frame(4, 5), 4);
    assert_eq!(wrap_frame(5, 5), 0);
    assert_eq!(wrap_frame(13, 5), 3);
    assert_eq!(wrap_frame(7, 1), 0);
}

#[test]
fn time_parts() {
    assert_eq!(frame_to_time_parts(0, 44100), (0, 0));
    assert_eq!(frame_to_time_parts(44100, 44100), (1, 0));
    assert_eq!(frame_to_time_parts(100_000, 44100), (2, 11800));
    assert_eq!(frame_to_time_parts(u64::MAX, 1), (u64::MAX, 0));
}

#[test]
fn decode_cursor_fills_a_block_from_packets() {
    // Packets of 3 frames, blocks of 4.
    let mut c = DecodeCursor::new(10, 4, 0, 3);
    assert!(c.start_block());
    assert_eq!(c.next_action(), DecodeAction::Copy { from: 0, frames: 3 });
    assert_eq!(c.next_action(), DecodeAction::DecodePacket);
    assert!(c.packet_decoded(3));
    assert_eq!(c.next_action(), DecodeAction::Copy { from: 0, frames: 1 });
    assert_eq!(c.next_action(), DecodeAction::Done);
    assert_eq!(c.current_frame(), 4);
    assert!(c.start_block());
    assert_eq!(c.next_action(), DecodeAction::Copy { from: 1, frames: 2 });
    assert_eq!(c.next_action(), DecodeAction::DecodePacket);
    // Two frames were copied: the other two of the block are silence.
    assert_eq!(c.end_of_file(), 2);
    assert_eq!(c.next_action(), DecodeAction::Done);
    // The read position stays at the last frame of the file.
    assert_eq!(c.current_frame(), 9);
}

#[test]
fn decode_cursor_seeks() {
    let mut c = DecodeCursor::new(10, 4, 0, 3);
    // At or past the end the playhead goes to the end without seeking.
    assert!(!c.seek(10));
    assert_eq!(c.current_frame(), 10);
    assert!(c.seek(5));
    assert_eq!(c.current_frame(), 5);
    // The reader landed 4 frames early: a packet of 3 frames is skipped,
    // then copying starts at frame 1 of the next.
    c.seeked(9, 5);
    assert!(c.start_block());
    assert_eq!(c.next_action(), DecodeAction::DecodePacket);
    assert!(!c.packet_decoded(3));
    assert!(c.packet_decoded(3));
    assert_eq!(c.next_action(), DecodeAction::Copy { from: 1, frames: 2 });
}

#[test]
fn path_buffers() {
    let b = PathBuffer::from("a/b.wav");
    assert!(b.is_ok());
    let long = "x".repeat(512);
    match PathBuffer::from(&long) {
        Err(PathError::PathTooLong(p)) => assert_eq!(p.len(), 512),
        _ => panic!("expected PathTooLong"),
    }
    let just_fits = "y".repeat(PathBuffer::MAX_LEN);
    assert!(PathBuffer::from(&just_fits).is_ok());
}

#[test]
fn audio_blocks() {
    let b: AudioBlock<i32> = AudioBlock::new(2, 3);
    assert_eq!(b.channels, vec![vec![0, 0, 0], vec![0, 0, 0]]);
    assert_eq!(b.frames_written(), 3);
    assert_eq!(b.capacity(), 3);
}
