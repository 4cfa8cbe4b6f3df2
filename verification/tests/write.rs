use std::sync::{Arc, Mutex};

use creek::wav::encoder_state::WavEncoderState;
use creek::wav::Format;
use creek::write::data::WriteBlock;
use creek::write::server::WriteServer;
use creek::write::{
    msg_channel_size, ClientToServerMsg, Encoder, FatalWriteError, WriteDiskStream, WriteError, WriteStatus,
    WriteStreamOptions,
};
use creek::{FileInfo, ServerStatus};
use rtrb::{Consumer, RingBuffer};

/// An encoder that keeps the frames it is given, channel by channel.
struct RecordingEncoder {
    frames: Arc<Mutex<Vec<Vec<i32>>>>,
    files_per_block: bool,
    num_files: u32,
    fail: bool,
}

impl Encoder for RecordingEncoder {
    type T = i32;
    type AdditionalOpts = ();
    type FileParams = ();
    type OpenError = ();
    type FatalError = String;

    const DEFAULT_BLOCK_SIZE: usize = 4;
    const DEFAULT_NUM_WRITE_BLOCKS: usize = 3;

    fn new(
        _file: std::path::PathBuf,
        num_channels: u16,
        sample_rate: u32,
        _block_size: usize,
        _num_write_blocks: usize,
        _additional_opts: (),
    ) -> Result<(Self, FileInfo<()>), ()> {
        Ok((
            RecordingEncoder {
                frames: Arc::new(Mutex::new(vec![Vec::new(); num_channels as usize])),
                files_per_block: false,
                num_files: 1,
                fail: false,
            },
            FileInfo { num_frames: 0, num_channels, sample_rate: Some(sample_rate), params: () },
        ))
    }

    fn encode(&mut self, write_block: &WriteBlock<i32>) -> Result<WriteStatus, String> {
        if self.fail {
            return Err("encode".to_string());
        }
        let n = write_block.written_frames();
        let mut frames = self.frames.lock().unwrap();
        for (ch, samples) in write_block.block().iter().enumerate() {
            frames[ch].extend_from_slice(&samples[..n]);
        }
        if self.files_per_block {
            self.num_files += 1;
            return Ok(WriteStatus::ReachedMaxSize { num_files: self.num_files });
        }
        Ok(WriteStatus::WrittenOk)
    }

    fn finish_file(&mut self) -> Result<(), String> {
        Ok(())
    }

    fn discard_file(&mut self) -> Result<(), String> {
        self.frames.lock().unwrap().iter_mut().for_each(|c| c.clear());
        Ok(())
    }

    fn discard_and_restart(&mut self) -> Result<(), String> {
        self.frames.lock().unwrap().iter_mut().for_each(|c| c.clear());
        Ok(())
    }
}

type Msg = ClientToServerMsg<RecordingEncoder>;

struct Pair {
    stream: WriteDiskStream<RecordingEncoder>,
    server: WriteServer<RecordingEncoder>,
    frames: Arc<Mutex<Vec<Vec<i32>>>>,
}

fn encoder(num_channels: usize) -> (RecordingEncoder, Arc<Mutex<Vec<Vec<i32>>>>) {
    let frames = Arc::new(Mutex::new(vec![Vec::new(); num_channels]));
    (RecordingEncoder { frames: frames.clone(), files_per_block: false, num_files: 1, fail: false }, frames)
}

/// A stream of `num_channels` channels in blocks of 4 frames, wired to its
/// server.
fn pair(num_channels: u16, num_write_blocks: usize, enc: RecordingEncoder, frames: Arc<Mutex<Vec<Vec<i32>>>>) -> Pair {
    let (to_server_tx, from_client_rx) = RingBuffer::new(32);
    let (to_client_tx, from_server_rx) = RingBuffer::new(32);
    let (close_tx, close_rx) = RingBuffer::new(1);
    let server = WriteServer::new(enc, to_client_tx, from_client_rx, close_rx);
    let stream = WriteDiskStream::create(
        to_server_tx,
        from_server_rx,
        close_tx,
        num_write_blocks,
        4,
        FileInfo { num_frames: 0, num_channels, sample_rate: Some(44100), params: () },
    );
    Pair { stream, server, frames }
}

/// A stream whose server side is left to the test.
fn lone_stream(num_channels: u16, num_write_blocks: usize) -> (WriteDiskStream<RecordingEncoder>, Consumer<Msg>) {
    let (to_server_tx, from_client_rx) = RingBuffer::new(32);
    let (_to_client_tx, from_server_rx) = RingBuffer::new(32);
    let (close_tx, _close_rx) = RingBuffer::new(1);
    let stream = WriteDiskStream::create(
        to_server_tx,
        from_server_rx,
        close_tx,
        num_write_blocks,
        4,
        FileInfo { num_frames: 0, num_channels, sample_rate: Some(44100), params: () },
    );
    (stream, from_client_rx)
}

#[test]
fn full_blocks_are_sent_in_order() {
    let (mut s, mut rx) = lone_stream(1, 3);
    s.write(&[&[1, 2, 3]]).unwrap();
    assert_eq!(s.info().num_frames, 3);
    assert!(rx.pop().is_err());
    s.write(&[&[4, 5]]).unwrap();
    assert_eq!(s.info().num_frames, 5);
    match rx.pop().unwrap() {
        ClientToServerMsg::WriteBlock { block } => {
            assert_eq!(block.written_frames(), 4);
            assert_eq!(block.block()[0], vec![1, 2, 3, 4]);
        }
        _ => panic!("expected a block"),
    }
    s.write(&[&[6, 7, 8]]).unwrap();
    match rx.pop().unwrap() {
        ClientToServerMsg::WriteBlock { block } => assert_eq!(block.block()[0], vec![5, 6, 7, 8]),
        _ => panic!("expected a block"),
    }
}

#[test]
fn write_errors() {
    let (mut s, _rx) = lone_stream(2, 2);
    match s.write(&[&[1, 2, 3, 4, 5], &[1, 2, 3, 4, 5]]) {
        Err(WriteError::BufferTooLong { buffer_len, block_size }) => {
            assert_eq!(buffer_len, 5);
            assert_eq!(block_size, 4);
        }
        _ => panic!("expected BufferTooLong"),
    }
    assert!(matches!(s.write(&[&[1]]), Err(WriteError::InvalidBuffer)));
    assert!(matches!(s.write(&[&[1, 2], &[1]]), Err(WriteError::InvalidBuffer)));
    assert_eq!(s.info().num_frames, 0);
    // With two blocks, the second full block has no block to go on with.
    s.write(&[&[1, 2, 3, 4], &[1, 2, 3, 4]]).unwrap();
    assert!(matches!(s.write(&[&[1], &[1]]), Err(WriteError::Underflow)));
    assert_eq!(s.info().num_frames, 4);
}

#[test]
fn channel_full_write() {
    let (to_server_tx, _rx) = RingBuffer::<Msg>::new(1);
    let (_tx, from_server_rx) = RingBuffer::new(4);
    let (close_tx, _close_rx) = RingBuffer::new(1);
    let mut s: WriteDiskStream<RecordingEncoder> = WriteDiskStream::create(
        to_server_tx,
        from_server_rx,
        close_tx,
        4,
        4,
        FileInfo { num_frames: 0, num_channels: 1, sample_rate: None, params: () },
    );
    s.write(&[&[1, 2, 3, 4]]).unwrap();
    assert!(matches!(s.write(&[&[5]]), Err(WriteError::IOServerChannelFull)));
    assert_eq!(s.info().num_frames, 4);
}

#[test]
fn stream_and_server_write_a_file() {
    let (enc, frames) = encoder(2);
    let mut p = pair(2, 3, enc, frames);
    for i in 0..5 {
        let a = [i * 2, i * 2 + 1];
        let b = [-(i * 2), -(i * 2 + 1)];
        p.stream.write(&[&a, &b]).unwrap();
        assert_eq!(p.server.step(), ServerStatus::Idle);
        assert!(p.stream.is_ready().unwrap());
    }
    p.stream.finish_and_close().unwrap();
    assert_eq!(p.server.step(), ServerStatus::Busy);
    p.stream.poll().unwrap();
    assert!(p.stream.finish_complete());
    let got = p.frames.lock().unwrap().clone();
    assert_eq!(got[0], (0..10).collect::<Vec<i32>>());
    assert_eq!(got[1], (0..10).map(|x| -x).collect::<Vec<i32>>());
    assert!(matches!(p.stream.write(&[&[1], &[1]]), Err(WriteError::FatalError(FatalWriteError::StreamClosed))));
    // The server waits for the stream to close.
    assert_eq!(p.server.step(), ServerStatus::Idle);
    drop(p.stream);
    assert_eq!(p.server.step(), ServerStatus::Closed);
}

#[test]
fn restart_discards_the_take() {
    let (enc, frames) = encoder(1);
    let mut p = pair(1, 4, enc, frames);
    p.stream.write(&[&[1, 2, 3]]).unwrap();
    p.stream.discard_and_restart().unwrap();
    assert_eq!(p.stream.info().num_frames, 0);
    assert_eq!(p.stream.num_files(), 1);
    p.stream.write(&[&[7, 8, 9, 10]]).unwrap();
    p.server.step();
    assert_eq!(p.frames.lock().unwrap()[0], vec![7, 8, 9, 10]);
}

#[test]
fn discard_and_close() {
    let (enc, frames) = encoder(1);
    let mut p = pair(1, 3, enc, frames);
    p.stream.write(&[&[1, 2, 3, 4]]).unwrap();
    p.stream.discard_and_close().unwrap();
    assert_eq!(p.stream.num_files(), 0);
    assert_eq!(p.server.step(), ServerStatus::Busy);
    p.stream.poll().unwrap();
    assert!(p.stream.finish_complete());
    assert!(p.frames.lock().unwrap()[0].is_empty());
}

#[test]
fn new_files_are_reported() {
    let (mut enc, frames) = encoder(1);
    enc.files_per_block = true;
    let mut p = pair(1, 3, enc, frames);
    p.stream.write(&[&[1, 2, 3, 4]]).unwrap();
    p.server.step();
    p.stream.poll().unwrap();
    assert_eq!(p.stream.num_files(), 2);
}

#[test]
fn encoder_errors_reach_the_stream() {
    let (mut enc, frames) = encoder(1);
    enc.fail = true;
    let mut p = pair(1, 3, enc, frames);
    p.stream.write(&[&[1, 2, 3, 4]]).unwrap();
    assert_eq!(p.server.step(), ServerStatus::Busy);
    match p.stream.poll() {
        Err(WriteError::FatalError(FatalWriteError::EncoderError(e))) => assert_eq!(e, "encode"),
        _ => panic!("expected the encoder error"),
    }
    assert!(matches!(p.stream.poll(), Err(WriteError::FatalError(FatalWriteError::StreamClosed))));
}

#[test]
fn interleaving_blocks() {
    let (mut s, mut rx) = lone_stream(2, 3);
    s.write(&[&[1, 2, 3, 4], &[5, 6, 7, 8]]).unwrap();
    let block = match rx.pop().unwrap() {
        ClientToServerMsg::WriteBlock { block } => block,
        _ => panic!("expected a block"),
    };
    let mut state = WavEncoderState::<i32>::new(2, 44100, Format::Int24, 4).unwrap();
    assert_eq!(state.block_frames(&block), Some(4));
    assert_eq!(state.block_frames(&WriteBlock::new(2, 4)), None);
    assert_eq!(state.interleave(&block), &[1, 5, 2, 6, 3, 7, 4, 8]);

    let (mut s, mut rx) = lone_stream(1, 3);
    s.write(&[&[9, 8, 7, 6]]).unwrap();
    let block = match rx.pop().unwrap() {
        ClientToServerMsg::WriteBlock { block } => block,
        _ => panic!("expected a block"),
    };
    let mut state = WavEncoderState::<i32>::new(1, 44100, Format::Int24, 4).unwrap();
    assert_eq!(state.interleave(&block), &[9, 8, 7, 6]);
}

#[test]
fn write_blocks() {
    let mut b: WriteBlock<i32> = WriteBlock::new(2, 4);
    assert_eq!(b.block().len(), 2);
    // Each channel is a whole block of default samples.
    assert_eq!(b.block()[0], vec![0, 0, 0, 0]);
    assert_eq!(b.block()[1].len(), 4);
    assert_eq!(b.written_frames(), 0);
    b.clear();
    assert_eq!(b.written_frames(), 0);
}

#[test]
fn write_options() {
    let o: WriteStreamOptions<RecordingEncoder> = Default::default();
    assert_eq!(o.block_size, 4);
    assert_eq!(o.num_write_blocks, 3);
    assert!(o.server_msg_channel_size.is_none());
    assert!(o.encoder_poll_interval.is_none());
    assert_eq!(msg_channel_size(3, None), 20);
    assert_eq!(msg_channel_size(3, Some(5)), 5);
}

#[test]
fn blocks_of_a_discarded_take_are_handed_back_unused() {
    let (mut s, mut rx) = lone_stream(1, 3);
    s.write(&[&[1, 2, 3, 4]]).unwrap();
    let block = match rx.pop().unwrap() {
        ClientToServerMsg::WriteBlock { block } => block,
        _ => panic!("expected a block"),
    };
    let (enc, frames) = encoder(1);
    let (to_client_tx, _from_server_rx) = RingBuffer::new(4);
    let (_to_server_tx, from_client_rx) = RingBuffer::new(4);
    let (_close_tx, close_rx) = RingBuffer::new(1);
    let mut server = WriteServer::new(enc, to_client_tx, from_client_rx, close_rx);
    assert!(server.handle_msg(ClientToServerMsg::DiscardAndRestart).is_empty());
    let replies = server.handle_msg(ClientToServerMsg::WriteBlock { block });
    assert_eq!(replies.len(), 1);
    match &replies[0] {
        creek::write::ServerToClientMsg::NewWriteBlock { block } => {
            assert_eq!(block.block().len(), 1);
            assert_eq!(block.written_frames(), 0);
        }
        _ => panic!("expected the block back"),
    }
    assert!(frames.lock().unwrap()[0].is_empty());
}

#[test]
fn blocks_sent_before_closing_are_still_written() {
    let (mut s, mut rx) = lone_stream(1, 5);
    let mut blocks = Vec::new();
    for i in 0..3 {
        let start = 4 * i;
        s.write(&[&[start, start + 1, start + 2, start + 3]]).unwrap();
        match rx.pop().unwrap() {
            ClientToServerMsg::WriteBlock { block } => blocks.push(block),
            _ => panic!("expected a block"),
        }
    }
    let (enc, frames) = encoder(1);
    // Room for one reply only.
    let (to_client_tx, _from_server_rx) = RingBuffer::new(1);
    let (mut to_server_tx, from_client_rx) = RingBuffer::new(8);
    let (mut close_tx, close_rx) = RingBuffer::new(1);
    let mut server = WriteServer::new(enc, to_client_tx, from_client_rx, close_rx);
    let third = blocks.pop().unwrap();
    for block in blocks {
        to_server_tx.push(ClientToServerMsg::WriteBlock { block }).ok().unwrap();
    }
    // The second reply finds the channel full.
    assert_eq!(server.step(), ServerStatus::Idle);
    to_server_tx.push(ClientToServerMsg::WriteBlock { block: third }).ok().unwrap();
    close_tx.push(None).ok().unwrap();
    assert_eq!(server.step(), ServerStatus::Closed);
    assert_eq!(frames.lock().unwrap()[0], (0..12).collect::<Vec<i32>>());
}

#[test]
fn handed_blocks_are_the_written_frames_in_order() {
    let (mut s, mut rx) = lone_stream(2, 6);
    let mut written: Vec<Vec<i32>> = vec![Vec::new(), Vec::new()];
    let mut handed: Vec<Vec<i32>> = vec![Vec::new(), Vec::new()];
    let mut next: i32 = 0;
    for len in [3usize, 2, 4, 1, 3] {
        let a: Vec<i32> = (0..len as i32).map(|k| next + k).collect();
        let b: Vec<i32> = a.iter().map(|x| -x).collect();
        next += len as i32;
        s.write(&[&a, &b]).unwrap();
        written[0].extend_from_slice(&a);
        written[1].extend_from_slice(&b);
        while let Ok(msg) = rx.pop() {
            if let ClientToServerMsg::WriteBlock { block } = msg {
                assert_eq!(block.written_frames(), 4);
                handed[0].extend_from_slice(&block.block()[0]);
                handed[1].extend_from_slice(&block.block()[1]);
            }
        }
        // What was handed over is the start of what was written.
        assert_eq!(handed[0][..], written[0][..handed[0].len()]);
        assert_eq!(handed[1][..], written[1][..handed[1].len()]);
        assert_eq!(written[0].len() - handed[0].len(), written[0].len() % 4);
    }
    s.finish_and_close().unwrap();
    let mut finished = false;
    while let Ok(msg) = rx.pop() {
        match msg {
            ClientToServerMsg::WriteBlock { block } => {
                assert!(!finished);
                let n = block.written_frames();
                handed[0].extend_from_slice(&block.block()[0][..n]);
                handed[1].extend_from_slice(&block.block()[1][..n]);
            }
            ClientToServerMsg::FinishFile => finished = true,
            _ => panic!("unexpected message"),
        }
    }
    assert!(finished);
    assert_eq!(handed, written);
}

#[test]
fn write_block_new() {
    let wb = WriteBlock::<u8>::new(1, 32768);
    assert_eq!(wb.block().len(), 1);
    assert_eq!(wb.block()[0].len(), 32768);
    assert_eq!(wb.written_frames(), 0);
}

#[test]
fn writes_need_room_in_the_channel() {
    let (mut s, _rx) = lone_stream(1, 3);
    assert!(matches!(s.write_polled(&[&[1, 2]], true), Err(WriteError::IOServerChannelFull)));
    assert_eq!(s.info().num_frames, 0);
    s.write_polled(&[&[1, 2]], false).unwrap();
    assert_eq!(s.info().num_frames, 2);
    assert!(!s.is_ready_polled(true).unwrap());
    assert!(s.is_ready_polled(false).unwrap());
    assert!(matches!(s.discard_and_restart_with_room(true), Err(WriteError::IOServerChannelFull)));
    s.discard_and_restart_with_room(false).unwrap();
    assert_eq!(s.info().num_frames, 0);
    assert!(matches!(s.finish_hand_pending(false), Ok(())));
    assert!(matches!(s.finish_request(true), Err(WriteError::IOServerChannelFull)));
    assert!(matches!(s.finish_request(false), Ok(())));
}

#[test]
fn discard_and_close_needs_room_in_the_channel() {
    let (mut s, _rx) = lone_stream(1, 3);
    assert!(matches!(s.discard_and_close_with_room(true), Err(WriteError::IOServerChannelFull)));
    // The stream is closed either way.
    assert!(matches!(s.write(&[&[1]]), Err(WriteError::FatalError(FatalWriteError::StreamClosed))));
}
