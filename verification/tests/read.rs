use creek::read::data::{DataBlock, DataBlockCache, HeapData};
use creek::read::server::ReadServer;
use creek::read::{
    msg_channel_size, ClientToServerMsg, Decoder, FatalReadError, FillStep, ReadDiskStream, ReadError,
    ReadStreamOptions, SeekMode, ServerToClientMsg,
};
use creek::{FileInfo, ServerStatus};
use rtrb::{Consumer, Producer, RingBuffer};

/// A decoder of a file whose frame `i` holds the sample `i` in every channel.
struct CountingDecoder {
    pos: usize,
    num_frames: usize,
    block_size: usize,
    fail: bool,
}

impl Decoder for CountingDecoder {
    type T = i32;
    type AdditionalOpts = ();
    type FileParams = ();
    type OpenError = ();
    type FatalError = String;

    const DEFAULT_BLOCK_SIZE: usize = 4;
    const DEFAULT_NUM_CACHE_BLOCKS: usize = 1;
    const DEFAULT_NUM_LOOK_AHEAD_BLOCKS: usize = 2;

    fn new(
        _file: std::path::PathBuf,
        start_frame: usize,
        block_size: usize,
        _additional_opts: (),
    ) -> Result<(Self, FileInfo<()>), ()> {
        Ok((
            CountingDecoder { pos: start_frame, num_frames: 20, block_size, fail: false },
            FileInfo { num_frames: 20, num_channels: 1, sample_rate: Some(44100), params: () },
        ))
    }

    fn seek(&mut self, frame: usize) -> Result<(), String> {
        if self.fail {
            return Err("seek".to_string());
        }
        self.pos = frame.min(self.num_frames);
        Ok(())
    }

    fn decode(&mut self, block: &mut DataBlock<i32>) -> Result<(), String> {
        if self.fail {
            return Err("decode".to_string());
        }
        for ch in block.block.iter_mut() {
            for i in 0..self.block_size {
                if self.pos + i < self.num_frames {
                    ch.push((self.pos + i) as i32);
                }
            }
        }
        self.pos = (self.pos + self.block_size).min(self.num_frames);
        Ok(())
    }

    fn current_frame(&self) -> usize {
        self.pos
    }
}

type Msg = ClientToServerMsg<CountingDecoder>;
type Reply = ServerToClientMsg<CountingDecoder>;

struct Server {
    from_client: Consumer<Msg>,
    to_client: Producer<Reply>,
    _close: Consumer<Option<HeapData<i32>>>,
}

/// A stream of `num_frames` frames of one channel, blocks of 4 frames, one
/// cache block and two look-ahead blocks, one cache, starting at frame 0.
fn stream(num_frames: usize, channel_size: usize) -> (ReadDiskStream<CountingDecoder>, Server) {
    let (to_server_tx, from_client) = RingBuffer::new(channel_size);
    let (to_client, from_server_rx) = RingBuffer::new(channel_size);
    let (close_tx, close) = RingBuffer::new(1);
    let s = ReadDiskStream::create(
        0,
        1,
        2,
        1,
        4,
        FileInfo { num_frames, num_channels: 1, sample_rate: Some(44100), params: () },
        to_server_tx,
        from_server_rx,
        close_tx,
    );
    (s, Server { from_client, to_client, _close: close })
}

fn block_from(start: i32) -> DataBlock<i32> {
    DataBlock { block: vec![(start..start + 4).collect()] }
}

/// Answers the three first block requests of a new stream.
fn fill_prefetch(server: &mut Server) {
    for i in 0..3 {
        server
            .to_client
            .push(ServerToClientMsg::ReadIntoBlockRes {
                block_index: i,
                block: block_from(4 * i as i32),
                wanted_start_frame: 4 * i,
            })
            .ok()
            .unwrap();
    }
}

#[test]
fn new_stream_is_not_ready_and_reads_silence() {
    let (mut s, _server) = stream(20, 64);
    assert_eq!(s.playhead(), 0);
    assert_eq!(s.block_size(), 4);
    assert_eq!(s.num_caches(), 1);
    assert_eq!(s.info().num_frames, 20);
    assert!(!s.is_ready().unwrap());
    let d = s.read(2).unwrap();
    assert_eq!(d.num_frames(), 2);
    assert_eq!(d.num_channels(), 1);
    assert_eq!(d.read_channel(0), &[0, 0]);
    assert!(!d.reached_end_of_file());
    assert_eq!(s.playhead(), 2);
}

#[test]
fn reads_are_streaming() {
    let (mut s, mut server) = stream(20, 64);
    fill_prefetch(&mut server);
    assert!(s.is_ready().unwrap());
    assert_eq!(s.read(3).unwrap().read_channel(0), &[0, 1, 2]);
    assert_eq!(s.playhead(), 3);
    // Across the end of the first block.
    assert_eq!(s.read(3).unwrap().read_channel(0), &[3, 4, 5]);
    assert_eq!(s.playhead(), 6);
    // The first slot was handed back to be refilled one prefetch buffer ahead.
    match server.from_client.pop().unwrap() {
        ClientToServerMsg::ReadIntoBlock { block_index, block, start_frame } => {
            assert_eq!(block_index, 0);
            assert!(block.is_some());
            assert_eq!(start_frame, 12);
        }
        _ => panic!("expected a block request"),
    }
}

#[test]
fn read_is_at_most_a_block() {
    let (mut s, mut server) = stream(20, 64);
    fill_prefetch(&mut server);
    let d = s.read(10).unwrap();
    assert_eq!(d.num_frames(), 4);
    assert_eq!(d.read_channel(0), &[0, 1, 2, 3]);
    assert_eq!(s.playhead(), 4);
}

#[test]
fn read_stops_at_end_of_file() {
    let (mut s, mut server) = stream(6, 64);
    fill_prefetch(&mut server);
    assert_eq!(s.read(4).unwrap().num_frames(), 4);
    let d = s.read(4).unwrap();
    assert_eq!(d.read_channel(0), &[4, 5]);
    assert!(d.reached_end_of_file());
    assert_eq!(s.playhead(), 6);
    assert!(matches!(s.read(4), Err(ReadError::EndOfFile)));
    assert_eq!(s.playhead(), 6);
}

#[test]
fn late_blocks_are_ignored() {
    let (mut s, mut server) = stream(20, 64);
    // A block that answers an older request for slot 0 is handed back.
    server
        .to_client
        .push(ServerToClientMsg::ReadIntoBlockRes { block_index: 0, block: block_from(100), wanted_start_frame: 40 })
        .ok()
        .unwrap();
    assert!(!s.is_ready().unwrap());
    assert!(matches!(server.from_client.pop().unwrap(), ClientToServerMsg::DisposeBlock { .. }));
    assert_eq!(s.read(2).unwrap().read_channel(0), &[0, 0]);
}

#[test]
fn cache_then_seek_resumes_immediately() {
    let (mut s, mut server) = stream(20, 64);
    assert!(s.cache(0, 0).unwrap());
    match server.from_client.pop().unwrap() {
        ClientToServerMsg::Cache { cache_index, cache, start_frame } => {
            assert_eq!(cache_index, 0);
            assert!(cache.is_none());
            assert_eq!(start_frame, 0);
        }
        _ => panic!("expected a cache request"),
    }
    let cache = DataBlockCache { blocks: vec![block_from(0), block_from(4), block_from(8)] };
    server.to_client.push(ServerToClientMsg::CacheRes { cache_index: 0, cache, wanted_start_frame: 0 }).ok().unwrap();
    assert!(!s.is_ready().unwrap());
    // Caching the same position again does nothing.
    assert!(!s.cache(0, 0).unwrap());
    assert!(s.seek(2, SeekMode::Auto).unwrap());
    assert_eq!(s.playhead(), 2);
    assert!(s.is_ready().unwrap());
    assert_eq!(s.read(2).unwrap().read_channel(0), &[2, 3]);
    // The server was asked to read ahead of the cache.
    let mut saw_seek = false;
    while let Ok(msg) = server.from_client.pop() {
        if let ClientToServerMsg::SeekTo { frame } = msg {
            assert_eq!(frame, 12);
            saw_seek = true;
        }
    }
    assert!(saw_seek);
    assert!(s.seek(3, SeekMode::TryOne(0)).unwrap());
    assert!(s.seek(1, SeekMode::TryOneThenAuto(1)).unwrap());
    assert!(!s.seek(3, SeekMode::TryOne(1)).unwrap());
    assert!(!s.seek(2, SeekMode::NoCache).unwrap());
    assert_eq!(s.playhead(), 2);
}

#[test]
fn seek_without_cache_buffers() {
    let (mut s, mut server) = stream(20, 64);
    assert!(!s.seek(10, SeekMode::Auto).unwrap());
    assert_eq!(s.playhead(), 10);
    match server.from_client.pop().unwrap() {
        ClientToServerMsg::Cache { cache_index, start_frame, .. } => {
            // The temporary seek cache.
            assert_eq!(cache_index, 1);
            assert_eq!(start_frame, 10);
        }
        _ => panic!("expected a cache request"),
    }
    assert!(matches!(server.from_client.pop().unwrap(), ClientToServerMsg::SeekTo { frame: 22 }));
    assert!(!s.is_ready().unwrap());
}

#[test]
fn seek_past_end_reads_end_of_file() {
    let (mut s, _server) = stream(20, 64);
    assert!(!s.seek(20, SeekMode::Auto).unwrap());
    assert!(matches!(s.read(1), Err(ReadError::EndOfFile)));
}

#[test]
fn cache_index_out_of_range() {
    let (mut s, _server) = stream(20, 64);
    match s.cache(5, 0) {
        Err(ReadError::CacheIndexOutOfRange { index, num_caches }) => {
            assert_eq!(index, 5);
            assert_eq!(num_caches, 1);
        }
        _ => panic!("expected CacheIndexOutOfRange"),
    }
    assert_eq!(s.playhead(), 0);
}

#[test]
fn moving_a_cache_in_use() {
    let (mut s, mut server) = stream(20, 64);
    assert!(s.cache(0, 0).unwrap());
    let cache = DataBlockCache { blocks: vec![block_from(0), block_from(4), block_from(8)] };
    server.to_client.push(ServerToClientMsg::CacheRes { cache_index: 0, cache, wanted_start_frame: 0 }).ok().unwrap();
    s.is_ready().unwrap();
    assert!(s.seek(0, SeekMode::Auto).unwrap());
    assert!(s.can_move_cache(0));
    // The cache moves to the temporary cache, and playback goes on from it.
    assert!(s.cache(0, 8).unwrap());
    assert!(s.is_ready().unwrap());
    assert_eq!(s.read(2).unwrap().read_channel(0), &[0, 1]);
}

#[test]
fn channel_full() {
    let (mut s, _server) = stream(20, 2);
    assert!(matches!(s.seek(4, SeekMode::Auto), Err(ReadError::IOServerChannelFull)));
    assert!(matches!(s.cache(0, 4), Err(ReadError::IOServerChannelFull)));
    assert_eq!(s.playhead(), 0);
}

#[test]
fn fatal_errors_close_the_stream() {
    let (mut s, mut server) = stream(20, 64);
    server.to_client.push(ServerToClientMsg::FatalError("broken".to_string())).ok().unwrap();
    match s.is_ready() {
        Err(ReadError::FatalError(FatalReadError::DecoderError(e))) => assert_eq!(e, "broken"),
        _ => panic!("expected the decoder error"),
    }
    assert!(matches!(s.read(1), Err(ReadError::FatalError(FatalReadError::StreamClosed))));
    assert!(matches!(s.seek(0, SeekMode::Auto), Err(ReadError::FatalError(FatalReadError::StreamClosed))));
    assert!(matches!(s.cache(0, 0), Err(ReadError::FatalError(FatalReadError::StreamClosed))));
}

#[test]
fn fill_buffer_in_steps() {
    let (mut s, mut server) = stream(20, 64);
    let mut buffer = vec![vec![-1; 5]];
    assert_eq!(s.fill_buffer_step(&mut buffer, 0).unwrap(), FillStep::NotReady);
    fill_prefetch(&mut server);
    assert_eq!(
        s.fill_buffer_step(&mut buffer, 0).unwrap(),
        FillStep::Read { frames_written: 4, reached_end_of_file: false }
    );
    assert_eq!(buffer[0], vec![0, 1, 2, 3, -1]);
    assert_eq!(
        s.fill_buffer_step(&mut buffer, 4).unwrap(),
        FillStep::Read { frames_written: 5, reached_end_of_file: false }
    );
    assert_eq!(buffer[0], vec![0, 1, 2, 3, 4]);
    assert_eq!(s.fill_buffer_step(&mut buffer, 5).unwrap(), FillStep::Full);
    let mut two = vec![vec![0; 5], vec![0; 5]];
    assert!(matches!(s.fill_buffer_step(&mut two, 0), Err(ReadError::InvalidBuffer)));
    assert_eq!(s.playhead(), 5);
}

#[test]
fn fill_buffer_reaches_end_of_file() {
    let (mut s, mut server) = stream(3, 64);
    fill_prefetch(&mut server);
    let mut buffer = vec![vec![0; 8]];
    assert_eq!(
        s.fill_buffer_step(&mut buffer, 0).unwrap(),
        FillStep::Read { frames_written: 3, reached_end_of_file: true }
    );
    assert_eq!(&buffer[0][..4], &[0, 1, 2, 0]);
}

#[test]
fn options_and_channel_sizes() {
    let o: ReadStreamOptions<CountingDecoder> = Default::default();
    assert_eq!(o.block_size, 4);
    assert_eq!(o.num_cache_blocks, 1);
    assert_eq!(o.num_look_ahead_blocks, 2);
    assert_eq!(o.num_caches, 1);
    assert!(o.server_msg_channel_size.is_none());
    assert_eq!(SeekMode::default(), SeekMode::Auto);
    assert_eq!(msg_channel_size(1, 2, 1, None), 3 * 4 + 4 + 8);
    assert_eq!(msg_channel_size(1, 2, 1, Some(7)), 7);
}

#[test]
fn data_blocks() {
    let mut b: DataBlock<i32> = DataBlock::new(2, 4);
    assert_eq!(b.block.len(), 2);
    assert!(b.block.iter().all(|c| c.is_empty()));
    b.block[0].push(3);
    b.clear();
    assert!(b.block.iter().all(|c| c.is_empty()));
    let c: DataBlockCache<i32> = DataBlockCache::new(2, 3, 4);
    assert_eq!(c.blocks.len(), 3);
}

struct ServerSide {
    server: ReadServer<CountingDecoder>,
    to_server: Producer<Msg>,
    from_server: Consumer<Reply>,
    close: Producer<Option<HeapData<i32>>>,
}

fn server(fail: bool) -> ServerSide {
    let (to_server, from_client_rx) = RingBuffer::new(16);
    let (to_client_tx, from_server) = RingBuffer::new(16);
    let (close, close_rx) = RingBuffer::new(1);
    let decoder = CountingDecoder { pos: 0, num_frames: 20, block_size: 4, fail };
    let server = ReadServer::new(decoder, 1, 3, 4, to_client_tx, from_client_rx, close_rx);
    ServerSide { server, to_server, from_server, close }
}

#[test]
fn server_answers_block_requests() {
    let mut s = server(false);
    s.to_server.push(ClientToServerMsg::SeekTo { frame: 8 }).ok().unwrap();
    s.to_server.push(ClientToServerMsg::ReadIntoBlock { block_index: 2, block: None, start_frame: 8 }).ok().unwrap();
    assert_eq!(s.server.step(), ServerStatus::Idle);
    match s.from_server.pop().unwrap() {
        ServerToClientMsg::ReadIntoBlockRes { block_index, block, wanted_start_frame } => {
            assert_eq!(block_index, 2);
            assert_eq!(wanted_start_frame, 8);
            assert_eq!(block.block, vec![vec![8, 9, 10, 11]]);
        }
        _ => panic!("expected a block"),
    }
}

#[test]
fn server_answers_every_request_in_order() {
    let mut s = server(false);
    s.to_server.push(ClientToServerMsg::ReadIntoBlock { block_index: 0, block: None, start_frame: 0 }).ok().unwrap();
    s.to_server.push(ClientToServerMsg::Cache { cache_index: 0, cache: None, start_frame: 8 }).ok().unwrap();
    s.to_server.push(ClientToServerMsg::DisposeBlock { block: DataBlock::new(1, 4) }).ok().unwrap();
    s.to_server.push(ClientToServerMsg::ReadIntoBlock { block_index: 1, block: None, start_frame: 4 }).ok().unwrap();
    assert_eq!(s.server.step(), ServerStatus::Idle);
    // The block requests are answered first, in order, then the cache.
    match s.from_server.pop().unwrap() {
        ServerToClientMsg::ReadIntoBlockRes { block_index, block, .. } => {
            assert_eq!(block_index, 0);
            assert_eq!(block.block, vec![vec![0, 1, 2, 3]]);
        }
        _ => panic!("expected the first block"),
    }
    match s.from_server.pop().unwrap() {
        ServerToClientMsg::ReadIntoBlockRes { block_index, block, .. } => {
            assert_eq!(block_index, 1);
            assert_eq!(block.block, vec![vec![4, 5, 6, 7]]);
        }
        _ => panic!("expected the second block"),
    }
    match s.from_server.pop().unwrap() {
        ServerToClientMsg::CacheRes { cache_index, cache, wanted_start_frame } => {
            assert_eq!(cache_index, 0);
            assert_eq!(wanted_start_frame, 8);
            assert_eq!(cache.blocks[0].block, vec![vec![8, 9, 10, 11]]);
        }
        _ => panic!("expected the cache"),
    }
    assert!(s.from_server.pop().is_err());
}

#[test]
fn server_fills_caches_and_seeks_back() {
    let mut s = server(false);
    s.to_server.push(ClientToServerMsg::Cache { cache_index: 0, cache: None, start_frame: 4 }).ok().unwrap();
    assert_eq!(s.server.step(), ServerStatus::Idle);
    match s.from_server.pop().unwrap() {
        ServerToClientMsg::CacheRes { cache_index, cache, wanted_start_frame } => {
            assert_eq!(cache_index, 0);
            assert_eq!(wanted_start_frame, 4);
            assert_eq!(cache.blocks.len(), 3);
            assert_eq!(cache.blocks[0].block, vec![vec![4, 5, 6, 7]]);
            assert_eq!(cache.blocks[2].block, vec![vec![12, 13, 14, 15]]);
        }
        _ => panic!("expected a cache"),
    }
    // Reading goes on from where it was.
    s.to_server.push(ClientToServerMsg::ReadIntoBlock { block_index: 0, block: None, start_frame: 0 }).ok().unwrap();
    s.server.step();
    match s.from_server.pop().unwrap() {
        ServerToClientMsg::ReadIntoBlockRes { block, .. } => assert_eq!(block.block, vec![vec![0, 1, 2, 3]]),
        _ => panic!("expected a block"),
    }
}

#[test]
fn server_reports_decoder_errors_and_waits_for_close() {
    let mut s = server(true);
    s.to_server.push(ClientToServerMsg::ReadIntoBlock { block_index: 0, block: None, start_frame: 0 }).ok().unwrap();
    assert_eq!(s.server.step(), ServerStatus::Busy);
    match s.from_server.pop().unwrap() {
        ServerToClientMsg::FatalError(e) => assert_eq!(e, "decode"),
        _ => panic!("expected the error"),
    }
    assert_eq!(s.server.step(), ServerStatus::Idle);
    s.close.push(None).ok().unwrap();
    assert_eq!(s.server.step(), ServerStatus::Closed);
    assert_eq!(s.server.step(), ServerStatus::Closed);
}

#[test]
fn server_closes_when_stream_drops() {
    let mut s = server(false);
    s.close.push(None).ok().unwrap();
    assert_eq!(s.server.step(), ServerStatus::Closed);
    // Messages after closing are not answered.
    s.to_server.push(ClientToServerMsg::SeekTo { frame: 0 }).ok().unwrap();
    assert_eq!(s.server.step(), ServerStatus::Closed);
    assert!(s.from_server.pop().is_err());
}

#[test]
fn server_reuses_disposed_blocks() {
    let mut s = server(false);
    let disposed = DataBlock { block: vec![vec![7, 7, 7]] };
    assert!(s.server.handle_msg(ClientToServerMsg::DisposeBlock { block: disposed }).is_empty());
    let replies = s.server.handle_msg(ClientToServerMsg::ReadIntoBlock { block_index: 1, block: None, start_frame: 4 });
    assert_eq!(replies.len(), 1);
    match &replies[0] {
        ServerToClientMsg::ReadIntoBlockRes { block_index, block, wanted_start_frame } => {
            assert_eq!(*block_index, 1);
            assert_eq!(*wanted_start_frame, 4);
            // The pooled block was cleared before the decoder filled it.
            assert_eq!(block.block, vec![vec![0, 1, 2, 3]]);
        }
        _ => panic!("expected a block"),
    }
}

#[test]
fn seek_and_cache_need_room_in_the_channel() {
    let (mut s, _server) = stream(20, 64);
    // Three prefetch blocks: a seek needs 6 free slots, a cache request 5.
    assert!(matches!(s.seek_with_slots(5, 10, SeekMode::Auto), Err(ReadError::IOServerChannelFull)));
    assert_eq!(s.playhead(), 0);
    assert!(!s.seek_with_slots(6, 10, SeekMode::Auto).unwrap());
    assert_eq!(s.playhead(), 10);
    assert!(matches!(s.cache_with_slots(4, 0, 4), Err(ReadError::IOServerChannelFull)));
    assert!(s.cache_with_slots(5, 0, 4).unwrap());
}

#[test]
fn read_and_is_ready_need_room_in_the_channel() {
    let (mut s, mut server) = stream(20, 64);
    fill_prefetch(&mut server);
    assert!(s.is_ready().unwrap());
    assert!(!s.is_ready_polled(true).unwrap());
    assert!(s.is_ready_polled(false).unwrap());
    assert!(matches!(s.read_polled(2, true), Err(ReadError::IOServerChannelFull)));
    assert_eq!(s.playhead(), 0);
    assert_eq!(s.read_polled(2, false).unwrap().read_channel(0), &[0, 1]);
    assert_eq!(s.playhead(), 2);
}
