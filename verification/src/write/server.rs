//! The IO server of a write stream: it encodes the blocks the stream sends
//! and hands them back to be refilled.
use vstd::prelude::*;

use super::data::HeapData;
use super::encoder::EncoderCall;
use super::{ClientToServerMsg, Encoder, ServerToClientMsg, WriteBlock, WriteStatus};
use crate::channel::{self, is_suffix_of, lemma_prefix_trans};
use crate::write::data::empty_channels;
use crate::ServerStatus;

verus! {

/// The reply that hands `block`, emptied, back to the stream.
pub open spec fn is_returned_block<E: Encoder>(reply: ServerToClientMsg<E>, block: WriteBlock<E::T>) -> bool {
    &&& reply matches ServerToClientMsg::NewWriteBlock { block: b }
    &&& b.spec_channels() == empty_channels::<E::T>(block.spec_channels().len() as int)
    &&& b.spec_restart_count() == block.spec_restart_count()
}

/// `r` answers the encoding of `block`, which returned `res`: the block
/// handed back emptied, after the news of a new file if one was started, or
/// the error.
pub open spec fn encode_reply<E: Encoder>(
    res: Result<WriteStatus, E::FatalError>,
    r: Seq<ServerToClientMsg<E>>,
    block: WriteBlock<E::T>,
) -> bool {
    match res {
        Ok(WriteStatus::WrittenOk) => r.len() == 1 && is_returned_block(r[0], block),
        Ok(WriteStatus::ReachedMaxSize { num_files }) => {
            &&& r.len() == 2
            &&& r[0] == ServerToClientMsg::<E>::ReachedMaxSize { num_files }
            &&& is_returned_block(r[1], block)
        },
        Err(e) => r == seq![ServerToClientMsg::<E>::FatalError(e)],
    }
}

/// `r` answers a request to finish or discard the file, which returned
/// `res`.
pub open spec fn finish_reply<E: Encoder>(res: Result<(), E::FatalError>, r: Seq<ServerToClientMsg<E>>) -> bool {
    match res {
        Ok(_) => r == seq![ServerToClientMsg::<E>::Finished],
        Err(e) => r == seq![ServerToClientMsg::<E>::FatalError(e)],
    }
}

/// Handling the message `msg`, with the server's restart count at `rc`,
/// gave the replies `reps`, in the order they are sent, and made the encoder
/// calls `calls`: a block of the current take is encoded and handed back,
/// after the news of a new file if one was started, or the error is
/// answered; a block of a discarded take is only handed back; finishing or
/// discarding the file is answered with `Finished` or the error; a restart
/// is answered with nothing, or the error.
pub open spec fn handled_as<E: Encoder>(
    msg: ClientToServerMsg<E>,
    rc: usize,
    reps: Seq<ServerToClientMsg<E>>,
    calls: Seq<EncoderCall<E::T, E::FatalError>>,
) -> bool {
    match msg {
        ClientToServerMsg::WriteBlock { block } => if block.spec_restart_count() != rc {
            &&& reps.len() == 1
            &&& is_returned_block(reps[0], block)
            &&& calls.len() == 0
        } else {
            &&& {
                ||| reps.len() == 1 && is_returned_block(reps[0], block)
                ||| reps.len() == 2 && reps[0] is ReachedMaxSize && is_returned_block(reps[1], block)
                ||| reps.len() == 1 && reps[0] is FatalError
            }
            &&& E::obeys_call_log() ==> {
                &&& calls.len() == 1
                &&& calls[0] matches EncoderCall::Encode(chans, res)
                &&& chans == block.spec_channels()
                &&& encode_reply(res, reps, block)
            }
        },
        ClientToServerMsg::FinishFile | ClientToServerMsg::DiscardFile => {
            &&& reps.len() == 1
            &&& (reps[0] is Finished || reps[0] is FatalError)
            &&& E::obeys_call_log() ==> {
                &&& calls.len() == 1
                &&& match calls[0] {
                    EncoderCall::FinishFile(res) => msg is FinishFile && finish_reply(res, reps),
                    EncoderCall::DiscardFile(res) => msg is DiscardFile && finish_reply(res, reps),
                    _ => false,
                }
            }
        },
        ClientToServerMsg::DiscardAndRestart => {
            &&& (reps.len() == 0 || (reps.len() == 1 && reps[0] is FatalError))
            &&& E::obeys_call_log() ==> {
                &&& calls.len() == 1
                &&& calls[0] matches EncoderCall::DiscardAndRestart(res)
                &&& match res {
                    Ok(_) => reps.len() == 0,
                    Err(e) => reps == seq![ServerToClientMsg::<E>::FatalError(e)],
                }
            }
        },
    }
}

/// The restart count after the messages `msgs`, from `rc`: each restart
/// adds one, wrapping around.
pub open spec fn restart_count_after<E: Encoder>(rc: usize, msgs: Seq<ClientToServerMsg<E>>) -> usize
    decreases msgs.len(),
{
    if msgs.len() == 0 {
        rc
    } else {
        let before = restart_count_after(rc, msgs.drop_last());
        if msgs.last() is DiscardAndRestart {
            if before == usize::MAX {
                0
            } else {
                (before + 1) as usize
            }
        } else {
            before
        }
    }
}

/// Finishing the file after calls `b` that began with `a` and did not
/// finish it finishes it once, as the last call.
proof fn lemma_finished_once<T, E>(a: Seq<EncoderCall<T, E>>, b: Seq<EncoderCall<T, E>>, c: Seq<EncoderCall<T, E>>)
    requires
        a.is_prefix_of(b),
        forall|k: int| a.len() <= k < b.len() ==> !(#[trigger] b[k] is FinishFile),
        c.len() == b.len() + 1,
        c.drop_last() == b,
        c.last() is FinishFile,
    ensures
        a.is_prefix_of(c),
        c.len() > a.len(),
        forall|k: int| a.len() <= k < c.len() - 1 ==> !(#[trigger] c[k] is FinishFile),
{
    assert forall|k: int| a.len() <= k < c.len() - 1 implies !(#[trigger] c[k] is FinishFile) by {
        assert(c[k] == b[k]);
    }
    assert(a =~= c.subrange(0, a.len() as int)) by {
        assert(forall|k: int| 0 <= k < a.len() ==> c[k] == b[k]);
    }
}

/// The IO server of a write stream. The thread that owns it calls
/// [`WriteServer::step`] until it returns [`ServerStatus::Closed`], sleeping
/// for the poll interval whenever it returns [`ServerStatus::Idle`].
#[verifier::reject_recursive_types(E)]
pub struct WriteServer<E: Encoder> {
    to_client_tx: channel::Sender<ServerToClientMsg<E>>,
    from_client_rx: channel::Receiver<ClientToServerMsg<E>>,
    close_signal_rx: rtrb::Consumer<Option<HeapData<E::T>>>,
    encoder: E,
    restart_count: usize,
    file_finished: bool,
    fatal_error: bool,
    run: bool,
    client_closed: bool,
    /// Replies waiting for room in the channel to the stream; the next one
    /// to send is the last.
    pending: Vec<ServerToClientMsg<E>>,
}

impl<E: Encoder> WriteServer<E> {
    pub closed spec fn spec_restart_count(self) -> usize {
        self.restart_count
    }

    pub closed spec fn spec_file_finished(self) -> bool {
        self.file_finished
    }

    pub closed spec fn spec_fatal_error(self) -> bool {
        self.fatal_error
    }

    pub closed spec fn spec_run(self) -> bool {
        self.run
    }

    pub closed spec fn spec_client_closed(self) -> bool {
        self.client_closed
    }

    /// The replies still waiting to be sent, in the order they go out.
    pub closed spec fn spec_pending(self) -> Seq<ServerToClientMsg<E>> {
        self.pending@.reverse()
    }

    pub closed spec fn spec_encoder(self) -> E {
        self.encoder
    }

    /// The calls made on the encoder so far, in order.
    pub closed spec fn spec_encoder_calls(self) -> Seq<EncoderCall<E::T, E::FatalError>> {
        self.encoder.spec_calls()
    }

    /// The replies accepted by the channel to the stream so far, in order.
    pub closed spec fn spec_sent(self) -> Seq<ServerToClientMsg<E>> {
        self.to_client_tx.spec_sent()
    }

    /// The messages taken from the channel from the stream so far, in order.
    pub closed spec fn spec_received(self) -> Seq<ClientToServerMsg<E>> {
        self.from_client_rx.spec_received()
    }

    pub closed spec fn wf(self) -> bool {
        &&& self.client_closed ==> !self.run && self.pending@.len() == 0
        &&& !self.run ==> self.file_finished || self.fatal_error || self.client_closed
        &&& self.run ==> !self.file_finished && !self.fatal_error
    }

    /// A server for a stream whose file `encoder` has opened.
    pub fn new(
        encoder: E,
        to_client_tx: rtrb::Producer<ServerToClientMsg<E>>,
        from_client_rx: rtrb::Consumer<ClientToServerMsg<E>>,
        close_signal_rx: rtrb::Consumer<Option<HeapData<E::T>>>,
    ) -> (s: Self)
        ensures
            s.wf(),
            s.spec_run(),
            !s.spec_client_closed(),
            !s.spec_file_finished(),
            !s.spec_fatal_error(),
            s.spec_restart_count() == 0,
            s.spec_pending().len() == 0,
            s.spec_encoder() == encoder,
            s.spec_encoder_calls() == encoder.spec_calls(),
            s.spec_sent() == Seq::<ServerToClientMsg<E>>::empty(),
            s.spec_received() == Seq::<ClientToServerMsg<E>>::empty(),
    {
        WriteServer {
            to_client_tx: channel::Sender::new(to_client_tx),
            from_client_rx: channel::Receiver::new(from_client_rx),
            close_signal_rx,
            encoder,
            restart_count: 0,
            file_finished: false,
            fatal_error: false,
            run: true,
            client_closed: false,
            pending: Vec::new(),
        }
    }

    /// Does what the stream asks in `msg`, and returns the replies in the
    /// order they are to be sent.
    pub fn handle_msg(&mut self, msg: ClientToServerMsg<E>) -> (r: Vec<ServerToClientMsg<E>>)
        ensures
            final(self).spec_received() == old(self).spec_received(),
            final(self).spec_client_closed() == old(self).spec_client_closed(),
            final(self).spec_pending() == old(self).spec_pending(),
            final(self).spec_sent() == old(self).spec_sent(),
            match msg {
                ClientToServerMsg::WriteBlock { block } => if block.spec_restart_count()
                    != old(self).spec_restart_count() {
                    // A block of a discarded take is only handed back.
                    &&& final(self).spec_encoder() == old(self).spec_encoder()
                    &&& final(self).same_flags(*old(self))
                    &&& r@.len() == 1
                    &&& is_returned_block(r@[0], block)
                } else {
                    &&& final(self).spec_restart_count() == old(self).spec_restart_count()
                    &&& final(self).spec_file_finished() == old(self).spec_file_finished()
                    &&& ((final(self).spec_run() == old(self).spec_run() && final(self).spec_fatal_error()
                        == old(self).spec_fatal_error() && ((r@.len() == 1 && is_returned_block(r@[0], block)) || (
                    r@.len() == 2 && r@[0] is ReachedMaxSize && is_returned_block(r@[1], block)))) || (
                    final(self).spec_fatal_error() && !final(self).spec_run() && r@.len() == 1 && r@[0] is FatalError))
                    // The block is encoded, and the reply is what the encoder answered.
                    &&& E::obeys_call_log() ==> {
                        &&& final(self).spec_encoder_calls().len() == old(self).spec_encoder_calls().len() + 1
                        &&& final(self).spec_encoder_calls().drop_last() == old(self).spec_encoder_calls()
                        &&& final(self).spec_encoder_calls().last() matches EncoderCall::Encode(chans, res)
                        &&& chans == block.spec_channels()
                        &&& encode_reply(res, r@, block)
                        &&& res is Err ==> final(self).spec_fatal_error() && !final(self).spec_run()
                    }
                },
                ClientToServerMsg::FinishFile | ClientToServerMsg::DiscardFile => {
                    &&& r@.len() == 1
                    &&& ((r@[0] is Finished && final(self).spec_fatal_error() == old(self).spec_fatal_error())
                        || (r@[0] is FatalError && final(self).spec_fatal_error()))
                    // The file is finished or discarded, and the reply is what the
                    // encoder answered.
                    &&& E::obeys_call_log() ==> {
                        &&& final(self).spec_encoder_calls().len() == old(self).spec_encoder_calls().len() + 1
                        &&& final(self).spec_encoder_calls().drop_last() == old(self).spec_encoder_calls()
                        &&& match final(self).spec_encoder_calls().last() {
                            EncoderCall::FinishFile(res) => msg is FinishFile && finish_reply(res, r@),
                            EncoderCall::DiscardFile(res) => msg is DiscardFile && finish_reply(res, r@),
                            _ => false,
                        }
                    }
                    &&& final(self).spec_restart_count() == old(self).spec_restart_count()
                    &&& final(self).spec_file_finished()
                    &&& !final(self).spec_run()
                },
                ClientToServerMsg::DiscardAndRestart => {
                    &&& ((final(self).spec_run() == old(self).spec_run() && final(self).spec_fatal_error()
                        == old(self).spec_fatal_error() && r@.len() == 0) || (final(self).spec_fatal_error()
                        && !final(self).spec_run() && r@.len() == 1 && r@[0] is FatalError))
                    &&& E::obeys_call_log() ==> {
                        &&& final(self).spec_encoder_calls().len() == old(self).spec_encoder_calls().len() + 1
                        &&& final(self).spec_encoder_calls().drop_last() == old(self).spec_encoder_calls()
                        &&& final(self).spec_encoder_calls().last() matches EncoderCall::DiscardAndRestart(res)
                        &&& match res {
                            Ok(_) => r@.len() == 0,
                            Err(e) => r@ == seq![ServerToClientMsg::<E>::FatalError(e)],
                        }
                    }
                    &&& final(self).spec_restart_count() == (if old(self).spec_restart_count() == usize::MAX {
                        0
                    } else {
                        old(self).spec_restart_count() + 1
                    })
                    &&& final(self).spec_file_finished() == old(self).spec_file_finished()
                },
            },
    {
        match msg {
            ClientToServerMsg::WriteBlock { mut block } => {
                let mut replies: Vec<ServerToClientMsg<E>> = Vec::new();
                // Don't use this block if it is from a previous discarded stream.
                if block.restart_count() != self.restart_count {
                    // Clear and send block to be re-used by client.
                    block.clear();
                    replies.push(ServerToClientMsg::NewWriteBlock { block });
                } else {
                    let res = self.encoder.encode(&block);
                    match res {
                        Ok(status) => {
                            if let WriteStatus::ReachedMaxSize { num_files } = status {
                                replies.push(ServerToClientMsg::ReachedMaxSize { num_files });
                            }
                            // Clear and send block to be re-used by client.
                            block.clear();
                            replies.push(ServerToClientMsg::NewWriteBlock { block });
                        },
                        Err(e) => {
                            replies.push(ServerToClientMsg::FatalError(e));
                            self.fatal_error = true;
                            self.run = false;
                        },
                    }
                }
                replies
            },
            ClientToServerMsg::FinishFile => {
                let mut replies: Vec<ServerToClientMsg<E>> = Vec::new();
                let res = self.encoder.finish_file();
                match res {
                    Ok(()) => replies.push(ServerToClientMsg::Finished),
                    Err(e) => {
                        replies.push(ServerToClientMsg::FatalError(e));
                        self.fatal_error = true;
                    },
                }
                self.file_finished = true;
                self.run = false;
                replies
            },
            ClientToServerMsg::DiscardFile => {
                let mut replies: Vec<ServerToClientMsg<E>> = Vec::new();
                let res = self.encoder.discard_file();
                match res {
                    Ok(()) => replies.push(ServerToClientMsg::Finished),
                    Err(e) => {
                        replies.push(ServerToClientMsg::FatalError(e));
                        self.fatal_error = true;
                    },
                }
                self.file_finished = true;
                self.run = false;
                replies
            },
            ClientToServerMsg::DiscardAndRestart => {
                let mut replies: Vec<ServerToClientMsg<E>> = Vec::new();
                self.restart_count = self.restart_count.wrapping_add(1);
                let res = self.encoder.discard_and_restart();
                match res {
                    Ok(()) => {},
                    Err(e) => {
                        replies.push(ServerToClientMsg::FatalError(e));
                        self.fatal_error = true;
                        self.run = false;
                    },
                }
                replies
            },
        }
    }

    /// The flags and the restart count are those of `other`.
    pub closed spec fn same_flags(self, other: Self) -> bool {
        &&& self.restart_count == other.restart_count
        &&& self.file_finished == other.file_finished
        &&& self.fatal_error == other.fatal_error
        &&& self.run == other.run
        &&& self.client_closed == other.client_closed
        &&& self.from_client_rx == other.from_client_rx
    }
}

impl<E: Encoder> WriteServer<E> {
    /// Everything but the channels and the queued replies is unchanged.
    pub closed spec fn same_but_channels(self, other: Self) -> bool {
        &&& self.same_flags(other)
        &&& self.encoder == other.encoder
    }

    /// Sends the queued replies in order while there is room; returns
    /// whether none is left.
    fn deliver_pending(&mut self) -> (r: bool)
        ensures
            final(self).same_but_channels(*old(self)),
            r == (final(self).pending@.len() == 0),
            is_suffix_of(final(self).spec_pending(), old(self).spec_pending()),
            final(self).spec_sent() + final(self).spec_pending() == old(self).spec_sent() + old(self).spec_pending(),
            old(self).spec_sent().is_prefix_of(final(self).spec_sent()),
    {
        channel::send_queued(&mut self.to_client_tx, &mut self.pending)
    }

    /// Sends `replies` in order after any reply still queued; those there is
    /// no room for are queued. Replies made after the server stopped are not
    /// sent: `running` says whether it was running when they were made.
    fn send_all(&mut self, running: bool, replies: Vec<ServerToClientMsg<E>>)
        ensures
            final(self).same_but_channels(*old(self)),
            !running ==> final(self).pending == old(self).pending,
            running ==> is_suffix_of(final(self).spec_pending(), old(self).spec_pending() + replies@),
            running ==> final(self).spec_sent() + final(self).spec_pending() == old(self).spec_sent()
                + old(self).spec_pending() + replies@,
            !running ==> final(self).spec_sent() == old(self).spec_sent(),
            old(self).spec_sent().is_prefix_of(final(self).spec_sent()),
    {
        if running {
            channel::send_in_order(&mut self.to_client_tx, &mut self.pending, replies);
        }
    }
}

impl<E: Encoder> WriteServer<E> {
    /// Stops serving because the stream has closed, finishing the file if it
    /// was neither finished nor failed.
    fn close(&mut self)
        ensures
            final(self).client_closed,
            !final(self).run,
            final(self).pending@.len() == 0,
            final(self).restart_count == old(self).restart_count,
            final(self).fatal_error == old(self).fatal_error,
            final(self).file_finished == old(self).file_finished,
            old(self).file_finished || old(self).fatal_error ==> final(self).encoder == old(self).encoder,
            old(self).file_finished || old(self).fatal_error ==> final(self).encoder.spec_calls()
                == old(self).encoder.spec_calls(),
            E::obeys_call_log() && !(old(self).file_finished || old(self).fatal_error) ==> {
                &&& final(self).encoder.spec_calls().len() == old(self).encoder.spec_calls().len() + 1
                &&& final(self).encoder.spec_calls().drop_last() == old(self).encoder.spec_calls()
                &&& final(self).encoder.spec_calls().last() is FinishFile
            },
            final(self).to_client_tx == old(self).to_client_tx,
            final(self).from_client_rx == old(self).from_client_rx,
    {
        self.run = false;
        self.client_closed = true;
        self.pending.clear();
        // Attempt to finish the file if it was not already.
        if !self.file_finished && !self.fatal_error {
            let _ = self.encoder.finish_file();
        }
    }

    /// Between `self` and `after` the server took the messages that came
    /// after those it had taken before and handled each of them as
    /// [`handled_as`] says, with the restart count the messages before it
    /// left, giving the replies `reps` and making the encoder calls `calls`.
    /// Unless the stream has closed, these replies went out in this order,
    /// after those that were waiting, and no other encoder call was made.
    pub open spec fn handled_round(
        self,
        after: Self,
        reps: Seq<Seq<ServerToClientMsg<E>>>,
        calls: Seq<Seq<EncoderCall<E::T, E::FatalError>>>,
    ) -> bool {
        let msgs = after.spec_received().skip(self.spec_received().len() as int);
        &&& self.spec_received().is_prefix_of(after.spec_received())
        &&& reps.len() == msgs.len()
        &&& calls.len() == msgs.len()
        &&& forall|i: int|
            0 <= i < msgs.len() ==> handled_as::<E>(
                #[trigger] msgs[i],
                restart_count_after(self.spec_restart_count(), msgs.take(i)),
                reps[i],
                calls[i],
            )
        &&& after.spec_restart_count() == restart_count_after(self.spec_restart_count(), msgs)
        &&& !after.spec_client_closed() ==> after.spec_sent() + after.spec_pending() == self.spec_sent()
            + self.spec_pending() + reps.flatten()
        &&& E::obeys_call_log() ==> (self.spec_encoder_calls() + calls.flatten()).is_prefix_of(
            after.spec_encoder_calls(),
        )
        &&& E::obeys_call_log() && !after.spec_client_closed() ==> after.spec_encoder_calls()
            == self.spec_encoder_calls() + calls.flatten()
    }

    proof fn lemma_round(
        self,
        after: Self,
        msgs: Seq<ClientToServerMsg<E>>,
        reps: Seq<Seq<ServerToClientMsg<E>>>,
        calls: Seq<Seq<EncoderCall<E::T, E::FatalError>>>,
    )
        requires
            after.spec_received() == self.spec_received() + msgs,
            reps.len() == msgs.len(),
            calls.len() == msgs.len(),
            forall|i: int|
                0 <= i < msgs.len() ==> handled_as::<E>(
                    #[trigger] msgs[i],
                    restart_count_after(self.spec_restart_count(), msgs.take(i)),
                    reps[i],
                    calls[i],
                ),
            after.spec_restart_count() == restart_count_after(self.spec_restart_count(), msgs),
            !after.spec_client_closed() ==> after.spec_sent() + after.spec_pending() == self.spec_sent()
                + self.spec_pending() + reps.flatten(),
            E::obeys_call_log() ==> (self.spec_encoder_calls() + calls.flatten()).is_prefix_of(
                after.spec_encoder_calls(),
            ),
            E::obeys_call_log() && !after.spec_client_closed() ==> after.spec_encoder_calls()
                == self.spec_encoder_calls() + calls.flatten(),
        ensures
            self.handled_round(after, reps, calls),
    {
        assert(after.spec_received().skip(self.spec_received().len() as int) =~= msgs);
        assert(after.spec_received().subrange(0, self.spec_received().len() as int) =~= self.spec_received());
    }

    /// The round took no message and made no encoder call; unless the stream
    /// has closed, nothing new was sent.
    proof fn lemma_quiet_round(self, after: Self)
        requires
            after.spec_received() == self.spec_received(),
            after.spec_restart_count() == self.spec_restart_count(),
            !after.spec_client_closed() ==> after.spec_sent() + after.spec_pending() == self.spec_sent()
                + self.spec_pending(),
            after.spec_encoder_calls() == self.spec_encoder_calls(),
        ensures
            self.handled_round(after, Seq::empty(), Seq::empty()),
    {
        let msgs = Seq::<ClientToServerMsg<E>>::empty();
        let reps = Seq::<Seq<ServerToClientMsg<E>>>::empty();
        let calls = Seq::<Seq<EncoderCall<E::T, E::FatalError>>>::empty();
        assert(self.spec_received() + msgs =~= self.spec_received());
        assert(self.spec_sent() + self.spec_pending() + reps.flatten() =~= self.spec_sent() + self.spec_pending());
        let c = self.spec_encoder_calls() + calls.flatten();
        assert(c =~= self.spec_encoder_calls());
        assert(c.subrange(0, c.len() as int) =~= c);
        self.lemma_round(after, msgs, reps, calls);
    }

    /// What a step guarantees of the flags and of the encoder calls: a closed
    /// server, or one whose file is finished or failed, makes no call; the
    /// flags only go from false to true; for an encoder that logs its calls,
    /// calls are only added, the file is not finished while it is neither
    /// finished nor the stream closed, and when the stream closes with the
    /// file neither finished nor failed, the file is finished once, as the
    /// last call.
    pub open spec fn stepped(self, after: Self) -> bool {
        let (c0, c) = (self.spec_encoder_calls(), after.spec_encoder_calls());
        &&& self.spec_client_closed() ==> after.spec_client_closed() && c == c0
        &&& self.spec_file_finished() || self.spec_fatal_error() ==> c == c0
        &&& self.spec_file_finished() ==> after.spec_file_finished()
        &&& self.spec_fatal_error() ==> after.spec_fatal_error()
        &&& E::obeys_call_log() ==> c0.is_prefix_of(c)
        &&& E::obeys_call_log() && !after.spec_client_closed() && !after.spec_file_finished() ==> forall|k: int|
            c0.len() <= k < c.len() ==> !(#[trigger] c[k] is FinishFile)
        &&& E::obeys_call_log() && !self.spec_client_closed() && after.spec_client_closed()
            && !after.spec_file_finished() && !after.spec_fatal_error() ==> {
            &&& c.len() > c0.len()
            &&& c.last() is FinishFile
            &&& forall|k: int| c0.len() <= k < c.len() - 1 ==> !(#[trigger] c[k] is FinishFile)
        }
    }

    /// Calls `a`, extended to `b`, then to `c`: when `b` holds no finish of
    /// the file after `a`, nor `c` after `b` up to `end`, then `c` holds none
    /// after `a` up to `end`.
    proof fn lemma_no_finish_trans(
        a: Seq<EncoderCall<E::T, E::FatalError>>,
        b: Seq<EncoderCall<E::T, E::FatalError>>,
        c: Seq<EncoderCall<E::T, E::FatalError>>,
        end: int,
    )
        requires
            a.is_prefix_of(b),
            b.is_prefix_of(c),
            b.len() <= end <= c.len(),
            forall|k: int| a.len() <= k < b.len() ==> !(#[trigger] b[k] is FinishFile),
            forall|k: int| b.len() <= k < end ==> !(#[trigger] c[k] is FinishFile),
        ensures
            a.is_prefix_of(c),
            forall|k: int| a.len() <= k < end ==> !(#[trigger] c[k] is FinishFile),
    {
        lemma_prefix_trans(a, b, c);
        assert forall|k: int| a.len() <= k < end implies !(#[trigger] c[k] is FinishFile) by {
            if k < b.len() {
                assert(c[k] == b[k]);
            }
        }
    }

    /// A server never finished nor failed at the end of a run of steps was
    /// never finished nor failed before it.
    proof fn lemma_run_unfinished(runs: Seq<Self>, i: int)
        requires
            0 <= i < runs.len(),
            forall|j: int| 0 <= j < runs.len() - 1 ==> #[trigger] runs[j].stepped(runs[j + 1]),
            !runs.last().spec_file_finished(),
            !runs.last().spec_fatal_error(),
        ensures
            !runs[i].spec_file_finished(),
            !runs[i].spec_fatal_error(),
        decreases runs.len() - i,
    {
        if i < runs.len() - 1 {
            Self::lemma_run_unfinished(runs, i + 1);
            assert(runs[i].stepped(runs[i + 1]));
        }
    }

    /// The encoder calls of the first `n` states of a run that starts open.
    proof fn lemma_run_calls(runs: Seq<Self>, n: int)
        requires
            E::obeys_call_log(),
            1 <= n <= runs.len(),
            forall|j: int| 0 <= j < runs.len() - 1 ==> #[trigger] runs[j].stepped(runs[j + 1]),
            !runs[0].spec_client_closed(),
            !runs.last().spec_file_finished(),
            !runs.last().spec_fatal_error(),
        ensures
            ({
                let c0 = runs[0].spec_encoder_calls();
                let c = runs[n - 1].spec_encoder_calls();
                &&& c0.is_prefix_of(c)
                &&& !runs[n - 1].spec_client_closed() ==> forall|k: int|
                    c0.len() <= k < c.len() ==> !(#[trigger] c[k] is FinishFile)
                &&& runs[n - 1].spec_client_closed() ==> {
                    &&& c.len() > c0.len()
                    &&& c.last() is FinishFile
                    &&& forall|k: int| c0.len() <= k < c.len() - 1 ==> !(#[trigger] c[k] is FinishFile)
                }
            }),
        decreases n,
    {
        let c0 = runs[0].spec_encoder_calls();
        if n == 1 {
            assert(c0.subrange(0, c0.len() as int) =~= c0);
        } else {
            Self::lemma_run_calls(runs, n - 1);
            let j = n - 2;
            assert(runs[j].stepped(runs[j + 1]));
            let b = runs[j];
            let a = runs[j + 1];
            Self::lemma_run_unfinished(runs, n - 1);
            let cb = b.spec_encoder_calls();
            let ca = a.spec_encoder_calls();
            if b.spec_client_closed() {
                assert(ca == cb);
            } else if !a.spec_client_closed() {
                Self::lemma_no_finish_trans(c0, cb, ca, ca.len() as int);
            } else {
                Self::lemma_no_finish_trans(c0, cb, ca, ca.len() - 1);
            }
        }
    }

    /// Run, step after step, until the stream closes with the file neither
    /// finished nor failed, the server finishes the file exactly once: as
    /// its last encoder call.
    pub proof fn law_finished_once(runs: Seq<Self>)
        requires
            E::obeys_call_log(),
            runs.len() >= 1,
            forall|j: int| 0 <= j < runs.len() - 1 ==> #[trigger] runs[j].stepped(runs[j + 1]),
            !runs[0].spec_client_closed(),
            runs.last().spec_client_closed(),
            !runs.last().spec_file_finished(),
            !runs.last().spec_fatal_error(),
        ensures
            runs[0].spec_encoder_calls().is_prefix_of(runs.last().spec_encoder_calls()),
            runs.last().spec_encoder_calls().len() > runs[0].spec_encoder_calls().len(),
            runs.last().spec_encoder_calls().last() is FinishFile,
            forall|k: int|
                runs[0].spec_encoder_calls().len() <= k < runs.last().spec_encoder_calls().len() - 1
                    ==> !(#[trigger] runs.last().spec_encoder_calls()[k] is FinishFile),
    {
        Self::lemma_run_calls(runs, runs.len() as int);
    }

    /// Does one round of the server's work: sends the replies still queued,
    /// then handles the messages the stream has sent, and checks whether the
    /// stream has closed.
    ///
    /// Once the server has stopped (the file was finished or discarded, or
    /// an error occurred), it only waits for the stream to close.
    pub fn step(&mut self) -> (r: ServerStatus)
        requires
            old(self).wf(),
        ensures
            final(self).wf(),
            old(self).spec_client_closed() ==> r == ServerStatus::Closed && final(self).same_but_channels(
                *old(self),
            ),
            (r == ServerStatus::Closed) == final(self).spec_client_closed(),
            !old(self).spec_run() ==> !final(self).spec_run(),
            old(self).spec_fatal_error() ==> final(self).spec_fatal_error(),
            old(self).spec_file_finished() ==> final(self).spec_file_finished(),
            final(self).spec_pending().len() > 0 ==> r == ServerStatus::Idle,
            !old(self).spec_run() && !old(self).spec_client_closed() && old(self).spec_pending().len() == 0
                ==> final(self).same_flags_but_closed(*old(self)),
            !old(self).spec_run() ==> final(self).spec_encoder() == old(self).spec_encoder(),
            old(self).spec_file_finished() || old(self).spec_fatal_error() ==> final(self).spec_encoder_calls()
                == old(self).spec_encoder_calls(),
            E::obeys_call_log() ==> old(self).spec_encoder_calls().is_prefix_of(final(self).spec_encoder_calls()),
            // When the stream closes with the file neither finished nor failed,
            // the file is finished, once, as the last call.
            E::obeys_call_log() && !old(self).spec_client_closed() && final(self).spec_client_closed()
                && !final(self).spec_file_finished() && !final(self).spec_fatal_error() ==> {
                &&& final(self).spec_encoder_calls().len() > old(self).spec_encoder_calls().len()
                &&& final(self).spec_encoder_calls().last() is FinishFile
                &&& forall|k: int|
                    old(self).spec_encoder_calls().len() <= k < final(self).spec_encoder_calls().len() - 1
                        ==> !(#[trigger] final(self).spec_encoder_calls()[k] is FinishFile)
            },
            // While the file is neither finished nor the stream closed, the file
            // is not finished.
            E::obeys_call_log() && !final(self).spec_client_closed() && !final(self).spec_file_finished()
                ==> forall|k: int|
                old(self).spec_encoder_calls().len() <= k < final(self).spec_encoder_calls().len()
                    ==> !(#[trigger] final(self).spec_encoder_calls()[k] is FinishFile),
            old(self).stepped(*final(self)),
            old(self).spec_sent().is_prefix_of(final(self).spec_sent()),
            // Every message taken is handled, and its replies go out in order.
            exists|reps: Seq<Seq<ServerToClientMsg<E>>>, calls: Seq<Seq<EncoderCall<E::T, E::FatalError>>>|
                #[trigger] old(self).handled_round(*final(self), reps, calls),
    {
        let ghost o = *self;
        if self.client_closed {
            proof { o.lemma_quiet_round(*self); }
            return ServerStatus::Closed;
        }
        if !self.deliver_pending() {
            // Wait for room, unless the stream has closed.
            if channel::pop(&mut self.close_signal_rx).is_none() {
                proof { o.lemma_quiet_round(*self); }
                return ServerStatus::Idle;
            }
            if self.file_finished || self.fatal_error {
                self.close();
                proof { o.lemma_quiet_round(*self); }
                return ServerStatus::Closed;
            }
            // The messages the stream sent before closing are still handled
            // (nothing is sent back any more), then the file is finished.
            self.run = false;
            self.client_closed = true;
            self.pending.clear();
        }
        if !self.run && !self.client_closed {
            // Wait until the stream closes before ending.
            if channel::pop(&mut self.close_signal_rx).is_some() {
                self.close();
                proof { o.lemma_quiet_round(*self); }
                return ServerStatus::Closed;
            }
            proof { o.lemma_quiet_round(*self); }
            return ServerStatus::Idle;
        }
        let ghost obeys = E::obeys_call_log();
        let ghost mut msgs: Seq<ClientToServerMsg<E>> = Seq::empty();
        let ghost mut reps: Seq<Seq<ServerToClientMsg<E>>> = Seq::empty();
        let ghost mut calls: Seq<Seq<EncoderCall<E::T, E::FatalError>>> = Seq::empty();
        proof {
            assert(self.spec_received() =~= old(self).spec_received() + msgs);
            assert(old(self).spec_sent() + old(self).spec_pending() + reps.flatten() =~= old(self).spec_sent()
                + old(self).spec_pending());
            assert(self.encoder.spec_calls() =~= old(self).encoder.spec_calls() + calls.flatten());
        }
        let available = self.from_client_rx.available();
        let mut k: usize = 0;
        while k < available
            invariant
                self.wf(),
                E::obeys_call_log() ==> old(self).encoder.spec_calls().is_prefix_of(self.encoder.spec_calls()),
                E::obeys_call_log() && !self.file_finished ==> forall|k: int|
                    old(self).encoder.spec_calls().len() <= k < self.encoder.spec_calls().len()
                        ==> !(#[trigger] self.encoder.spec_calls()[k] is FinishFile),
                old(self).spec_sent().is_prefix_of(self.spec_sent()),
                !old(self).file_finished,
                !old(self).fatal_error,
                self.run || self.client_closed,
                !old(self).client_closed,
                old(self).run,
                self.pending@.len() == 0,
                old(self).fatal_error ==> self.fatal_error,
                old(self).file_finished ==> self.file_finished,
                o == *old(self),
                obeys == E::obeys_call_log(),
                self.spec_received() == old(self).spec_received() + msgs,
                reps.len() == msgs.len(),
                calls.len() == msgs.len(),
                forall|i: int|
                    0 <= i < msgs.len() ==> handled_as::<E>(
                        #[trigger] msgs[i],
                        restart_count_after(old(self).restart_count, msgs.take(i)),
                        reps[i],
                        calls[i],
                    ),
                self.restart_count == restart_count_after(old(self).restart_count, msgs),
                !self.client_closed ==> self.spec_sent() + self.spec_pending() == old(self).spec_sent()
                    + old(self).spec_pending() + reps.flatten(),
                obeys ==> self.encoder.spec_calls() == old(self).encoder.spec_calls() + calls.flatten(),
            decreases available - k,
        {
            k += 1;
            let msg = match self.from_client_rx.pop() {
                Some(msg) => msg,
                None => break,
            };
            let ghost m = msg;
            let ghost rc0 = self.restart_count;
            let was_running = self.run;
            let stopped_before = self.file_finished || self.fatal_error;
            let ghost sent0 = self.spec_sent();
            let ghost calls0 = self.encoder.spec_calls();
            let replies = self.handle_msg(msg);
            proof {
              if E::obeys_call_log() {
                let c = self.encoder.spec_calls();
                assert(forall|j: int| 0 <= j < calls0.len() ==> c[j] == calls0[j]) by {
                    if c.len() > calls0.len() {
                        assert(c.drop_last() == calls0);
                    }
                }
                lemma_prefix_trans(old(self).encoder.spec_calls(), calls0, c);
                if !self.file_finished {
                    assert forall|j: int|
                        old(self).encoder.spec_calls().len() <= j < c.len() implies !(#[trigger] c[j] is FinishFile) by {
                        if j < calls0.len() {
                            assert(c[j] == calls0[j]);
                        }
                    }
                }
              }
            }
            proof {
                let step_calls = self.encoder.spec_calls().skip(calls0.len() as int);
                match m {
                    ClientToServerMsg::WriteBlock { block } => {
                        if block.spec_restart_count() != rc0 {
                            assert(step_calls =~= Seq::<EncoderCall<E::T, E::FatalError>>::empty());
                        } else if obeys {
                            assert(self.encoder.spec_calls() =~= calls0.push(self.encoder.spec_calls().last()));
                        }
                    },
                    _ => {
                        if obeys {
                            assert(self.encoder.spec_calls() =~= calls0.push(self.encoder.spec_calls().last()));
                        }
                    },
                }
                if obeys {
                    assert(self.encoder.spec_calls() =~= calls0 + step_calls);
                    assert(calls0 + step_calls =~= old(self).encoder.spec_calls() + calls.push(step_calls).flatten())
                        by {
                        calls.lemma_flatten_push(step_calls);
                    }
                }
                assert(handled_as::<E>(m, rc0, replies@, step_calls));
                let msgs2 = msgs.push(m);
                assert(msgs2.take(msgs.len() as int) =~= msgs);
                assert(msgs2.drop_last() =~= msgs);
                assert forall|i: int| 0 <= i < msgs2.len() implies handled_as::<E>(
                    #[trigger] msgs2[i],
                    restart_count_after(old(self).restart_count, msgs2.take(i)),
                    reps.push(replies@)[i],
                    calls.push(step_calls)[i],
                ) by {
                    if i < msgs.len() {
                        assert(msgs2.take(i) =~= msgs.take(i));
                        assert(msgs2[i] == msgs[i]);
                    }
                }
                reps.lemma_flatten_push(replies@);
                assert(self.spec_received() =~= old(self).spec_received() + msgs2);
                msgs = msgs2;
                reps = reps.push(replies@);
                calls = calls.push(step_calls);
            }
            self.send_all(was_running, replies);
            proof {
                lemma_prefix_trans(old(self).spec_sent(), sent0, self.spec_sent());
                if !self.client_closed {
                    assert(self.spec_sent() + self.spec_pending() =~= old(self).spec_sent()
                        + old(self).spec_pending() + reps.flatten());
                }
            }
            if self.pending.len() > 0 {
                // Wait for room in the channel.
                proof { o.lemma_round(*self, msgs, reps, calls); }
                return ServerStatus::Idle;
            }
            if (self.file_finished || self.fatal_error) && !stopped_before {
                proof { o.lemma_round(*self, msgs, reps, calls); }
                if self.client_closed {
                    // The stream has closed already: nothing waits for this.
                    return ServerStatus::Closed;
                }
                return ServerStatus::Busy;
            }
        }
        let ghost calls1 = self.encoder.spec_calls();
        if self.client_closed {
            self.close();
            proof {
                if E::obeys_call_log() && !self.file_finished && !self.fatal_error {
                    lemma_finished_once(old(self).encoder.spec_calls(), calls1, self.encoder.spec_calls());
                }
                self.lemma_close_round(o, calls1, msgs, reps, calls);
            }
            return ServerStatus::Closed;
        }
        // Check for close signal.
        if channel::pop(&mut self.close_signal_rx).is_some() {
            self.close();
            proof {
                if E::obeys_call_log() && !self.file_finished && !self.fatal_error {
                    lemma_finished_once(old(self).encoder.spec_calls(), calls1, self.encoder.spec_calls());
                }
                self.lemma_close_round(o, calls1, msgs, reps, calls);
            }
            return ServerStatus::Closed;
        }
        proof { o.lemma_round(*self, msgs, reps, calls); }
        ServerStatus::Idle
    }

    /// Closing after the round's messages: the encoder calls so far, `c1`,
    /// are a prefix of those after closing.
    proof fn lemma_close_round(
        self,
        o: Self,
        c1: Seq<EncoderCall<E::T, E::FatalError>>,
        msgs: Seq<ClientToServerMsg<E>>,
        reps: Seq<Seq<ServerToClientMsg<E>>>,
        calls: Seq<Seq<EncoderCall<E::T, E::FatalError>>>,
    )
        requires
            self.client_closed,
            self.spec_received() == o.spec_received() + msgs,
            reps.len() == msgs.len(),
            calls.len() == msgs.len(),
            forall|i: int|
                0 <= i < msgs.len() ==> handled_as::<E>(
                    #[trigger] msgs[i],
                    restart_count_after(o.spec_restart_count(), msgs.take(i)),
                    reps[i],
                    calls[i],
                ),
            self.spec_restart_count() == restart_count_after(o.spec_restart_count(), msgs),
            E::obeys_call_log() ==> c1 == o.spec_encoder_calls() + calls.flatten(),
            E::obeys_call_log() ==> self.spec_encoder_calls() == c1 || (self.spec_encoder_calls().len() == c1.len()
                + 1 && self.spec_encoder_calls().drop_last() == c1),
        ensures
            o.handled_round(self, reps, calls),
    {
        if E::obeys_call_log() {
            let c = self.spec_encoder_calls();
            assert(c.subrange(0, c1.len() as int) =~= c1) by {
                if c.len() == c1.len() + 1 {
                    assert(c.drop_last() == c1);
                }
            }
        }
        o.lemma_round(self, msgs, reps, calls);
    }

    /// The flags of `self` are those of `other`, but for the stream having
    /// closed.
    pub closed spec fn same_flags_but_closed(self, other: Self) -> bool {
        &&& self.restart_count == other.restart_count
        &&& self.file_finished == other.file_finished
        &&& self.fatal_error == other.fatal_error
        &&& self.run == other.run
        &&& self.encoder == other.encoder
    }
}

} // verus!
