//! The realtime-safe message channels between a stream and its IO server,
//! provided by the `rtrb` crate.
//!
//! Each channel end may be used concurrently with the other end on another
//! thread, so nothing is stated of how full a channel is.
use vstd::prelude::*;

verus! {

#[verifier::external_type_specification]
#[verifier::external_body]
#[verifier::reject_recursive_types(T)]
pub struct ExProducer<T>(rtrb::Producer<T>);

#[verifier::external_type_specification]
#[verifier::external_body]
#[verifier::reject_recursive_types(T)]
pub struct ExConsumer<T>(rtrb::Consumer<T>);

/// Calls `rtrb::Producer::push`. When the queue is full the value is not
/// enqueued and `rtrb` hands it back (`PushError::Full(value)`); this
/// wrapper returns it as `Some`.
#[verifier::external_body]
pub(crate) fn push<T>(tx: &mut rtrb::Producer<T>, value: T) -> (r: Option<T>)
    ensures
        r matches Some(v) ==> v == value,
    opens_invariants none
    no_unwind
{
    match tx.push(value) {
        Ok(()) => None,
        Err(rtrb::PushError::Full(v)) => Some(v),
    }
}

/// Calls `rtrb::Producer::slots`: the number of free slots. Nothing is
/// stated of it, as the consumer on the other thread may free slots at any
/// time.
#[verifier::external_body]
pub(crate) fn slots<T>(tx: &rtrb::Producer<T>) -> usize {
    tx.slots()
}

/// Calls `rtrb::Producer::is_full`: whether no slot is free. Nothing is
/// stated of it, as the consumer on the other thread may free slots at any
/// time.
#[verifier::external_body]
pub(crate) fn is_full<T>(tx: &rtrb::Producer<T>) -> bool {
    tx.is_full()
}

/// Calls `rtrb::Consumer::pop`: the oldest message, if there is one.
/// Nothing is stated of it, as the messages come from the producer on the
/// other thread.
#[verifier::external_body]
pub(crate) fn pop<T>(rx: &mut rtrb::Consumer<T>) -> Option<T> {
    rx.pop().ok()
}

/// Calls `rtrb::Consumer::slots`: the number of messages ready to be
/// popped. Nothing is stated of it, as the producer on the other thread may
/// add messages at any time.
#[verifier::external_body]
pub(crate) fn available<T>(rx: &rtrb::Consumer<T>) -> usize {
    rx.slots()
}

/// Calls `rtrb::Consumer::is_empty`: whether no message is ready. Nothing
/// is stated of it, as the producer on the other thread may add messages at
/// any time.
#[verifier::external_body]
pub(crate) fn is_empty<T>(rx: &rtrb::Consumer<T>) -> bool {
    rx.is_empty()
}

/// The sending end of a channel, with a record of the messages handed to it
/// and of those it accepted.
#[verifier::reject_recursive_types(T)]
pub struct Sender<T> {
    tx: rtrb::Producer<T>,
    /// Every message handed to `push`, in order.
    handed: Ghost<Seq<T>>,
    /// The messages `push` accepted, in order: those the other end receives.
    sent: Ghost<Seq<T>>,
    /// What each look at whether the channel is full found, in order.
    looks: Ghost<Seq<bool>>,
    /// What each look at the number of free slots found, in order.
    slot_looks: Ghost<Seq<usize>>,
}

impl<T> Sender<T> {
    /// Every message handed to the channel, in order, whether or not there
    /// was room for it.
    pub closed spec fn spec_handed(self) -> Seq<T> {
        self.handed@
    }

    /// The messages the channel accepted, in order.
    pub closed spec fn spec_sent(self) -> Seq<T> {
        self.sent@
    }

    /// What each look at whether the channel is full (see
    /// [`Sender::look_full`]) found, in order.
    pub closed spec fn spec_looks(self) -> Seq<bool> {
        self.looks@
    }

    /// What each look at the number of free slots (see
    /// [`Sender::look_slots`]) found, in order.
    pub closed spec fn spec_slot_looks(self) -> Seq<usize> {
        self.slot_looks@
    }

    /// The sending end `tx`, with nothing handed to it yet.
    pub fn new(tx: rtrb::Producer<T>) -> (s: Self)
        ensures
            s.spec_handed() == Seq::<T>::empty(),
            s.spec_sent() == Seq::<T>::empty(),
            s.spec_looks() == Seq::<bool>::empty(),
            s.spec_slot_looks() == Seq::<usize>::empty(),
    {
        Sender {
            tx,
            handed: Ghost(Seq::empty()),
            sent: Ghost(Seq::empty()),
            looks: Ghost(Seq::empty()),
            slot_looks: Ghost(Seq::empty()),
        }
    }

    /// Hands `value` to the channel; returns it if there was no room.
    pub fn push(&mut self, value: T) -> (r: Option<T>)
        ensures
            final(self).spec_handed() == old(self).spec_handed().push(value),
            match r {
                None => final(self).spec_sent() == old(self).spec_sent().push(value),
                Some(v) => v == value && final(self).spec_sent() == old(self).spec_sent(),
            },
            final(self).spec_looks() == old(self).spec_looks(),
            final(self).spec_slot_looks() == old(self).spec_slot_looks(),
        opens_invariants none
        no_unwind
    {
        let ghost v = value;
        let r = push(&mut self.tx, value);
        proof {
            self.handed@ = self.handed@.push(v);
            if r is None {
                self.sent@ = self.sent@.push(v);
            }
        }
        r
    }

    /// The number of free slots (see [`slots`]).
    pub fn slots(&self) -> usize {
        slots(&self.tx)
    }

    /// The number of free slots (see [`slots`]), with what was found
    /// recorded among the looks at the slots.
    pub fn look_slots(&mut self) -> (r: usize)
        ensures
            final(self).spec_slot_looks() == old(self).spec_slot_looks().push(r),
            final(self).spec_looks() == old(self).spec_looks(),
            final(self).spec_handed() == old(self).spec_handed(),
            final(self).spec_sent() == old(self).spec_sent(),
    {
        let r = slots(&self.tx);
        proof {
            self.slot_looks@ = self.slot_looks@.push(r);
        }
        r
    }

    /// Whether no slot is free (see [`is_full`]).
    pub fn is_full(&self) -> bool {
        is_full(&self.tx)
    }

    /// Whether no slot is free (see [`is_full`]), with what was found
    /// recorded among the looks.
    pub fn look_full(&mut self) -> (r: bool)
        ensures
            final(self).spec_looks() == old(self).spec_looks().push(r),
            final(self).spec_slot_looks() == old(self).spec_slot_looks(),
            final(self).spec_handed() == old(self).spec_handed(),
            final(self).spec_sent() == old(self).spec_sent(),
    {
        let r = is_full(&self.tx);
        proof {
            self.looks@ = self.looks@.push(r);
        }
        r
    }
}

/// The receiving end of a channel, with a record of the messages taken
/// from it.
#[verifier::reject_recursive_types(T)]
pub struct Receiver<T> {
    rx: rtrb::Consumer<T>,
    /// The messages popped, in order.
    received: Ghost<Seq<T>>,
}

impl<T> Receiver<T> {
    /// The messages taken from the channel so far, in order.
    pub closed spec fn spec_received(self) -> Seq<T> {
        self.received@
    }

    /// The receiving end `rx`, with nothing taken from it yet.
    pub fn new(rx: rtrb::Consumer<T>) -> (s: Self)
        ensures
            s.spec_received() == Seq::<T>::empty(),
    {
        Receiver { rx, received: Ghost(Seq::empty()) }
    }

    /// The oldest message, if there is one (see [`pop`]).
    pub fn pop(&mut self) -> (r: Option<T>)
        ensures
            match r {
                Some(v) => final(self).spec_received() == old(self).spec_received().push(v),
                None => final(self).spec_received() == old(self).spec_received(),
            },
    {
        let r = pop(&mut self.rx);
        proof {
            if r is Some {
                self.received@ = self.received@.push(r->0);
            }
        }
        r
    }

    /// The number of messages ready (see [`available`]).
    pub fn available(&self) -> usize {
        available(&self.rx)
    }

    /// Whether no message is ready (see [`is_empty`]).
    pub fn is_empty(&self) -> bool {
        is_empty(&self.rx)
    }
}

/// A prefix of `b` is a prefix of whatever starts with `b`.
pub proof fn lemma_prefix_trans<A>(a: Seq<A>, b: Seq<A>, c: Seq<A>)
    requires
        a.is_prefix_of(b),
        b.is_prefix_of(c),
    ensures
        a.is_prefix_of(c),
{
    assert(a =~= c.subrange(0, a.len() as int));
}

/// `a` is what is left of `b` once a part of it from the front is gone.
pub open spec fn is_suffix_of<A>(a: Seq<A>, b: Seq<A>) -> bool {
    &&& a.len() <= b.len()
    &&& a == b.subrange(b.len() - a.len(), b.len() as int)
}

/// What is left after popping from the end of `b` is, read from the end, a
/// suffix of `b` read from the end.
proof fn lemma_prefix_reverse<A>(a: Seq<A>, b: Seq<A>)
    requires
        a.len() <= b.len(),
        a == b.subrange(0, a.len() as int),
    ensures
        is_suffix_of(a.reverse(), b.reverse()),
{
    assert(a.reverse() =~= b.reverse().subrange(b.len() - a.len(), b.len() as int));
}

/// Sends the messages queued in `queue` (the next one to send last) while
/// there is room; returns whether none is left.
pub(crate) fn send_queued<T>(tx: &mut Sender<T>, queue: &mut Vec<T>) -> (r: bool)
    ensures
        r == (final(queue)@.len() == 0),
        final(tx).spec_sent() + final(queue)@.reverse() == old(tx).spec_sent() + old(queue)@.reverse(),
        old(tx).spec_sent().is_prefix_of(final(tx).spec_sent()),
        final(queue)@.len() <= old(queue)@.len(),
        final(queue)@ == old(queue)@.subrange(0, final(queue)@.len() as int),
        is_suffix_of(final(queue)@.reverse(), old(queue)@.reverse()),
{
    while queue.len() > 0
        invariant
            queue@.len() <= old(queue)@.len(),
            queue@ == old(queue)@.subrange(0, queue@.len() as int),
            tx.spec_sent() + queue@.reverse() == old(tx).spec_sent() + old(queue)@.reverse(),
            old(tx).spec_sent().is_prefix_of(tx.spec_sent()),
        decreases queue@.len(),
    {
        if tx.is_full() {
            proof { lemma_prefix_reverse(queue@, old(queue)@); }
            return false;
        }
        let ghost q = queue@;
        let ghost s0 = tx.spec_sent();
        let msg = queue.pop().unwrap();
        proof {
            assert(q.reverse() =~= seq![msg] + queue@.reverse());
        }
        if let Some(msg) = tx.push(msg) {
            queue.push(msg);
            assert(queue@ =~= old(queue)@.subrange(0, queue@.len() as int));
            assert(queue@ =~= q);
            proof { lemma_prefix_reverse(queue@, old(queue)@); }
            return false;
        }
        proof {
            assert(s0.push(msg) + queue@.reverse() =~= s0 + (seq![msg] + queue@.reverse()));
        }
    }
    proof { lemma_prefix_reverse(queue@, old(queue)@); }
    true
}

/// Sends `msgs` in order after the messages still queued in `queue` (the
/// next one to send last); those there is no room for are queued.
pub(crate) fn send_in_order<T>(tx: &mut Sender<T>, queue: &mut Vec<T>, msgs: Vec<T>)
    ensures
        final(queue)@.len() <= old(queue)@.len() + msgs@.len(),
        final(tx).spec_sent() + final(queue)@.reverse() == old(tx).spec_sent() + old(queue)@.reverse() + msgs@,
        old(tx).spec_sent().is_prefix_of(final(tx).spec_sent()),
        is_suffix_of(final(queue)@.reverse(), old(queue)@.reverse() + msgs@),
{
    let mut msgs = msgs;
    let n = msgs.len();
    // Queue in reverse: the next message to send is the last of `queue`.
    let mut queued: Vec<T> = Vec::new();
    let ghost all = msgs@;
    while msgs.len() > 0
        invariant
            queued@.len() + msgs@.len() == n == all.len(),
            msgs@ == all.subrange(0, msgs@.len() as int),
            queued@ == all.subrange(msgs@.len() as int, n as int).reverse(),
        decreases msgs@.len(),
    {
        let msg = msgs.pop().unwrap();
        queued.push(msg);
        assert(queued@ =~= all.subrange(msgs@.len() as int, n as int).reverse());
    }
    assert(queued@ =~= all.reverse());
    let mut rest: Vec<T> = Vec::new();
    std::mem::swap(&mut rest, queue);
    queued.append(&mut rest);
    *queue = queued;
    assert(queue@.reverse() =~= old(queue)@.reverse() + all);
    let _ = send_queued(tx, queue);
    assert(old(tx).spec_sent() + (old(queue)@.reverse() + all) =~= old(tx).spec_sent() + old(queue)@.reverse() + all);
}

} // verus!
