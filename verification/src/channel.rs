//! The state of a single-threaded channel and its transitions.
//!
//! A channel holds a queue of values, a capacity, whether the receiving side
//! is gone, how many sending handles exist, and whether each side has left a
//! waker behind while waiting.  Each operation changes the state and says
//! which waiting side, if any, must be woken; the caller holds the wakers and
//! wakes them once the state has been updated, so no borrow of the queue is
//! alive when a waker runs.

use std::collections::VecDeque;
use vstd::prelude::*;

verus! {

/// Error returned when sending fails because the receiver was dropped; it
/// hands the value back.
pub struct SendError<T>(pub T);

/// Error returned by `try_send`; it hands the value back.
pub enum TrySendError<T> {
    /// The channel is full.
    Full(T),
    /// The receiver was dropped.
    Closed(T),
}

impl<T> SendError<T> {
    /// The error's text.
    pub fn message(&self) -> (r: &'static str)
        ensures
            r@ == "channel closed"@,
    {
        "channel closed"
    }
}

impl<T> TrySendError<T> {
    /// How the error is shown, without the value it holds.
    pub fn describe(&self) -> (r: &'static str)
        ensures
            self is Full ==> r@ == "Full(..)"@,
            self is Closed ==> r@ == "Closed(..)"@,
    {
        match self {
            TrySendError::Full(_) => "Full(..)",
            TrySendError::Closed(_) => "Closed(..)",
        }
    }
}

/// Which waiting side an operation wakes.
#[derive(Debug, Clone, Copy, PartialEq, Eq, Structural)]
pub enum Wake {
    Nobody,
    Receiver,
    /// Every sender that is waiting for room.
    Senders,
}

/// The outcome of polling a send.
pub enum SendPoll<T> {
    Ready(Result<(), SendError<T>>),
    /// The channel is full: the value is handed back to be sent later, and
    /// the sender's waker is to be kept.
    Pending(T),
}

/// The outcome of polling a receive.
pub enum RecvPoll<T> {
    Ready(Option<T>),
    /// Nothing to receive yet: the receiver's waker is to be kept.
    Pending,
}

/// The value of a channel's state.
pub struct ChannelView<T> {
    pub queue: Seq<T>,
    pub capacity: nat,
    pub rx_closed: bool,
    pub senders: nat,
    pub recv_waiting: bool,
    /// How many sends are waiting for room since waiting senders were last
    /// woken.
    pub send_waiting: nat,
}

/// The shared state of a channel.
pub struct Inner<T> {
    queue: VecDeque<T>,
    capacity: usize,
    rx_closed: bool,
    sender_count: usize,
    recv_waiting: bool,
    send_waiting: usize,
}

impl<T> View for Inner<T> {
    type V = ChannelView<T>;

    closed spec fn view(&self) -> ChannelView<T> {
        ChannelView {
            queue: self.queue@,
            capacity: self.capacity as nat,
            rx_closed: self.rx_closed,
            senders: self.sender_count as nat,
            recv_waiting: self.recv_waiting,
            send_waiting: self.send_waiting as nat,
        }
    }
}

/// The queue never holds more than the capacity.
pub open spec fn within_capacity<T>(c: ChannelView<T>) -> bool {
    c.queue.len() <= c.capacity
}

/// The state after `value` is queued, and the side to wake.
pub open spec fn push_spec<T>(c: ChannelView<T>, value: T) -> (ChannelView<T>, Wake) {
    (
        ChannelView { queue: c.queue.push(value), recv_waiting: false, ..c },
        if c.recv_waiting {
            Wake::Receiver
        } else {
            Wake::Nobody
        },
    )
}

/// The count of waiting sends after one more send waits; the count stops
/// at the largest `usize`.
pub open spec fn waiting_after(n: nat) -> nat {
    if n < usize::MAX {
        n + 1
    } else {
        n
    }
}

/// The state after the front value is taken, and the side to wake: every
/// waiting sender is woken, since room has opened.
pub open spec fn pop_spec<T>(c: ChannelView<T>) -> (ChannelView<T>, Wake) {
    if c.queue.len() == 0 {
        (c, Wake::Nobody)
    } else {
        (
            ChannelView { queue: c.queue.drop_first(), send_waiting: 0, ..c },
            if c.send_waiting > 0 {
                Wake::Senders
            } else {
                Wake::Nobody
            },
        )
    }
}

impl<T> Inner<T> {
    /// A bounded channel with one sender: `capacity` values fit in it.
    pub fn bounded(capacity: usize) -> (r: Inner<T>)
        ensures
            r@ == (ChannelView::<T> {
                queue: seq![],
                capacity: capacity as nat,
                rx_closed: false,
                senders: 1,
                recv_waiting: false,
                send_waiting: 0,
            }),
    {
        Inner {
            queue: VecDeque::new(),
            capacity,
            rx_closed: false,
            sender_count: 1,
            recv_waiting: false,
            send_waiting: 0,
        }
    }

    /// An unbounded channel with one sender.
    pub fn unbounded() -> (r: Inner<T>)
        ensures
            r@ == (ChannelView::<T> {
                queue: seq![],
                capacity: usize::MAX as nat,
                rx_closed: false,
                senders: 1,
                recv_waiting: false,
                send_waiting: 0,
            }),
    {
        Self::bounded(usize::MAX)
    }

    /// Sends without waiting: fails, handing the value back, when the
    /// receiver is gone or the channel is full.
    pub fn try_send(&mut self, value: T) -> (r: (Result<(), TrySendError<T>>, Wake))
        ensures
            old(self)@.rx_closed ==> final(self)@ == old(self)@ && r == (Err::<
                (),
                TrySendError<T>,
            >(TrySendError::Closed(value)), Wake::Nobody),
            !old(self)@.rx_closed && old(self)@.queue.len() >= old(self)@.capacity ==> final(self)@
                == old(self)@ && r == (Err::<(), TrySendError<T>>(TrySendError::Full(value)),
            Wake::Nobody),
            !old(self)@.rx_closed && old(self)@.queue.len() < old(self)@.capacity ==> (final(self)@,
            r.1) == push_spec(old(self)@, value) && r.0 is Ok,
    {
        if self.rx_closed {
            return (Err(TrySendError::Closed(value)), Wake::Nobody);
        }
        if self.queue.len() >= self.capacity {
            return (Err(TrySendError::Full(value)), Wake::Nobody);
        }
        let w = push_and_wake_receiver(self, value);
        (Ok(()), w)
    }

    /// One poll of a send: fails when the receiver is gone, queues the value
    /// when there is room, and otherwise waits with the value handed back.
    pub fn poll_send(&mut self, value: T) -> (r: (SendPoll<T>, Wake))
        ensures
            old(self)@.rx_closed ==> final(self)@ == old(self)@ && r == (SendPoll::Ready(
                Err::<(), SendError<T>>(SendError(value)),
            ), Wake::Nobody),
            !old(self)@.rx_closed && old(self)@.queue.len() < old(self)@.capacity ==> (final(self)@,
            r.1) == push_spec(old(self)@, value) && r.0 matches SendPoll::Ready(Ok(())),
            !old(self)@.rx_closed && old(self)@.queue.len() >= old(self)@.capacity ==> final(self)@
                == (ChannelView { send_waiting: waiting_after(old(self)@.send_waiting), ..old(self)@ })
                && r == (SendPoll::Pending(
                value,
            ), Wake::Nobody),
    {
        if self.rx_closed {
            return (SendPoll::Ready(Err(SendError(value))), Wake::Nobody);
        }
        if self.queue.len() < self.capacity {
            let w = push_and_wake_receiver(self, value);
            (SendPoll::Ready(Ok(())), w)
        } else {
            if self.send_waiting < usize::MAX {
                self.send_waiting = self.send_waiting + 1;
            }
            (SendPoll::Pending(value), Wake::Nobody)
        }
    }

    /// One poll of a receive: the front value if there is one; the end of
    /// the stream once every sender is gone; otherwise waits.
    pub fn poll_recv(&mut self) -> (r: (RecvPoll<T>, Wake))
        ensures
            old(self)@.queue.len() > 0 ==> (final(self)@, r.1) == pop_spec(old(self)@)
                && r.0 == RecvPoll::Ready(Some(old(self)@.queue[0])),
            old(self)@.queue.len() == 0 && old(self)@.senders == 0 ==> final(self)@ == old(self)@
                && r == (RecvPoll::<T>::Ready(None), Wake::Nobody),
            old(self)@.queue.len() == 0 && old(self)@.senders > 0 ==> final(self)@ == (ChannelView {
                recv_waiting: true,
                ..old(self)@
            }) && r == (RecvPoll::<T>::Pending, Wake::Nobody),
    {
        let (item, w) = pop_and_wake_sender(self);
        match item {
            Some(v) => (RecvPoll::Ready(Some(v)), w),
            None => {
                if self.sender_count == 0 {
                    (RecvPoll::Ready(None), w)
                } else {
                    self.recv_waiting = true;
                    (RecvPoll::Pending, w)
                }
            },
        }
    }

    /// Sends on an unbounded channel: fails, handing the value back, when the
    /// receiver is gone.
    pub fn send_unbounded(&mut self, value: T) -> (r: (Result<(), SendError<T>>, Wake))
        ensures
            old(self)@.rx_closed ==> final(self)@ == old(self)@ && r == (Err::<(), SendError<T>>(
                SendError(value),
            ), Wake::Nobody),
            !old(self)@.rx_closed ==> (final(self)@, r.1) == push_spec(old(self)@, value)
                && r.0 is Ok,
    {
        if self.rx_closed {
            return (Err(SendError(value)), Wake::Nobody);
        }
        let w = push_and_wake_receiver(self, value);
        (Ok(()), w)
    }

    /// Another sending handle.
    pub fn add_sender(&mut self)
        requires
            old(self)@.senders < usize::MAX,
        ensures
            final(self)@ == (ChannelView { senders: old(self)@.senders + 1, ..old(self)@ }),
    {
        self.sender_count = self.sender_count + 1;
    }

    /// A sending handle is gone; when it was the last, the receiver is woken
    /// so that it sees the end of the stream.
    pub fn remove_sender(&mut self) -> (w: Wake)
        requires
            old(self)@.senders > 0,
        ensures
            final(self)@ == (ChannelView {
                senders: (old(self)@.senders - 1) as nat,
                recv_waiting: if old(self)@.senders == 1 {
                    false
                } else {
                    old(self)@.recv_waiting
                },
                ..old(self)@
            }),
            w == (if old(self)@.senders == 1 && old(self)@.recv_waiting {
                Wake::Receiver
            } else {
                Wake::Nobody
            }),
    {
        self.sender_count = self.sender_count - 1;
        if self.sender_count == 0 && self.recv_waiting {
            self.recv_waiting = false;
            Wake::Receiver
        } else {
            if self.sender_count == 0 {
                self.recv_waiting = false;
            }
            Wake::Nobody
        }
    }

    /// The receiver of a bounded channel is gone: later sends fail and a
    /// waiting sender is woken.
    pub fn close_receiver(&mut self) -> (w: Wake)
        ensures
            final(self)@ == (ChannelView { rx_closed: true, send_waiting: 0, ..old(self)@ }),
            w == (if old(self)@.send_waiting > 0 {
                Wake::Senders
            } else {
                Wake::Nobody
            }),
    {
        self.rx_closed = true;
        if self.send_waiting > 0 {
            self.send_waiting = 0;
            Wake::Senders
        } else {
            Wake::Nobody
        }
    }

    /// The receiver of an unbounded channel is gone: later sends fail.
    pub fn close_unbounded_receiver(&mut self)
        ensures
            final(self)@ == (ChannelView { rx_closed: true, ..old(self)@ }),
    {
        self.rx_closed = true;
    }

    /// Number of sending handles.
    pub fn senders(&self) -> (r: usize)
        ensures
            r == self@.senders,
    {
        self.sender_count
    }

    /// Number of values waiting.
    pub fn len(&self) -> (r: usize)
        ensures
            r == self@.queue.len(),
    {
        self.queue.len()
    }
}

/// Takes the front value; a waiting sender is woken once it is taken.
pub fn pop_and_wake_sender<T>(inner: &mut Inner<T>) -> (r: (Option<T>, Wake))
    ensures
        (final(inner)@, r.1) == pop_spec(old(inner)@),
        old(inner)@.queue.len() > 0 ==> r.0 == Some(old(inner)@.queue[0]),
        old(inner)@.queue.len() == 0 ==> r.0 is None,
{
    let item = inner.queue.pop_front();
    proof {
        if old(inner)@.queue.len() > 0 {
            assert(inner.queue@ =~= old(inner)@.queue.drop_first());
        }
    }
    match item {
        Some(v) => {
            if inner.send_waiting > 0 {
                inner.send_waiting = 0;
                (Some(v), Wake::Senders)
            } else {
                (Some(v), Wake::Nobody)
            }
        },
        None => (None, Wake::Nobody),
    }
}

/// Queues `value`; a waiting receiver is woken once it is queued.
pub fn push_and_wake_receiver<T>(inner: &mut Inner<T>, value: T) -> (w: Wake)
    ensures
        (final(inner)@, w) == push_spec(old(inner)@, value),
{
    inner.queue.push_back(value);
    if inner.recv_waiting {
        inner.recv_waiting = false;
        Wake::Receiver
    } else {
        Wake::Nobody
    }
}

// ── Laws ────────────────────────────────────────────────────────────────────

/// Values come out in the order they went in: after `values` are queued on
/// an empty channel, receiving takes them back one by one in that order.
pub proof fn law_fifo<T>(c: ChannelView<T>, values: Seq<T>)
    requires
        c.queue.len() == 0,
    ensures
        push_all(c, values).queue == values,
    decreases values.len(),
{
    if values.len() > 0 {
        law_fifo(c, values.drop_last());
        assert(push_all(c, values).queue =~= values);
    }
}

/// The state after each value is queued in turn.
pub open spec fn push_all<T>(c: ChannelView<T>, values: Seq<T>) -> ChannelView<T>
    decreases values.len(),
{
    if values.len() == 0 {
        c
    } else {
        push_spec(push_all(c, values.drop_last()), values.last()).0
    }
}

/// Taking the front of a queue that a value was appended to gives the front
/// of the queue before, or that value when the queue was empty.
pub proof fn law_push_then_pop<T>(c: ChannelView<T>, value: T)
    ensures
        push_spec(c, value).0.queue[0] == (if c.queue.len() == 0 {
            value
        } else {
            c.queue[0]
        }),
        pop_spec(push_spec(c, value).0).0.queue == (if c.queue.len() == 0 {
            Seq::<T>::empty()
        } else {
            c.queue.drop_first().push(value)
        }),
{
    let q = c.queue.push(value);
    assert(q.drop_first() =~= (if c.queue.len() == 0 {
        Seq::<T>::empty()
    } else {
        c.queue.drop_first().push(value)
    }));
}

/// A bounded channel never holds more values than its capacity: every
/// operation that can queue a value keeps the bound.
pub proof fn law_capacity_kept<T>(c: ChannelView<T>, value: T)
    requires
        within_capacity(c),
    ensures
        !c.rx_closed && c.queue.len() < c.capacity ==> within_capacity(push_spec(c, value).0),
        within_capacity(pop_spec(c).0),
{
}

/// The state after `n` receives.
pub open spec fn pops<T>(c: ChannelView<T>, n: nat) -> ChannelView<T>
    decreases n,
{
    if n == 0 {
        c
    } else {
        pop_spec(pops(c, (n - 1) as nat)).0
    }
}

proof fn lemma_pops_queue<T>(c: ChannelView<T>, n: nat)
    requires
        n <= c.queue.len(),
    ensures
        pops(c, n).queue == c.queue.skip(n as int),
    decreases n,
{
    if n > 0 {
        lemma_pops_queue(c, (n - 1) as nat);
        assert(c.queue.skip(n - 1).drop_first() =~= c.queue.skip(n as int));
    } else {
        assert(c.queue.skip(0) =~= c.queue);
    }
}

/// Values sent on an empty channel are received in the order they were
/// sent, none lost or repeated: the receive after `i` others takes the
/// `i`-th value, and once all are taken the queue is empty.
pub proof fn law_fifo_recv<T>(c: ChannelView<T>, values: Seq<T>)
    requires
        c.queue.len() == 0,
    ensures
        forall|i: nat|
            i < values.len() ==> #[trigger] pops(push_all(c, values), i).queue[0] == values[i as int],
        pops(push_all(c, values), values.len()).queue.len() == 0,
{
    law_fifo(c, values);
    let d = push_all(c, values);
    assert forall|i: nat| i < values.len() implies #[trigger] pops(d, i).queue[0] == values[i as int] by {
        lemma_pops_queue(d, i);
    }
    lemma_pops_queue(d, values.len());
}

} // verus!
