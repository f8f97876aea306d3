//! An established peer channel: what it lets in, what it lets out, and the
//! bounded queue of outgoing messages that the event loop fills and the
//! transport drains.

use vstd::prelude::*;
use crate::message::{Message, MessageView, NetworkError, RepoMessage, RepoMessageView};

verus! {

/// One item of the transport's incoming stream.
#[derive(Debug, Clone, PartialEq, Eq)]
pub enum Delivery {
    /// A message arrived.
    Frame(Message),
    /// Receiving failed.
    Failure,
}

/// What an incoming item stands for.
pub enum DeliveryView {
    Frame(MessageView),
    Failure,
}

impl View for Delivery {
    type V = DeliveryView;

    open spec fn view(&self) -> DeliveryView {
        match *self {
            Delivery::Frame(m) => DeliveryView::Frame(m@),
            Delivery::Failure => DeliveryView::Failure,
        }
    }
}

/// What an established channel makes of an incoming item: a repo message is
/// let in; any other message is out of sequence, and a failure of the
/// transport is passed on. Either error ends the channel.
pub open spec fn spec_inbound(delivery: DeliveryView) -> Result<RepoMessageView, NetworkError> {
    match delivery {
        DeliveryView::Frame(MessageView::Repo(inner)) => Ok(inner),
        DeliveryView::Frame(_) => Err(NetworkError::UnexpectedMessage),
        DeliveryView::Failure => Err(NetworkError::TransportError),
    }
}

/// What an established channel sends for a repo message: a sync message
/// goes out as it is, anything else is dropped.
pub open spec fn spec_outbound(message: RepoMessageView) -> Option<MessageView> {
    match message {
        RepoMessageView::Sync { .. } => Some(MessageView::Repo(message)),
        _ => None,
    }
}

/// Lets an incoming item into the event loop, or says why the channel ends.
pub fn inbound(delivery: Delivery) -> (out: Result<RepoMessage, NetworkError>)
    ensures
        match out {
            Ok(inner) => spec_inbound(delivery@) == Ok::<RepoMessageView, NetworkError>(inner@),
            Err(e) => spec_inbound(delivery@) == Err::<RepoMessageView, NetworkError>(e),
        },
{
    match delivery {
        Delivery::Frame(Message::Repo(inner)) => Ok(inner),
        Delivery::Frame(_) => Err(NetworkError::UnexpectedMessage),
        Delivery::Failure => Err(NetworkError::TransportError),
    }
}

/// Frames a repo message for the transport, or drops it.
pub fn outbound(message: RepoMessage) -> (out: Option<Message>)
    ensures
        match out {
            Some(frame) => spec_outbound(message@) == Some(frame@),
            None => spec_outbound(message@) is None,
        },
{
    match message {
        RepoMessage::Sync { from_repo_id, to_repo_id, document_id, message } => Some(
            Message::Repo(RepoMessage::Sync { from_repo_id, to_repo_id, document_id, message }),
        ),
        _ => None,
    }
}

/// The outgoing queue of one peer. It holds at most `limit` messages, hands
/// them out in the order in which it took them, and refuses a message
/// rather than lose one.
pub struct Outbox {
    pending: Vec<Message>,
    capacity: usize,
    accepted: Ghost<Seq<MessageView>>,
    delivered: Ghost<Seq<MessageView>>,
}

impl Outbox {
    /// The messages that wait in the queue, oldest first.
    pub closed spec fn queued(&self) -> Seq<MessageView> {
        self.pending@.map_values(|m: Message| m@)
    }

    /// Every message the queue has taken since it was made, in order.
    pub closed spec fn accepted(&self) -> Seq<MessageView> {
        self.accepted@
    }

    /// Every message the queue has handed to the transport, in order.
    pub closed spec fn delivered(&self) -> Seq<MessageView> {
        self.delivered@
    }

    /// The number of messages the queue can hold.
    pub closed spec fn limit(&self) -> nat {
        self.capacity as nat
    }

    /// The queue is sound: what it has taken is what it has handed out,
    /// followed by what waits; and it holds no more than its limit.
    pub closed spec fn wf(&self) -> bool {
        &&& self.accepted@ == self.delivered@ + self.queued()
        &&& self.pending@.len() <= self.capacity
    }

    /// An empty queue that holds up to `capacity` messages.
    pub fn new(capacity: usize) -> (q: Outbox)
        ensures
            q.wf(),
            q.limit() == capacity,
            q.accepted() == Seq::<MessageView>::empty(),
            q.delivered() == Seq::<MessageView>::empty(),
            q.queued() == Seq::<MessageView>::empty(),
    {
        let q = Outbox {
            pending: Vec::new(),
            capacity,
            accepted: Ghost(Seq::empty()),
            delivered: Ghost(Seq::empty()),
        };
        assert(q.queued() =~= Seq::<MessageView>::empty());
        assert(q.accepted@ =~= q.delivered@ + q.queued());
        q
    }

    /// The number of messages that wait.
    pub fn len(&self) -> (n: usize)
        ensures
            n == self.queued().len(),
    {
        self.pending.len()
    }

    /// Whether the queue would refuse a sync message now.
    pub fn is_full(&self) -> (full: bool)
        requires
            self.wf(),
        ensures
            full == (self.queued().len() >= self.limit()),
    {
        self.pending.len() >= self.capacity
    }

    /// Offers a message to the queue. A message that is no sync message is
    /// dropped. A sync message is put at the end of the queue; where the
    /// queue is full it is handed back instead, and nothing changes.
    pub fn offer(&mut self, message: RepoMessage) -> (refused: Option<RepoMessage>)
        requires
            old(self).wf(),
        ensures
            final(self).wf(),
            final(self).limit() == old(self).limit(),
            final(self).delivered() == old(self).delivered(),
            match spec_outbound(message@) {
                None => refused is None && final(self).queued() == old(self).queued(),
                Some(frame) => if old(self).queued().len() < old(self).limit() {
                    &&& refused is None
                    &&& final(self).queued() == old(self).queued().push(frame)
                } else {
                    &&& refused == Some(message)
                    &&& final(self).queued() == old(self).queued()
                },
            },
            final(self).accepted() == final(self).delivered() + final(self).queued(),
    {
        match message {
            RepoMessage::Sync { from_repo_id, to_repo_id, document_id, message } => {
                let sync = RepoMessage::Sync { from_repo_id, to_repo_id, document_id, message };
                if self.pending.len() >= self.capacity {
                    Some(sync)
                } else {
                    let frame = Message::Repo(sync);
                    proof {
                        self.accepted@ = self.accepted@.push(frame@);
                    }
                    self.pending.push(frame);
                    assert(self.queued() =~= old(self).queued().push(frame@));
                    assert(self.accepted@ =~= self.delivered@ + self.queued());
                    None
                }
            },
            _ => None,
        }
    }

    /// Hands the oldest waiting message to the transport, if one waits.
    pub fn take(&mut self) -> (frame: Option<Message>)
        requires
            old(self).wf(),
        ensures
            final(self).wf(),
            final(self).limit() == old(self).limit(),
            final(self).accepted() == old(self).accepted(),
            match frame {
                None => {
                    &&& old(self).queued().len() == 0
                    &&& final(self).delivered() == old(self).delivered()
                    &&& final(self).queued() == old(self).queued()
                },
                Some(m) => {
                    &&& old(self).queued().len() > 0
                    &&& m@ == old(self).queued()[0]
                    &&& final(self).delivered() == old(self).delivered().push(m@)
                    &&& final(self).queued() == old(self).queued().drop_first()
                },
            },
    {
        if self.pending.len() == 0 {
            None
        } else {
            let m = self.pending.remove(0);
            proof {
                self.delivered@ = self.delivered@.push(m@);
            }
            assert(self.queued() =~= old(self).queued().drop_first());
            assert(self.accepted@ =~= self.delivered@ + self.queued());
            Some(m)
        }
    }

    /// The transport sees the messages in the order in which the queue took
    /// them: what was handed out is the beginning of what was taken, and all
    /// of it once nothing waits.
    pub proof fn law_fifo(&self)
        requires
            self.wf(),
        ensures
            self.accepted() == self.delivered() + self.queued(),
            self.delivered().is_prefix_of(self.accepted()),
            self.queued().len() == 0 ==> self.delivered() == self.accepted(),
            self.queued().len() <= self.limit(),
    {
        if self.queued().len() == 0 {
            assert(self.delivered() + self.queued() =~= self.delivered());
        }
    }
}

} // verus!
