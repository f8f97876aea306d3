//! The handshake: the exchange of one `Join` and one `Peer` message by which
//! two repos learn each other's identity and settle on a protocol version.
//!
//! The handshake is written as a state machine. Whoever owns the transport
//! drives it: it performs the action the machine asks for and reports what
//! came of it as the next event.

use vstd::prelude::*;
use crate::identity::RepoId;
use crate::message::{Message, MessageView, NetworkError};
use crate::version::{
    have_common, lemma_select_is_best, select_version, spec_select, supports, ProtocolVersion,
};

verus! {

/// Which way a connection was opened: by the remote side (`Incoming`) or by
/// this repo (`Outgoing`).
#[derive(Debug, Clone, Copy, PartialEq, Eq, Structural, Hash)]
pub enum ConnDirection {
    Incoming,
    Outgoing,
}

/// Where a handshake stands.
#[derive(Debug, Clone, PartialEq, Eq)]
pub enum HandshakeState {
    /// Incoming side: nothing received yet.
    AwaitingJoin { local: RepoId, supported: Vec<ProtocolVersion> },
    /// Incoming side: the answer was handed to the transport.
    SendingPeer { remote: RepoId, selected: ProtocolVersion },
    /// Outgoing side: the opening message was handed to the transport.
    SendingJoin { announced: Vec<ProtocolVersion> },
    /// Outgoing side: the opening message is out, the answer is awaited.
    AwaitingPeer { announced: Vec<ProtocolVersion> },
    /// The handshake succeeded.
    Established { remote: RepoId, version: ProtocolVersion },
    /// The handshake failed; the channel is to be closed.
    Failed { reason: NetworkError },
}

/// What a handshake state stands for.
pub enum Phase {
    AwaitingJoin { local: Seq<u8>, supported: Seq<ProtocolVersion> },
    SendingPeer { remote: Seq<u8>, selected: ProtocolVersion },
    SendingJoin { announced: Seq<ProtocolVersion> },
    AwaitingPeer { announced: Seq<ProtocolVersion> },
    Established { remote: Seq<u8>, version: ProtocolVersion },
    Failed { reason: NetworkError },
}

impl View for HandshakeState {
    type V = Phase;

    open spec fn view(&self) -> Phase {
        match *self {
            HandshakeState::AwaitingJoin { local, supported } => Phase::AwaitingJoin {
                local: local@,
                supported: supported@,
            },
            HandshakeState::SendingPeer { remote, selected } => Phase::SendingPeer {
                remote: remote@,
                selected,
            },
            HandshakeState::SendingJoin { announced } => Phase::SendingJoin {
                announced: announced@,
            },
            HandshakeState::AwaitingPeer { announced } => Phase::AwaitingPeer {
                announced: announced@,
            },
            HandshakeState::Established { remote, version } => Phase::Established {
                remote: remote@,
                version,
            },
            HandshakeState::Failed { reason } => Phase::Failed { reason },
        }
    }
}

/// What the transport reports to the handshake.
#[derive(Debug, Clone, PartialEq, Eq)]
pub enum HandshakeEvent {
    /// A message arrived.
    Received(Message),
    /// Receiving failed.
    ReceiveFailed,
    /// The stream of incoming messages ended.
    StreamEnded,
    /// The message handed over last was sent.
    Sent,
    /// The message handed over last could not be sent.
    SendFailed,
}

/// What a handshake event stands for.
pub enum EventView {
    Received(MessageView),
    ReceiveFailed,
    StreamEnded,
    Sent,
    SendFailed,
}

impl View for HandshakeEvent {
    type V = EventView;

    open spec fn view(&self) -> EventView {
        match *self {
            HandshakeEvent::Received(m) => EventView::Received(m@),
            HandshakeEvent::ReceiveFailed => EventView::ReceiveFailed,
            HandshakeEvent::StreamEnded => EventView::StreamEnded,
            HandshakeEvent::Sent => EventView::Sent,
            HandshakeEvent::SendFailed => EventView::SendFailed,
        }
    }
}

/// What the handshake asks of the transport's owner.
#[derive(Debug, Clone, PartialEq, Eq)]
pub enum HandshakeAction {
    /// Send this message, then report `Sent` or `SendFailed`.
    Send(Message),
    /// Wait for one message, then report what came.
    Receive,
    /// The handshake succeeded: install the channel for the remote repo.
    Install,
    /// The handshake failed: close the channel.
    Close,
}

/// What a handshake action stands for.
pub enum ActionView {
    Send(MessageView),
    Receive,
    Install,
    Close,
}

impl View for HandshakeAction {
    type V = ActionView;

    open spec fn view(&self) -> ActionView {
        match *self {
            HandshakeAction::Send(m) => ActionView::Send(m@),
            HandshakeAction::Receive => ActionView::Receive,
            HandshakeAction::Install => ActionView::Install,
            HandshakeAction::Close => ActionView::Close,
        }
    }
}

/// A handshake that has ended, well or badly.
pub open spec fn settled(phase: Phase) -> bool {
    phase is Established || phase is Failed
}

/// The failed state with its action.
pub open spec fn failure(reason: NetworkError) -> (Phase, ActionView) {
    (Phase::Failed { reason }, ActionView::Close)
}

/// How a handshake starts. The incoming side waits for the opening message;
/// the outgoing side sends it, with its own identity and the versions it
/// speaks.
pub open spec fn spec_begin(
    direction: ConnDirection,
    local: Seq<u8>,
    supported: Seq<ProtocolVersion>,
) -> (Phase, ActionView) {
    match direction {
        ConnDirection::Incoming => (Phase::AwaitingJoin { local, supported }, ActionView::Receive),
        ConnDirection::Outgoing => (
            Phase::SendingJoin { announced: supported },
            ActionView::Send(MessageView::Join { sender: local, supported }),
        ),
    }
}

/// What a message does to a handshake that has not ended. The incoming side
/// takes a `Join`, selects the best version both sides speak and answers
/// with it; the outgoing side takes a `Peer` that names a version it
/// announced. Everything else ends the handshake.
pub open spec fn spec_receive(phase: Phase, message: MessageView) -> (Phase, ActionView) {
    match (phase, message) {
        (Phase::AwaitingJoin { local, supported }, MessageView::Join { sender, supported: theirs }) => {
            match spec_select(supported, theirs) {
                Some(selected) => (
                    Phase::SendingPeer { remote: sender, selected },
                    ActionView::Send(MessageView::Peer { sender: local, selected }),
                ),
                None => failure(NetworkError::Incompatible),
            }
        },
        (Phase::AwaitingPeer { announced }, MessageView::Peer { sender, selected }) => {
            if announced.contains(selected) {
                (Phase::Established { remote: sender, version: selected }, ActionView::Install)
            } else {
                failure(NetworkError::Incompatible)
            }
        },
        _ => failure(NetworkError::UnexpectedMessage),
    }
}

/// What the completion of a send does to a handshake that has not ended.
/// Where nothing was being sent, the handshake goes on waiting.
pub open spec fn spec_sent(phase: Phase) -> (Phase, ActionView) {
    match phase {
        Phase::SendingJoin { announced } => (Phase::AwaitingPeer { announced }, ActionView::Receive),
        Phase::SendingPeer { remote, selected } => (
            Phase::Established { remote, version: selected },
            ActionView::Install,
        ),
        _ => (phase, ActionView::Receive),
    }
}

/// The next state of a handshake and the action it asks for. A handshake
/// that has ended stays as it is.
pub open spec fn spec_step(phase: Phase, event: EventView) -> (Phase, ActionView) {
    match phase {
        Phase::Established { .. } => (phase, ActionView::Install),
        Phase::Failed { .. } => (phase, ActionView::Close),
        _ => match event {
            EventView::Received(message) => spec_receive(phase, message),
            EventView::ReceiveFailed => failure(NetworkError::TransportError),
            EventView::StreamEnded => failure(NetworkError::Closed),
            EventView::Sent => spec_sent(phase),
            EventView::SendFailed => failure(NetworkError::TransportError),
        },
    }
}

/// A fresh list with the same versions.
pub fn copy_versions(list: &Vec<ProtocolVersion>) -> (copy: Vec<ProtocolVersion>)
    ensures
        copy@ == list@,
{
    let mut copy: Vec<ProtocolVersion> = Vec::new();
    let mut i: usize = 0;
    while i < list.len()
        invariant
            i <= list.len(),
            copy@ == list@.subrange(0, i as int),
        decreases list.len() - i,
    {
        copy.push(list[i]);
        assert(copy@ =~= list@.subrange(0, i + 1));
        i += 1;
    }
    assert(copy@ =~= list@);
    copy
}

impl HandshakeState {
    /// Starts a handshake for the repo `local`, which speaks the versions in
    /// `supported`, on a connection opened in the given direction.
    pub fn begin(direction: ConnDirection, local: RepoId, supported: Vec<ProtocolVersion>) -> (out: (
        HandshakeState,
        HandshakeAction,
    ))
        ensures
            (out.0@, out.1@) == spec_begin(direction, local@, supported@),
    {
        match direction {
            ConnDirection::Incoming => (
                HandshakeState::AwaitingJoin { local, supported },
                HandshakeAction::Receive,
            ),
            ConnDirection::Outgoing => {
                let announced = copy_versions(&supported);
                (
                    HandshakeState::SendingJoin { announced },
                    HandshakeAction::Send(
                        Message::Join { sender: local, supported_protocol_versions: supported },
                    ),
                )
            },
        }
    }

    /// Takes one event and gives the next state and the action to perform.
    pub fn step(self, event: HandshakeEvent) -> (out: (HandshakeState, HandshakeAction))
        ensures
            (out.0@, out.1@) == spec_step(self@, event@),
    {
        match self {
            HandshakeState::Established { remote, version } => (
                HandshakeState::Established { remote, version },
                HandshakeAction::Install,
            ),
            HandshakeState::Failed { reason } => (
                HandshakeState::Failed { reason },
                HandshakeAction::Close,
            ),
            state => match event {
                HandshakeEvent::Received(message) => state.receive(message),
                HandshakeEvent::ReceiveFailed => fail(NetworkError::TransportError),
                HandshakeEvent::StreamEnded => fail(NetworkError::Closed),
                HandshakeEvent::Sent => state.sent(),
                HandshakeEvent::SendFailed => fail(NetworkError::TransportError),
            },
        }
    }

    /// Takes a message that arrived while the handshake had not ended.
    fn receive(self, message: Message) -> (out: (HandshakeState, HandshakeAction))
        requires
            !settled(self@),
        ensures
            (out.0@, out.1@) == spec_receive(self@, message@),
    {
        match (self, message) {
            (
                HandshakeState::AwaitingJoin { local, supported },
                Message::Join { sender, supported_protocol_versions },
            ) => {
                match select_version(&supported, &supported_protocol_versions) {
                    Some(selected) => (
                        HandshakeState::SendingPeer { remote: sender, selected },
                        HandshakeAction::Send(
                            Message::Peer { sender: local, selected_protocol_version: selected },
                        ),
                    ),
                    None => fail(NetworkError::Incompatible),
                }
            },
            (
                HandshakeState::AwaitingPeer { announced },
                Message::Peer { sender, selected_protocol_version },
            ) => {
                if supports(&announced, selected_protocol_version) {
                    (
                        HandshakeState::Established {
                            remote: sender,
                            version: selected_protocol_version,
                        },
                        HandshakeAction::Install,
                    )
                } else {
                    fail(NetworkError::Incompatible)
                }
            },
            _ => fail(NetworkError::UnexpectedMessage),
        }
    }

    /// Takes the news that the message handed over last was sent.
    fn sent(self) -> (out: (HandshakeState, HandshakeAction))
        requires
            !settled(self@),
        ensures
            (out.0@, out.1@) == spec_sent(self@),
    {
        match self {
            HandshakeState::SendingJoin { announced } => (
                HandshakeState::AwaitingPeer { announced },
                HandshakeAction::Receive,
            ),
            HandshakeState::SendingPeer { remote, selected } => (
                HandshakeState::Established { remote, version: selected },
                HandshakeAction::Install,
            ),
            state => (state, HandshakeAction::Receive),
        }
    }

    /// Whether the handshake has ended.
    pub fn is_settled(&self) -> (done: bool)
        ensures
            done == settled(self@),
    {
        match self {
            HandshakeState::Established { .. } => true,
            HandshakeState::Failed { .. } => true,
            _ => false,
        }
    }
}

/// The failed state with its action.
pub fn fail(reason: NetworkError) -> (out: (HandshakeState, HandshakeAction))
    ensures
        (out.0@, out.1@) == failure(reason),
{
    (HandshakeState::Failed { reason }, HandshakeAction::Close)
}

/// The state a handshake is in after it has taken `events` in turn.
pub open spec fn spec_run(phase: Phase, events: Seq<EventView>) -> Phase
    decreases events.len(),
{
    if events.len() == 0 {
        phase
    } else {
        spec_run(spec_step(phase, events[0]).0, events.drop_first())
    }
}

/// How many messages a handshake asks to send while it takes `events`.
pub open spec fn spec_sends(phase: Phase, events: Seq<EventView>) -> nat
    decreases events.len(),
{
    if events.len() == 0 {
        0
    } else {
        let next = spec_step(phase, events[0]);
        let here: nat = if next.1 is Send { 1 } else { 0 };
        here + spec_sends(next.0, events.drop_first())
    }
}

/// How many messages a handshake may still ask to send.
pub open spec fn sends_left(phase: Phase) -> nat {
    if phase is AwaitingJoin {
        1
    } else {
        0
    }
}

/// What holds of every state of a handshake of a repo that speaks the
/// versions in `supported`: a version it has settled on, or announced, is
/// one of them.
pub open spec fn within(phase: Phase, supported: Seq<ProtocolVersion>) -> bool {
    match phase {
        Phase::AwaitingJoin { supported: mine, .. } => mine == supported,
        Phase::SendingPeer { selected, .. } => supported.contains(selected),
        Phase::SendingJoin { announced } => announced == supported,
        Phase::AwaitingPeer { announced } => announced == supported,
        Phase::Established { version, .. } => supported.contains(version),
        Phase::Failed { .. } => true,
    }
}

/// The action tells how the handshake stands: it asks to install exactly
/// when the handshake has succeeded, and to close exactly when it has
/// failed.
pub proof fn law_action_matches_state(phase: Phase, event: EventView)
    ensures
        spec_step(phase, event).0 is Established <==> spec_step(phase, event).1 is Install,
        spec_step(phase, event).0 is Failed <==> spec_step(phase, event).1 is Close,
{
}

/// A handshake that has ended stays as it is and sends nothing, whatever
/// is reported to it.
pub proof fn law_settled_is_final(phase: Phase, events: Seq<EventView>)
    requires
        settled(phase),
    ensures
        spec_run(phase, events) == phase,
        spec_sends(phase, events) == 0,
    decreases events.len(),
{
    if events.len() > 0 {
        law_settled_is_final(phase, events.drop_first());
    }
}

/// One step keeps within the versions the repo speaks, and uses up what it
/// sends.
pub proof fn lemma_step_keeps(phase: Phase, event: EventView, supported: Seq<ProtocolVersion>)
    requires
        within(phase, supported),
    ensures
        within(spec_step(phase, event).0, supported),
        spec_step(phase, event).1 is Send ==> sends_left(phase) == 1,
        sends_left(spec_step(phase, event).0) + (if spec_step(phase, event).1 is Send {
            1nat
        } else {
            0nat
        }) <= sends_left(phase),
{
    match (phase, event) {
        (
            Phase::AwaitingJoin { supported: mine, .. },
            EventView::Received(MessageView::Join { supported: theirs, .. }),
        ) => {
            if have_common(mine, theirs) {
                lemma_select_is_best(mine, theirs);
            }
        },
        _ => {},
    }
}

/// Each side of a handshake sends one message at most: the outgoing side
/// its opening message, the incoming side its answer, and nothing else
/// whatever is reported to it.
pub proof fn law_one_message_each(
    direction: ConnDirection,
    local: Seq<u8>,
    supported: Seq<ProtocolVersion>,
    events: Seq<EventView>,
)
    ensures
        (if spec_begin(direction, local, supported).1 is Send {
            1nat
        } else {
            0nat
        }) + spec_sends(spec_begin(direction, local, supported).0, events) <= 1,
{
    let start = spec_begin(direction, local, supported).0;
    lemma_sends_bounded(start, supported, events);
}

/// A handshake sends no more than it has left to send.
pub proof fn lemma_sends_bounded(
    phase: Phase,
    supported: Seq<ProtocolVersion>,
    events: Seq<EventView>,
)
    requires
        within(phase, supported),
    ensures
        spec_sends(phase, events) <= sends_left(phase),
    decreases events.len(),
{
    if events.len() > 0 {
        lemma_step_keeps(phase, events[0], supported);
        lemma_sends_bounded(spec_step(phase, events[0]).0, supported, events.drop_first());
    }
}

/// Every state that a handshake reaches keeps within the versions the repo
/// speaks.
pub proof fn lemma_run_keeps(phase: Phase, supported: Seq<ProtocolVersion>, events: Seq<EventView>)
    requires
        within(phase, supported),
    ensures
        within(spec_run(phase, events), supported),
    decreases events.len(),
{
    if events.len() > 0 {
        lemma_step_keeps(phase, events[0], supported);
        lemma_run_keeps(spec_step(phase, events[0]).0, supported, events.drop_first());
    }
}

/// A handshake succeeds only with a version that the repo itself speaks,
/// whatever the other side sends.
pub proof fn law_version_is_supported(
    direction: ConnDirection,
    local: Seq<u8>,
    supported: Seq<ProtocolVersion>,
    events: Seq<EventView>,
)
    ensures
        spec_run(spec_begin(direction, local, supported).0, events) matches Phase::Established {
            version,
            ..
        } ==> supported.contains(version),
{
    lemma_run_keeps(spec_begin(direction, local, supported).0, supported, events);
}

/// The incoming side's run against a caller `caller` that announces
/// `announced`: the opening message arrives, and the answer, if there is
/// one, is sent.
pub open spec fn incoming_run(
    local: Seq<u8>,
    supported: Seq<ProtocolVersion>,
    caller: Seq<u8>,
    announced: Seq<ProtocolVersion>,
) -> Phase {
    let start = spec_begin(ConnDirection::Incoming, local, supported).0;
    let join = MessageView::Join { sender: caller, supported: announced };
    spec_run(start, seq![EventView::Received(join), EventView::Sent])
}

/// The outgoing side's run against a responder whose answer, if it gave
/// one, is `answer`: the opening message is sent, and then the answer
/// arrives or the stream ends.
pub open spec fn outgoing_run(
    local: Seq<u8>,
    announced: Seq<ProtocolVersion>,
    answer: Option<MessageView>,
) -> Phase {
    let start = spec_begin(ConnDirection::Outgoing, local, announced).0;
    let reply = match answer {
        Some(message) => EventView::Received(message),
        None => EventView::StreamEnded,
    };
    spec_run(start, seq![EventView::Sent, reply])
}

/// The message with which the incoming side answers the opening message,
/// if it answers.
pub open spec fn incoming_answer(
    local: Seq<u8>,
    supported: Seq<ProtocolVersion>,
    caller: Seq<u8>,
    announced: Seq<ProtocolVersion>,
) -> Option<MessageView> {
    let start = spec_begin(ConnDirection::Incoming, local, supported).0;
    let join = MessageView::Join { sender: caller, supported: announced };
    match spec_step(start, EventView::Received(join)).1 {
        ActionView::Send(message) => Some(message),
        _ => None,
    }
}

/// Two repos whose transport delivers what is sent end the handshake in
/// agreement. Where they share a version, both succeed, each knows the
/// other's identity, and both hold the same version: the best that both
/// speak. Where they share none, the incoming side fails as incompatible
/// and the outgoing side finds the channel closed.
pub proof fn law_handshake_agreement(
    caller: Seq<u8>,
    announced: Seq<ProtocolVersion>,
    responder: Seq<u8>,
    supported: Seq<ProtocolVersion>,
)
    ensures
        have_common(supported, announced) ==> {
            let version = spec_select(supported, announced)->Some_0;
            &&& incoming_run(responder, supported, caller, announced) == (Phase::Established {
                remote: caller,
                version,
            })
            &&& outgoing_run(
                caller,
                announced,
                incoming_answer(responder, supported, caller, announced),
            ) == (Phase::Established { remote: responder, version })
        },
        !have_common(supported, announced) ==> {
            &&& incoming_run(responder, supported, caller, announced) == (Phase::Failed {
                reason: NetworkError::Incompatible,
            })
            &&& outgoing_run(
                caller,
                announced,
                incoming_answer(responder, supported, caller, announced),
            ) == (Phase::Failed { reason: NetworkError::Closed })
        },
{
    let join = MessageView::Join { sender: caller, supported: announced };
    let in_events = seq![EventView::Received(join), EventView::Sent];
    let in_start = spec_begin(ConnDirection::Incoming, responder, supported).0;
    let in_first = spec_step(in_start, in_events[0]).0;
    lemma_run_two(in_start, in_events[0], in_events[1]);
    let answer = incoming_answer(responder, supported, caller, announced);
    let reply = match answer {
        Some(message) => EventView::Received(message),
        None => EventView::StreamEnded,
    };
    let out_start = spec_begin(ConnDirection::Outgoing, caller, announced).0;
    lemma_run_two(out_start, EventView::Sent, reply);
    if have_common(supported, announced) {
        lemma_select_is_best(supported, announced);
    }
}

/// A run of two events is two steps.
pub proof fn lemma_run_two(phase: Phase, first: EventView, second: EventView)
    ensures
        spec_run(phase, seq![first, second]) == spec_step(spec_step(phase, first).0, second).0,
{
    let events = seq![first, second];
    let rest = events.drop_first();
    assert(rest =~= seq![second]);
    assert(rest.drop_first() =~= Seq::<EventView>::empty());
    let mid = spec_step(phase, first).0;
    assert(spec_run(phase, events) == spec_run(mid, rest));
    let last = spec_step(mid, second).0;
    assert(spec_run(mid, rest) == spec_run(last, rest.drop_first()));
    assert(spec_run(last, rest.drop_first()) == last);
}

} // verus!
