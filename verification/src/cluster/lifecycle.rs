//! Event-driven control-plane state machines (arbiter peers and nodes).
//!
//! Unexpected messages do not fail the cluster: they yield a warning and leave
//! the state unchanged.

use vstd::prelude::*;
use vstd::string::StringExecFns;

use crate::cluster::control::{message_text, ControlMessage, HostStopReason};
use crate::text::{hex, join3, push_hex};

verus! {

/// Per-node control-plane state.
#[derive(Clone, Copy, Debug, PartialEq, Eq, Structural)]
pub enum NodeState {
    /// Waiting for the first usable [`ControlMessage::StartupRecord`].
    AwaitingStartup,
    /// Ready sent; waiting for [`ControlMessage::Start`].
    AwaitingStart,
    /// Simulation may run.
    Running,
    /// Host-initiated or local stop.
    Stopped,
}

/// Side effects requested by [`NodeState::on_message`].
#[derive(Debug, PartialEq, Eq)]
pub enum NodeEffect {
    /// Send [`ControlMessage::Ready`] to the arbiter.
    SendReady,
    /// Apply a new virtual-time ceiling locally.
    SetAllowed { allowed_ns: u64 },
    /// Log-only.
    Warn(String),
}

/// What a node effect says, with its text as characters.
pub enum NodeEffectModel {
    SendReady,
    SetAllowed { allowed_ns: u64 },
    Warn(Seq<char>),
}

/// The model of an optional node effect.
pub open spec fn node_effect_model(effect: Option<NodeEffect>) -> Option<NodeEffectModel> {
    match effect {
        None => None,
        Some(NodeEffect::SendReady) => Some(NodeEffectModel::SendReady),
        Some(NodeEffect::SetAllowed { allowed_ns }) => Some(
            NodeEffectModel::SetAllowed { allowed_ns },
        ),
        Some(NodeEffect::Warn(text)) => Some(NodeEffectModel::Warn(text@)),
    }
}

impl NodeState {
    /// Name of the state, as diagnostics spell it.
    pub open spec fn name(self) -> Seq<char> {
        match self {
            NodeState::AwaitingStartup => "AwaitingStartup"@,
            NodeState::AwaitingStart => "AwaitingStart"@,
            NodeState::Running => "Running"@,
            NodeState::Stopped => "Stopped"@,
        }
    }

    /// Text of [`NodeState::name`].
    pub fn name_text(self) -> (r: &'static str)
        ensures
            r@ == self.name(),
    {
        match self {
            NodeState::AwaitingStartup => "AwaitingStartup",
            NodeState::AwaitingStart => "AwaitingStart",
            NodeState::Running => "Running",
            NodeState::Stopped => "Stopped",
        }
    }

    /// The state after one inbound message on the board with this hash.
    pub open spec fn next(self, board_id_hash: u64, msg: ControlMessage) -> NodeState {
        match (self, msg) {
            (
                NodeState::AwaitingStartup,
                ControlMessage::StartupRecord { board_id_hash: id, .. },
            ) => if id == board_id_hash {
                NodeState::AwaitingStart
            } else {
                self
            },
            (NodeState::AwaitingStart, ControlMessage::Start) => NodeState::Running,
            (_, ControlMessage::ClusterStop { .. }) => NodeState::Stopped,
            _ => self,
        }
    }

    /// The effect of one inbound message on the board with this hash.
    pub open spec fn effect(self, board_id_hash: u64, msg: ControlMessage) -> Option<
        NodeEffectModel,
    > {
        match (self, msg) {
            (
                NodeState::AwaitingStartup,
                ControlMessage::StartupRecord { board_id_hash: id, .. },
            ) => if id == board_id_hash {
                Some(NodeEffectModel::SendReady)
            } else {
                Some(
                    NodeEffectModel::Warn(
                        "StartupRecord board_id_hash "@ + hex(id as nat) + " != local "@ + hex(
                            board_id_hash as nat,
                        ) + "; ignoring"@,
                    ),
                )
            },
            (NodeState::AwaitingStart, ControlMessage::Start) => None,
            (NodeState::Running, ControlMessage::Allowed { allowed_ns }) => Some(
                NodeEffectModel::SetAllowed { allowed_ns },
            ),
            (state, ControlMessage::ClusterStop { reason }) if state != NodeState::Stopped => Some(
                NodeEffectModel::Warn("ClusterStop ("@ + reason.shown() + ")"@),
            ),
            _ => Some(
                NodeEffectModel::Warn(
                    "ignoring "@ + message_text(msg) + " in state "@ + self.name(),
                ),
            ),
        }
    }

    /// Apply one inbound control message.
    ///
    /// Returns the next state and an optional effect. Unexpected messages
    /// yield [`NodeEffect::Warn`] and keep the current state.
    pub fn on_message(self, board_id_hash: u64, msg: ControlMessage) -> (r: (
        NodeState,
        Option<NodeEffect>,
    ))
        ensures
            r.0 == self.next(board_id_hash, msg),
            node_effect_model(r.1) == self.effect(board_id_hash, msg),
    {
        match (self, msg) {
            (
                NodeState::AwaitingStartup,
                ControlMessage::StartupRecord { board_id_hash: id_hash, .. },
            ) => {
                if id_hash != board_id_hash {
                    let mut s = "StartupRecord board_id_hash ".to_owned();
                    push_hex(&mut s, id_hash);
                    s.append(" != local ");
                    push_hex(&mut s, board_id_hash);
                    s.append("; ignoring");
                    return (self, Some(NodeEffect::Warn(s)));
                }
                (NodeState::AwaitingStart, Some(NodeEffect::SendReady))
            },
            (NodeState::AwaitingStart, ControlMessage::Start) => (NodeState::Running, None),
            (NodeState::Running, ControlMessage::Allowed { allowed_ns }) => (
                NodeState::Running,
                Some(NodeEffect::SetAllowed { allowed_ns }),
            ),
            (
                NodeState::Running | NodeState::AwaitingStart | NodeState::AwaitingStartup,
                ControlMessage::ClusterStop { reason },
            ) => (
                NodeState::Stopped,
                Some(NodeEffect::Warn(join3("ClusterStop (", reason.shown_text(), ")"))),
            ),
            // Duplicate / late / early messages: warn and stay.
            (state, msg) => {
                let mut s = "ignoring ".to_owned();
                let text = msg.to_text();
                s.append(text.as_str());
                s.append(" in state ");
                s.append(state.name_text());
                (state, Some(NodeEffect::Warn(s)))
            },
        }
    }
}

/// Per-board peer state on the arbiter.
#[derive(Clone, Copy, Debug, PartialEq, Eq, Structural)]
pub enum PeerState {
    /// StartupRecord sent (or about to be); waiting for Ready.
    AwaitingReady,
    /// Ready received.
    Ready,
    /// Start broadcast done for this peer.
    Running,
    /// Stopped (ClusterStop sent or connection lost).
    Stopped,
}

/// Side effects for arbiter peer transitions.
#[derive(Debug, PartialEq, Eq)]
pub enum PeerEffect {
    Warn(String),
    TimeReport { board_id_hash: u64, virtual_time_ns: u64 },
    HostStop { board_id_hash: u64, reason: HostStopReason },
}

/// What a peer effect says, with its text as characters.
pub enum PeerEffectModel {
    Warn(Seq<char>),
    TimeReport { board_id_hash: u64, virtual_time_ns: u64 },
    HostStop { board_id_hash: u64, reason: HostStopReason },
}

/// The model of an optional peer effect.
pub open spec fn peer_effect_model(effect: Option<PeerEffect>) -> Option<PeerEffectModel> {
    match effect {
        None => None,
        Some(PeerEffect::Warn(text)) => Some(PeerEffectModel::Warn(text@)),
        Some(PeerEffect::TimeReport { board_id_hash, virtual_time_ns }) => Some(
            PeerEffectModel::TimeReport { board_id_hash, virtual_time_ns },
        ),
        Some(PeerEffect::HostStop { board_id_hash, reason }) => Some(
            PeerEffectModel::HostStop { board_id_hash, reason },
        ),
    }
}

/// Warning about a message that names another board than the peer it came from.
pub open spec fn mismatch_text(kind: Seq<char>, id: u64, relation: Seq<char>, expected: u64) -> Seq<
    char,
> {
    kind + " board_id_hash "@ + hex(id as nat) + relation + hex(expected as nat) + "; ignoring"@
}

fn mismatch_warning(kind: &str, id: u64, relation: &str, expected: u64) -> (r: Option<PeerEffect>)
    ensures
        peer_effect_model(r) == Some(
            PeerEffectModel::Warn(mismatch_text(kind@, id, relation@, expected)),
        ),
{
    let mut s = kind.to_owned();
    s.append(" board_id_hash ");
    push_hex(&mut s, id);
    s.append(relation);
    push_hex(&mut s, expected);
    s.append("; ignoring");
    Some(PeerEffect::Warn(s))
}

impl PeerState {
    /// Name of the state, as diagnostics spell it.
    pub open spec fn name(self) -> Seq<char> {
        match self {
            PeerState::AwaitingReady => "AwaitingReady"@,
            PeerState::Ready => "Ready"@,
            PeerState::Running => "Running"@,
            PeerState::Stopped => "Stopped"@,
        }
    }

    /// Text of [`PeerState::name`].
    pub fn name_text(self) -> (r: &'static str)
        ensures
            r@ == self.name(),
    {
        match self {
            PeerState::AwaitingReady => "AwaitingReady",
            PeerState::Ready => "Ready",
            PeerState::Running => "Running",
            PeerState::Stopped => "Stopped",
        }
    }

    /// The state after one inbound message from the peer with this hash.
    pub open spec fn next(self, expected: u64, msg: ControlMessage) -> PeerState {
        match (self, msg) {
            (PeerState::AwaitingReady, ControlMessage::Ready { board_id_hash }) => if board_id_hash
                == expected {
                PeerState::Ready
            } else {
                self
            },
            (PeerState::Running, ControlMessage::HostStop { board_id_hash, .. }) =>
                if board_id_hash == expected {
                PeerState::Stopped
            } else {
                self
            },
            _ => self,
        }
    }

    /// The effect of one inbound message from the peer with this hash.
    pub open spec fn effect(self, expected: u64, msg: ControlMessage) -> Option<PeerEffectModel> {
        match (self, msg) {
            (PeerState::AwaitingReady, ControlMessage::Ready { board_id_hash }) => if board_id_hash
                == expected {
                None
            } else {
                Some(
                    PeerEffectModel::Warn(
                        mismatch_text("Ready"@, board_id_hash, " != expected "@, expected),
                    ),
                )
            },
            (PeerState::Ready, ControlMessage::Ready { board_id_hash }) => Some(
                PeerEffectModel::Warn(
                    "duplicate Ready from "@ + hex(board_id_hash as nat) + "; ignoring"@,
                ),
            ),
            (PeerState::Running, ControlMessage::TimeReport { board_id_hash, virtual_time_ns }) =>
                if board_id_hash == expected {
                Some(PeerEffectModel::TimeReport { board_id_hash, virtual_time_ns })
            } else {
                Some(
                    PeerEffectModel::Warn(
                        mismatch_text("TimeReport"@, board_id_hash, " != "@, expected),
                    ),
                )
            },
            (PeerState::Running, ControlMessage::HostStop { board_id_hash, reason }) =>
                if board_id_hash == expected {
                Some(PeerEffectModel::HostStop { board_id_hash, reason })
            } else {
                Some(
                    PeerEffectModel::Warn(
                        mismatch_text("HostStop"@, board_id_hash, " != "@, expected),
                    ),
                )
            },
            _ => Some(
                PeerEffectModel::Warn(
                    "ignoring "@ + message_text(msg) + " from "@ + hex(expected as nat)
                        + " in state "@ + self.name(),
                ),
            ),
        }
    }

    /// Apply one inbound message from this peer.
    pub fn on_message(self, expected_board_hash: u64, msg: ControlMessage) -> (r: (
        PeerState,
        Option<PeerEffect>,
    ))
        ensures
            r.0 == self.next(expected_board_hash, msg),
            peer_effect_model(r.1) == self.effect(expected_board_hash, msg),
    {
        match (self, msg) {
            (PeerState::AwaitingReady, ControlMessage::Ready { board_id_hash }) => {
                if board_id_hash != expected_board_hash {
                    return (
                        self,
                        mismatch_warning(
                            "Ready",
                            board_id_hash,
                            " != expected ",
                            expected_board_hash,
                        ),
                    );
                }
                (PeerState::Ready, None)
            },
            (PeerState::Ready, ControlMessage::Ready { board_id_hash }) => {
                let mut s = "duplicate Ready from ".to_owned();
                push_hex(&mut s, board_id_hash);
                s.append("; ignoring");
                (PeerState::Ready, Some(PeerEffect::Warn(s)))
            },
            (PeerState::Running, ControlMessage::TimeReport { board_id_hash, virtual_time_ns }) => {
                if board_id_hash != expected_board_hash {
                    return (
                        self,
                        mismatch_warning("TimeReport", board_id_hash, " != ", expected_board_hash),
                    );
                }
                (PeerState::Running, Some(PeerEffect::TimeReport { board_id_hash, virtual_time_ns }))
            },
            (PeerState::Running, ControlMessage::HostStop { board_id_hash, reason }) => {
                if board_id_hash != expected_board_hash {
                    return (
                        self,
                        mismatch_warning("HostStop", board_id_hash, " != ", expected_board_hash),
                    );
                }
                (PeerState::Stopped, Some(PeerEffect::HostStop { board_id_hash, reason }))
            },
            (state, msg) => {
                let mut s = "ignoring ".to_owned();
                let text = msg.to_text();
                s.append(text.as_str());
                s.append(" from ");
                push_hex(&mut s, expected_board_hash);
                s.append(" in state ");
                s.append(state.name_text());
                (state, Some(PeerEffect::Warn(s)))
            },
        }
    }

    /// The state after the Start broadcast.
    pub open spec fn started(self) -> PeerState {
        match self {
            PeerState::Ready | PeerState::Running => PeerState::Running,
            other => other,
        }
    }

    /// Mark this peer as started after Start broadcast.
    pub fn on_start_broadcast(self) -> (r: PeerState)
        ensures
            r == self.started(),
    {
        match self {
            PeerState::Ready | PeerState::Running => PeerState::Running,
            other => other,
        }
    }
}

/// State of a node after a sequence of messages.
pub open spec fn node_run(start: NodeState, board_id_hash: u64, msgs: Seq<ControlMessage>) -> NodeState
    decreases msgs.len(),
{
    if msgs.len() == 0 {
        start
    } else {
        node_run(start, board_id_hash, msgs.drop_last()).next(board_id_hash, msgs.last())
    }
}

/// A node that warns keeps its state, unless the warning tells of a cluster stop.
pub proof fn node_warning_keeps_state(state: NodeState, board_id_hash: u64, msg: ControlMessage)
    requires
        state.effect(board_id_hash, msg) matches Some(NodeEffectModel::Warn(_)),
        !(msg is ClusterStop),
    ensures
        state.next(board_id_hash, msg) == state,
{
}

/// A stopped node stays stopped, whatever it hears.
pub proof fn node_stop_is_final(board_id_hash: u64, msgs: Seq<ControlMessage>)
    ensures
        node_run(NodeState::Stopped, board_id_hash, msgs) == NodeState::Stopped,
    decreases msgs.len(),
{
    if msgs.len() > 0 {
        node_stop_is_final(board_id_hash, msgs.drop_last());
    }
}

/// A node that runs has received its own startup record and, after that, Start.
pub proof fn node_runs_only_after_start(board_id_hash: u64, msgs: Seq<ControlMessage>)
    requires
        node_run(NodeState::AwaitingStartup, board_id_hash, msgs) == NodeState::Running,
    ensures
        exists|i: int, j: int|
            0 <= i < j < msgs.len() && own_startup(#[trigger] msgs[i], board_id_hash) && (
            #[trigger] msgs[j]) == ControlMessage::Start,
    decreases msgs.len(),
{
    let before = msgs.drop_last();
    let state = node_run(NodeState::AwaitingStartup, board_id_hash, before);
    if state == NodeState::Running {
        node_runs_only_after_start(board_id_hash, before);
        let (i, j) = choose|i: int, j: int|
            0 <= i < j < before.len() && own_startup(#[trigger] before[i], board_id_hash) && (
            #[trigger] before[j]) == ControlMessage::Start;
        assert(own_startup(msgs[i], board_id_hash) && msgs[j] == ControlMessage::Start);
    } else {
        assert(state == NodeState::AwaitingStart);
        node_awaits_start_only_after_startup(board_id_hash, before);
        let i = choose|i: int|
            0 <= i < before.len() && own_startup(#[trigger] before[i], board_id_hash);
        assert(own_startup(msgs[i], board_id_hash));
        assert(msgs[msgs.len() - 1] == ControlMessage::Start);
    }
}

/// The startup record of the board with this hash.
pub open spec fn own_startup(msg: ControlMessage, board_id_hash: u64) -> bool {
    msg matches ControlMessage::StartupRecord { board_id_hash: id, .. } && id == board_id_hash
}

/// A node that waits for Start has received its own startup record.
pub proof fn node_awaits_start_only_after_startup(board_id_hash: u64, msgs: Seq<ControlMessage>)
    requires
        node_run(NodeState::AwaitingStartup, board_id_hash, msgs) == NodeState::AwaitingStart,
    ensures
        exists|i: int| 0 <= i < msgs.len() && own_startup(#[trigger] msgs[i], board_id_hash),
    decreases msgs.len(),
{
    let before = msgs.drop_last();
    let state = node_run(NodeState::AwaitingStartup, board_id_hash, before);
    if state == NodeState::AwaitingStart {
        node_awaits_start_only_after_startup(board_id_hash, before);
        let i = choose|i: int|
            0 <= i < before.len() && own_startup(#[trigger] before[i], board_id_hash);
        assert(own_startup(msgs[i], board_id_hash));
    } else {
        assert(own_startup(msgs[msgs.len() - 1], board_id_hash));
    }
}

/// A peer that warns keeps its state, and so does one that reports its time.
pub proof fn peer_warning_keeps_state(state: PeerState, expected: u64, msg: ControlMessage)
    requires
        match state.effect(expected, msg) {
            Some(PeerEffectModel::Warn(_)) | Some(PeerEffectModel::TimeReport { .. }) => true,
            _ => false,
        },
    ensures
        state.next(expected, msg) == state,
{
}

/// No message that names another board changes a peer's state.
pub proof fn peer_ignores_other_boards(state: PeerState, expected: u64, msg: ControlMessage)
    requires
        match msg {
            ControlMessage::StartupRecord { board_id_hash, .. } | ControlMessage::Ready {
                board_id_hash,
            } | ControlMessage::TimeReport { board_id_hash, .. } | ControlMessage::HostStop {
                board_id_hash,
                ..
            } => board_id_hash != expected,
            _ => true,
        },
    ensures
        state.next(expected, msg) == state,
{
}

/// The Start broadcast brings exactly the ready peers into Running.
pub proof fn start_broadcast_runs_ready_peers(state: PeerState)
    ensures
        state.started() == PeerState::Running <==> (state == PeerState::Ready || state
            == PeerState::Running),
        state.started().started() == state.started(),
{
}

/// What makes a node change its state: its own startup record while it waits
/// for one, Start once it has answered that record, and the stop of the cluster.
pub proof fn node_state_changes(state: NodeState, board_id_hash: u64, msg: ControlMessage)
    ensures
        state.next(board_id_hash, msg) == NodeState::Stopped <==> state == NodeState::Stopped
            || msg is ClusterStop,
        state.next(board_id_hash, msg) == NodeState::Running <==> state == NodeState::AwaitingStart
            && msg == ControlMessage::Start || state == NodeState::Running && !(msg is ClusterStop),
        state.next(board_id_hash, msg) == NodeState::AwaitingStart <==> state
            == NodeState::AwaitingStartup && own_startup(msg, board_id_hash) || state
            == NodeState::AwaitingStart && msg != ControlMessage::Start && !(msg is ClusterStop),
{
}

/// What a node does about a message: it sends Ready for its own startup record
/// alone, it takes the ceiling of a message while it runs, it says nothing
/// about the Start that it waits for, and it warns of everything else.
pub proof fn node_effects(state: NodeState, board_id_hash: u64, msg: ControlMessage, a: u64)
    ensures
        state.effect(board_id_hash, msg) == Some(NodeEffectModel::SendReady) <==> state
            == NodeState::AwaitingStartup && own_startup(msg, board_id_hash),
        state.effect(board_id_hash, msg) == Some(NodeEffectModel::SetAllowed { allowed_ns: a })
            <==> state == NodeState::Running && msg == (ControlMessage::Allowed { allowed_ns: a }),
        state.effect(board_id_hash, msg) is None <==> state == NodeState::AwaitingStart && msg
            == ControlMessage::Start,
{
}

/// A node that gets its startup record and then Start, with nothing but
/// messages between them that it ignores, runs.
pub proof fn started_node_runs(
    board_id_hash: u64,
    startup: ControlMessage,
    between: Seq<ControlMessage>,
)
    requires
        own_startup(startup, board_id_hash),
        forall|i: int|
            0 <= i < between.len() ==> (#[trigger] between[i]) != ControlMessage::Start && !(
            between[i] is ClusterStop),
    ensures
        node_run(
            NodeState::AwaitingStartup,
            board_id_hash,
            seq![startup] + between,
        ) == NodeState::AwaitingStart,
        node_run(
            NodeState::AwaitingStartup,
            board_id_hash,
            (seq![startup] + between).push(ControlMessage::Start),
        ) == NodeState::Running,
    decreases between.len(),
{
    let msgs = seq![startup] + between;
    if between.len() == 0 {
        reveal_with_fuel(node_run, 2);
        assert(msgs.drop_last() =~= seq![]);
    } else {
        started_node_runs(board_id_hash, startup, between.drop_last());
        assert(msgs.drop_last() =~= seq![startup] + between.drop_last());
        assert(msgs.last() == between[between.len() - 1]);
    }
    assert(msgs.push(ControlMessage::Start).drop_last() =~= msgs);
}

/// What makes a peer change its state: Ready under its own hash while that is
/// awaited, and a host stop under its own hash while it runs.
pub proof fn peer_state_changes(state: PeerState, expected: u64, msg: ControlMessage)
    ensures
        state.next(expected, msg) == PeerState::Ready <==> state == PeerState::Ready || state
            == PeerState::AwaitingReady && msg == (ControlMessage::Ready {
            board_id_hash: expected,
        }),
        state.next(expected, msg) == PeerState::Stopped <==> state == PeerState::Stopped || state
            == PeerState::Running && msg is HostStop && msg->HostStop_board_id_hash == expected,
        state.next(expected, msg) == PeerState::AwaitingReady ==> state
            == PeerState::AwaitingReady,
        state.next(expected, msg) == PeerState::Running ==> state == PeerState::Running,
{
}

/// What the arbiter does about a message of a peer: a running peer's time
/// report and host stop under its own hash are taken as they are, the Ready
/// that was awaited is taken in silence, and all else is warned of.
pub proof fn peer_effects(state: PeerState, expected: u64, msg: ControlMessage)
    ensures
        state.effect(expected, msg) is None <==> state == PeerState::AwaitingReady && msg == (
        ControlMessage::Ready { board_id_hash: expected }),
        match state.effect(expected, msg) {
            Some(PeerEffectModel::TimeReport { board_id_hash, virtual_time_ns }) => {
                &&& state == PeerState::Running
                &&& board_id_hash == expected
                &&& msg == (ControlMessage::TimeReport { board_id_hash, virtual_time_ns })
            },
            Some(PeerEffectModel::HostStop { board_id_hash, reason }) => {
                &&& state == PeerState::Running
                &&& board_id_hash == expected
                &&& msg == (ControlMessage::HostStop { board_id_hash, reason })
            },
            Some(PeerEffectModel::Warn(_)) => !(state == PeerState::Running && (msg is TimeReport
                && msg->TimeReport_board_id_hash == expected || msg is HostStop
                && msg->HostStop_board_id_hash == expected)),
            None => true,
        },
{
}

/// A node effect that is handed out is the one that the message has, with its
/// own ceiling or text.
pub proof fn node_effect_is_handed_out(effect: Option<NodeEffect>)
    ensures
        node_effect_model(effect) is None <==> effect is None,
        node_effect_model(effect) matches Some(NodeEffectModel::SendReady) <==> effect matches Some(
            NodeEffect::SendReady,
        ),
        effect matches Some(NodeEffect::SetAllowed { allowed_ns }) ==> node_effect_model(effect)
            == Some(NodeEffectModel::SetAllowed { allowed_ns }),
        effect matches Some(NodeEffect::Warn(text)) ==> node_effect_model(effect) == Some(
            NodeEffectModel::Warn(text@),
        ),
{
}

/// A peer effect that is handed out is the one that the message has, with its
/// own hash, time, reason or text.
pub proof fn peer_effect_is_handed_out(effect: Option<PeerEffect>)
    ensures
        peer_effect_model(effect) is None <==> effect is None,
        effect matches Some(PeerEffect::TimeReport { board_id_hash, virtual_time_ns })
            ==> peer_effect_model(effect) == Some(
            PeerEffectModel::TimeReport { board_id_hash, virtual_time_ns },
        ),
        effect matches Some(PeerEffect::HostStop { board_id_hash, reason }) ==> peer_effect_model(
            effect,
        ) == Some(PeerEffectModel::HostStop { board_id_hash, reason }),
        effect matches Some(PeerEffect::Warn(text)) ==> peer_effect_model(effect) == Some(
            PeerEffectModel::Warn(text@),
        ),
{
}

/// A warning about another board's message names its kind, the hash that it
/// carries, and then the hash that was expected.
pub proof fn mismatch_names_both_hashes(
    kind: Seq<char>,
    id: u64,
    relation: Seq<char>,
    expected: u64,
)
    ensures
        ({
            let text = mismatch_text(kind, id, relation, expected);
            let first: int = kind.len() + 15int;
            let second: int = first + hex(id as nat).len() + relation.len();
            &&& text.take(kind.len() as int) == kind
            &&& text.subrange(first, first + hex(id as nat).len()) == hex(id as nat)
            &&& text.subrange(second, second + hex(expected as nat).len()) == hex(expected as nat)
        }),
{
    reveal_strlit(" board_id_hash ");
    reveal_strlit("; ignoring");
    let text = mismatch_text(kind, id, relation, expected);
    let first: int = kind.len() + 15int;
    let second: int = first + hex(id as nat).len() + relation.len();
    assert(text.take(kind.len() as int) =~= kind);
    assert(text.subrange(first, first + hex(id as nat).len()) =~= hex(id as nat));
    assert(text.subrange(second, second + hex(expected as nat).len()) =~= hex(expected as nat));
}

} // verus!
