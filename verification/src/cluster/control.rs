//! Logical control-plane messages between the arbiter and the boards.

use vstd::prelude::*;
use vstd::string::StringExecFns;

use crate::text::{dec, join3, push_dec, same_text};

verus! {

/// Why a board stopped on the host's account. Guest-local halts are not
/// among these: they are never sent.
#[derive(Clone, Copy, Debug, PartialEq, Eq, Structural)]
pub enum HostStopReason {
    Breakpoint,
    ExternalStop,
    Step,
    Unmapped,
}

impl HostStopReason {
    /// Wire label (snake case).
    pub open spec fn wire_label(self) -> Seq<char> {
        match self {
            HostStopReason::Breakpoint => "breakpoint"@,
            HostStopReason::ExternalStop => "external_stop"@,
            HostStopReason::Step => "step"@,
            HostStopReason::Unmapped => "unmapped"@,
        }
    }

    /// Text shown to people.
    pub open spec fn shown(self) -> Seq<char> {
        match self {
            HostStopReason::Breakpoint => "breakpoint"@,
            HostStopReason::ExternalStop => "external"@,
            HostStopReason::Step => "step"@,
            HostStopReason::Unmapped => "unmapped"@,
        }
    }

    /// Name of the variant, as diagnostics spell it.
    pub open spec fn name(self) -> Seq<char> {
        match self {
            HostStopReason::Breakpoint => "Breakpoint"@,
            HostStopReason::ExternalStop => "ExternalStop"@,
            HostStopReason::Step => "Step"@,
            HostStopReason::Unmapped => "Unmapped"@,
        }
    }

    /// The reason that a label stands for: its wire label or its shown text.
    pub open spec fn of_label(label: Seq<char>) -> Option<HostStopReason> {
        if label == "breakpoint"@ {
            Some(HostStopReason::Breakpoint)
        } else if label == "external_stop"@ || label == "external"@ {
            Some(HostStopReason::ExternalStop)
        } else if label == "step"@ {
            Some(HostStopReason::Step)
        } else if label == "unmapped"@ {
            Some(HostStopReason::Unmapped)
        } else {
            None
        }
    }

    /// The reason that a label stands for, if any.
    pub fn from_label(label: &str) -> (r: Option<HostStopReason>)
        ensures
            r == HostStopReason::of_label(label@),
    {
        if same_text(label, "breakpoint") {
            Some(HostStopReason::Breakpoint)
        } else if same_text(label, "external_stop") || same_text(label, "external") {
            Some(HostStopReason::ExternalStop)
        } else if same_text(label, "step") {
            Some(HostStopReason::Step)
        } else if same_text(label, "unmapped") {
            Some(HostStopReason::Unmapped)
        } else {
            None
        }
    }

    /// The wire label of this reason.
    pub fn label(self) -> (r: &'static str)
        ensures
            r@ == self.wire_label(),
    {
        match self {
            HostStopReason::Breakpoint => "breakpoint",
            HostStopReason::ExternalStop => "external_stop",
            HostStopReason::Step => "step",
            HostStopReason::Unmapped => "unmapped",
        }
    }

    /// The text of this reason for people.
    pub fn shown_text(self) -> (r: &'static str)
        ensures
            r@ == self.shown(),
    {
        match self {
            HostStopReason::Breakpoint => "breakpoint",
            HostStopReason::ExternalStop => "external",
            HostStopReason::Step => "step",
            HostStopReason::Unmapped => "unmapped",
        }
    }

    fn name_text(self) -> (r: &'static str)
        ensures
            r@ == self.name(),
    {
        match self {
            HostStopReason::Breakpoint => "Breakpoint",
            HostStopReason::ExternalStop => "ExternalStop",
            HostStopReason::Step => "Step",
            HostStopReason::Unmapped => "Unmapped",
        }
    }
}

/// A reason is read back from its wire label and from its shown text.
pub proof fn labels_round_trip(reason: HostStopReason)
    ensures
        HostStopReason::of_label(reason.wire_label()) == Some(reason),
        HostStopReason::of_label(reason.shown()) == Some(reason),
{
    reveal_strlit("breakpoint");
    reveal_strlit("external_stop");
    reveal_strlit("external");
    reveal_strlit("step");
    reveal_strlit("unmapped");
    assert("breakpoint"@.len() == 10);
    assert("external_stop"@.len() == 13);
    assert("external"@.len() == 8 && "external"@[0] == 'e');
    assert("step"@.len() == 4);
    assert("unmapped"@.len() == 8 && "unmapped"@[0] == 'u');
}

/// Control messages between arbiter and nodes. Boards are named by the hash
/// of their id.
#[derive(Clone, Copy, Debug, PartialEq, Eq, Structural)]
pub enum ControlMessage {
    /// Arbiter to node: bind resources / time parameters for this board.
    StartupRecord {
        board_id_hash: u64,
        /// Virtual-time skew margin (ns); copied from topology for the node.
        margin_ns: u64,
        /// Report when `allowed - now` falls below this (ns).
        headroom_threshold_ns: u64,
    },
    /// Node to arbiter: control attach complete.
    Ready { board_id_hash: u64 },
    /// Arbiter to node: simulation may enter Running.
    Start,
    /// Node to arbiter: virtual time report.
    TimeReport { board_id_hash: u64, virtual_time_ns: u64 },
    /// Arbiter to node: new virtual-time ceiling.
    Allowed { allowed_ns: u64 },
    /// Node to arbiter: host-initiated stop. Guest-local Halt must not be sent.
    HostStop { board_id_hash: u64, reason: HostStopReason },
    /// Arbiter to node: host-initiated cluster stop (no ack on same host).
    ClusterStop { reason: HostStopReason },
}

/// Diagnostic text of a message: its variant with its fields by name.
pub open spec fn message_text(msg: ControlMessage) -> Seq<char> {
    match msg {
        ControlMessage::StartupRecord { board_id_hash, margin_ns, headroom_threshold_ns } =>
            "StartupRecord { board_id_hash: "@ + dec(board_id_hash as nat) + ", margin_ns: "@ + dec(
            margin_ns as nat,
        ) + ", headroom_threshold_ns: "@ + dec(headroom_threshold_ns as nat) + " }"@,
        ControlMessage::Ready { board_id_hash } => "Ready { board_id_hash: "@ + dec(
            board_id_hash as nat,
        ) + " }"@,
        ControlMessage::Start => "Start"@,
        ControlMessage::TimeReport { board_id_hash, virtual_time_ns } =>
            "TimeReport { board_id_hash: "@ + dec(board_id_hash as nat) + ", virtual_time_ns: "@
            + dec(virtual_time_ns as nat) + " }"@,
        ControlMessage::Allowed { allowed_ns } => "Allowed { allowed_ns: "@ + dec(allowed_ns as nat)
            + " }"@,
        ControlMessage::HostStop { board_id_hash, reason } => "HostStop { board_id_hash: "@ + dec(
            board_id_hash as nat,
        ) + ", reason: "@ + reason.name() + " }"@,
        ControlMessage::ClusterStop { reason } => "ClusterStop { reason: "@ + reason.name()
            + " }"@,
    }
}

impl ControlMessage {
    /// Diagnostic text of this message.
    pub fn to_text(self) -> (r: String)
        ensures
            r@ == message_text(self),
    {
        match self {
            ControlMessage::StartupRecord { board_id_hash, margin_ns, headroom_threshold_ns } => {
                let mut s = "StartupRecord { board_id_hash: ".to_owned();
                push_dec(&mut s, board_id_hash as u128);
                s.append(", margin_ns: ");
                push_dec(&mut s, margin_ns as u128);
                s.append(", headroom_threshold_ns: ");
                push_dec(&mut s, headroom_threshold_ns as u128);
                s.append(" }");
                s
            },
            ControlMessage::Ready { board_id_hash } => {
                let mut s = "Ready { board_id_hash: ".to_owned();
                push_dec(&mut s, board_id_hash as u128);
                s.append(" }");
                s
            },
            ControlMessage::Start => "Start".to_owned(),
            ControlMessage::TimeReport { board_id_hash, virtual_time_ns } => {
                let mut s = "TimeReport { board_id_hash: ".to_owned();
                push_dec(&mut s, board_id_hash as u128);
                s.append(", virtual_time_ns: ");
                push_dec(&mut s, virtual_time_ns as u128);
                s.append(" }");
                s
            },
            ControlMessage::Allowed { allowed_ns } => {
                let mut s = "Allowed { allowed_ns: ".to_owned();
                push_dec(&mut s, allowed_ns as u128);
                s.append(" }");
                s
            },
            ControlMessage::HostStop { board_id_hash, reason } => {
                let mut s = "HostStop { board_id_hash: ".to_owned();
                push_dec(&mut s, board_id_hash as u128);
                s.append(", reason: ");
                s.append(reason.name_text());
                s.append(" }");
                s
            },
            ControlMessage::ClusterStop { reason } => join3(
                "ClusterStop { reason: ",
                reason.name_text(),
                " }",
            ),
        }
    }
}

/// A label stands for a reason exactly when it is its wire label or its shown
/// text.
pub proof fn labels_name_their_reason(label: Seq<char>, reason: HostStopReason)
    ensures
        HostStopReason::of_label(label) == Some(reason) <==> label == reason.wire_label() || label
            == reason.shown(),
{
    labels_round_trip(reason);
}

} // verus!
