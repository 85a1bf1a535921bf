//! Host-stop notification of board processes.

use vstd::prelude::*;

use crate::cluster::control::{labels_name_their_reason, ControlMessage, HostStopReason};
use crate::cluster::ipc::hash::{board_id_hash, id_hash};

verus! {

/// The host stop of the board with this hash, if the label is cluster-relevant.
pub open spec fn host_stop_of_label(board_hash: u64, label: Seq<char>) -> Option<ControlMessage> {
    match HostStopReason::of_label(label) {
        Some(reason) => Some(ControlMessage::HostStop { board_id_hash: board_hash, reason }),
        None => None,
    }
}

/// The host stop message for a stop label, if the label is cluster-relevant.
pub fn host_stop_message(board_hash: u64, reason: &str) -> (r: Option<ControlMessage>)
    ensures
        r == host_stop_of_label(board_hash, reason@),
{
    match HostStopReason::from_label(reason) {
        Some(reason) => Some(ControlMessage::HostStop { board_id_hash: board_hash, reason }),
        None => None,
    }
}

/// What a board publishes to the arbiter on a host-initiated stop, when the
/// reason is cluster-relevant.
pub fn notify_host_stop(board_id: &str, reason: &str) -> (r: Option<ControlMessage>)
    ensures
        r == host_stop_of_label(id_hash(board_id@), reason@),
{
    host_stop_message(board_id_hash(board_id), reason)
}

/// A stop is announced exactly when its label names a reason, under the hash of
/// the board and with that reason.
pub proof fn named_stop_is_announced(board_hash: u64, label: Seq<char>, reason: HostStopReason)
    ensures
        host_stop_of_label(board_hash, label) == Some(
            ControlMessage::HostStop { board_id_hash: board_hash, reason },
        ) <==> label == reason.wire_label() || label == reason.shown(),
        host_stop_of_label(board_hash, reason.wire_label()) is Some,
{
    labels_name_their_reason(label, reason);
    labels_name_their_reason(reason.wire_label(), reason);
}

} // verus!
