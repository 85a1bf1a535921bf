//! Cluster-stop policy: which host stops propagate to peer boards.

use vstd::prelude::*;

use crate::cluster::control::HostStopReason;

verus! {

/// Labels that must be broadcast as a cluster stop.
///
/// Guest-local `halt` is intentionally absent.
pub open spec fn cluster_relevant(label: Seq<char>) -> bool {
    ||| label == "breakpoint"@
    ||| label == "external_stop"@
    ||| label == "external"@
    ||| label == "step"@
    ||| label == "unmapped"@
}

/// Whether a stop with this label propagates to peer boards. Wire labels
/// (snake case) and shown texts like `external` are accepted.
pub fn is_cluster_relevant_reason(reason: &str) -> (r: bool)
    ensures
        r == cluster_relevant(reason@),
{
    HostStopReason::from_label(reason).is_some()
}

/// The labels that propagate are exactly those that name a host stop reason.
pub proof fn relevant_labels_name_reasons(label: Seq<char>)
    ensures
        cluster_relevant(label) <==> HostStopReason::of_label(label) is Some,
{
}

} // verus!
