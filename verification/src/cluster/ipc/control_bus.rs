//! Quality of service of the two control channels.

use vstd::prelude::*;

verus! {

/// Limits with which a publish/subscribe service is created.
#[derive(Clone, Copy, Debug, PartialEq, Eq, Structural)]
pub struct ServiceLimits {
    pub max_publishers: usize,
    pub max_subscribers: usize,
    pub max_nodes: usize,
    pub subscriber_max_buffer_size: usize,
    pub history_size: usize,
}

/// One port per board, and one where there is no board.
pub open spec fn board_ports(board_count: usize) -> usize {
    if board_count == 0 {
        1
    } else {
        board_count
    }
}

/// Limits of the arbiter-to-nodes channel: one publisher, a subscriber per board.
pub fn a2n_limits(board_count: usize) -> (r: ServiceLimits)
    requires
        board_count + 4 <= usize::MAX,
    ensures
        r == (ServiceLimits {
            max_publishers: 1,
            max_subscribers: board_ports(board_count),
            max_nodes: (board_ports(board_count) + 4) as usize,
            subscriber_max_buffer_size: 32,
            history_size: 16,
        }),
{
    let n = if board_count == 0 {
        1
    } else {
        board_count
    };
    ServiceLimits {
        max_publishers: 1,
        max_subscribers: n,
        max_nodes: n + 4,
        subscriber_max_buffer_size: 32,
        history_size: 16,
    }
}

/// Limits of the nodes-to-arbiter channel: a publisher per board, one subscriber.
pub fn n2a_limits(board_count: usize) -> (r: ServiceLimits)
    requires
        board_count + 4 <= usize::MAX,
    ensures
        r == (ServiceLimits {
            max_publishers: board_ports(board_count),
            max_subscribers: 1,
            max_nodes: (board_ports(board_count) + 4) as usize,
            subscriber_max_buffer_size: 64,
            history_size: 16,
        }),
{
    let n = if board_count == 0 {
        1
    } else {
        board_count
    };
    ServiceLimits {
        max_publishers: n,
        max_subscribers: 1,
        max_nodes: n + 4,
        subscriber_max_buffer_size: 64,
        history_size: 16,
    }
}

/// There are as many ports as boards, and one where there is none.
pub proof fn every_board_has_a_port(board_count: usize)
    ensures
        board_ports(board_count) >= 1,
        board_ports(board_count) >= board_count,
        board_count >= 1 ==> board_ports(board_count) == board_count,
        board_ports(0) == 1,
{
}

} // verus!
