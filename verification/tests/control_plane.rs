//! Control plane: lifecycle, time sync, stop policy, hashes and the arbiter.

use rl78_sim::cluster::arbiter::{
    root_path_for_cluster, ArbiterError, ArbiterOptions, BarrierAction, BarrierNote, PeerTable,
    SyncAction, SyncNote, TimeSync,
};
use rl78_sim::cluster::board_runtime::{BoardAction, BoardLoop, PollOutcome};
use rl78_sim::cluster::cluster_stop::is_cluster_relevant_reason;
use rl78_sim::cluster::control::{ControlMessage, HostStopReason};
use rl78_sim::cluster::ipc::control_bus::{a2n_limits, n2a_limits};
use rl78_sim::cluster::ipc::hash::{board_hash_table, board_id_hash, hash_table_of};
use rl78_sim::cluster::lifecycle::{NodeEffect, NodeState, PeerEffect, PeerState};
use rl78_sim::cluster::node::{host_stop_message, notify_host_stop};
use rl78_sim::cluster::time_sync::TimeCeiling;
use rl78_sim::cluster::topology::{BoardSpec, LogicalTopology, TopologyError};
use rl78_sim::kernel::StopReason;

#[test]
fn node_happy_path() {
    let hash_a = board_id_hash("a");
    let mut s = NodeState::AwaitingStartup;
    let (n, eff) = s.on_message(
        hash_a,
        ControlMessage::StartupRecord {
            board_id_hash: hash_a,
            margin_ns: 1000,
            headroom_threshold_ns: 100,
        },
    );
    assert_eq!(n, NodeState::AwaitingStart);
    assert_eq!(eff, Some(NodeEffect::SendReady));
    s = n;
    let (n, eff) = s.on_message(hash_a, ControlMessage::Start);
    assert_eq!(n, NodeState::Running);
    assert!(eff.is_none());
}

#[test]
fn node_ignores_startup_after_running() {
    let hash_a = board_id_hash("a");
    let s = NodeState::Running;
    let (n, eff) = s.on_message(
        hash_a,
        ControlMessage::StartupRecord {
            board_id_hash: hash_a,
            margin_ns: 1000,
            headroom_threshold_ns: 100,
        },
    );
    assert_eq!(n, NodeState::Running);
    assert!(matches!(eff, Some(NodeEffect::Warn(_))));
}

#[test]
fn peer_ready_and_duplicate() {
    let hash_a = board_id_hash("a");
    let mut s = PeerState::AwaitingReady;
    let (n, eff) = s.on_message(hash_a, ControlMessage::Ready { board_id_hash: hash_a });
    assert_eq!(n, PeerState::Ready);
    assert!(eff.is_none());
    s = n;
    let (n, eff) = s.on_message(hash_a, ControlMessage::Ready { board_id_hash: hash_a });
    assert_eq!(n, PeerState::Ready);
    assert!(matches!(eff, Some(PeerEffect::Warn(_))));
}

#[test]
fn peer_host_stop_while_running() {
    let hash_a = board_id_hash("a");
    let s = PeerState::Running;
    let (n, eff) = s.on_message(
        hash_a,
        ControlMessage::HostStop { board_id_hash: hash_a, reason: HostStopReason::Breakpoint },
    );
    assert_eq!(n, PeerState::Stopped);
    assert_eq!(
        eff,
        Some(PeerEffect::HostStop { board_id_hash: hash_a, reason: HostStopReason::Breakpoint })
    );
}

#[test]
fn node_cluster_stop_while_running() {
    let s = NodeState::Running;
    let (n, eff) = s.on_message(
        board_id_hash("b"),
        ControlMessage::ClusterStop { reason: HostStopReason::Breakpoint },
    );
    assert_eq!(n, NodeState::Stopped);
    assert!(matches!(eff, Some(NodeEffect::Warn(_))));
}

#[test]
fn warnings_spell_out_message_and_state() {
    let (_, eff) = NodeState::Stopped.on_message(1, ControlMessage::Allowed { allowed_ns: 7 });
    assert_eq!(
        eff,
        Some(NodeEffect::Warn("ignoring Allowed { allowed_ns: 7 } in state Stopped".to_string()))
    );
    let (n, eff) = NodeState::AwaitingStartup.on_message(
        0xAB,
        ControlMessage::StartupRecord {
            board_id_hash: 0x1F,
            margin_ns: 1,
            headroom_threshold_ns: 1,
        },
    );
    assert_eq!(n, NodeState::AwaitingStartup);
    assert_eq!(
        eff,
        Some(NodeEffect::Warn(
            "StartupRecord board_id_hash 0x1f != local 0xab; ignoring".to_string()
        ))
    );
    let (_, eff) = PeerState::Running.on_message(
        2,
        ControlMessage::TimeReport { board_id_hash: 3, virtual_time_ns: 9 },
    );
    assert_eq!(
        eff,
        Some(PeerEffect::Warn("TimeReport board_id_hash 0x3 != 0x2; ignoring".to_string()))
    );
    let (_, eff) = PeerState::Stopped.on_message(
        16,
        ControlMessage::HostStop { board_id_hash: 16, reason: HostStopReason::ExternalStop },
    );
    assert_eq!(
        eff,
        Some(PeerEffect::Warn(
            "ignoring HostStop { board_id_hash: 16, reason: ExternalStop } from 0x10 in state \
             Stopped"
                .to_string()
        ))
    );
}

#[test]
fn allowed_is_min_plus_margin() {
    let mut ceil = TimeCeiling::new(vec!["a".to_string(), "b".to_string()], 1000);
    ceil.report("a", 50);
    ceil.report("b", 200);
    assert_eq!(ceil.allowed_ns(), 1050);
    // Stopped/halted board keeps last report and pins the min.
    ceil.report("b", 5000);
    assert_eq!(ceil.allowed_ns(), 1050);
}

#[test]
fn ceiling_edges() {
    let empty = TimeCeiling::new(vec![], 7);
    assert_eq!(empty.allowed_ns(), 7);
    assert_eq!(empty.margin_ns(), 7);
    let mut ceil = TimeCeiling::new(vec!["a".to_string(), "a".to_string()], u64::MAX);
    assert_eq!(ceil.reports.len(), 1);
    ceil.report("nobody", 5);
    ceil.report("a", 5);
    assert_eq!(ceil.allowed_ns(), u64::MAX);
}

#[test]
fn hash_is_stable() {
    assert_eq!(board_id_hash("a"), board_id_hash("a"));
    assert_ne!(board_id_hash("a"), board_id_hash("b"));
}

#[test]
fn hash_is_xxh3_of_the_bytes() {
    assert_eq!(board_id_hash("a"), 0xe6c6_32b6_1e96_4e1f);
    assert_eq!(board_id_hash("board-7"), xxhash_rust::xxh3::xxh3_64(b"board-7"));
}

#[test]
fn table_rejects_duplicate_ids() {
    // Same id twice is a collision on the hash set insert of the same hash.
    let err = board_hash_table(vec!["a", "a"]).unwrap_err();
    assert!(err.contains("collision"));
}

#[test]
fn table_looks_ids_up() {
    let table = board_hash_table(vec!["a", "b"]).unwrap();
    assert_eq!(table.len(), 2);
    assert_eq!(table[&board_id_hash("b")], "b");
    let err = hash_table_of(&vec!["x", "y", "z"], &vec![1, 26, 26]).unwrap_err();
    assert_eq!(err, "board_id hash collision for 'z' (hash=0x1a)");
}

#[test]
fn halt_is_not_cluster_relevant() {
    assert!(!is_cluster_relevant_reason("halt"));
    assert!(is_cluster_relevant_reason("breakpoint"));
    assert!(is_cluster_relevant_reason("external_stop"));
    assert!(is_cluster_relevant_reason("external"));
    assert!(is_cluster_relevant_reason("step"));
    assert!(is_cluster_relevant_reason("unmapped"));
}

#[test]
fn host_stop_labels() {
    assert_eq!(HostStopReason::from_label("external"), Some(HostStopReason::ExternalStop));
    assert_eq!(HostStopReason::ExternalStop.label(), "external_stop");
    assert_eq!(HostStopReason::ExternalStop.shown_text(), "external");
    assert_eq!(host_stop_message(4, "halt"), None);
    assert_eq!(
        notify_host_stop("a", "step"),
        Some(ControlMessage::HostStop {
            board_id_hash: board_id_hash("a"),
            reason: HostStopReason::Step
        })
    );
}

fn two_boards(ready_timeout_ms: u64) -> LogicalTopology {
    let board = |id: &str| BoardSpec {
        id: id.to_string(),
        kind: "rl78".to_string(),
        elf: None,
        endpoints: vec![],
    };
    LogicalTopology {
        boards: vec![board("a"), board("b")],
        edges: vec![],
        margin_ns: 1000,
        headroom_threshold_ns: 100,
        ready_timeout_ms,
    }
}

fn ready(id: &str) -> ControlMessage {
    ControlMessage::Ready { board_id_hash: board_id_hash(id) }
}

#[test]
fn barrier_completes_when_every_board_is_ready() {
    let topo = two_boards(2_000);
    let mut peers = PeerTable::for_boards(&topo.boards).unwrap();
    let startups = peers.startups(&topo);
    assert_eq!(startups.len(), 2);
    assert_eq!(
        startups[1],
        ControlMessage::StartupRecord {
            board_id_hash: board_id_hash("b"),
            margin_ns: 1000,
            headroom_threshold_ns: 100
        }
    );
    assert!(matches!(peers.barrier_action(&topo, 0, 0), BarrierAction::Wait));
    assert!(matches!(
        peers.on_barrier_message(ready("a")),
        BarrierNote::Stepped { peer: 0, effect: None }
    ));
    assert!(matches!(
        peers.on_barrier_message(ready("a")),
        BarrierNote::Stepped { peer: 0, effect: Some(PeerEffect::Warn(_)) }
    ));
    assert!(matches!(peers.on_barrier_message(ready("zz")), BarrierNote::UnknownBoard));
    assert!(matches!(
        peers.on_barrier_message(ControlMessage::Start),
        BarrierNote::Unexpected
    ));
    match peers.barrier_action(&topo, 100_000_000, 50_000_001) {
        BarrierAction::Repeat(again) => assert_eq!(again, vec![startups[1]]),
        other => panic!("{other:?}"),
    }
    peers.on_barrier_message(ready("b"));
    assert!(matches!(peers.barrier_action(&topo, u128::MAX, 0), BarrierAction::Complete));
    peers.start();
    assert_eq!(peers.states, vec![PeerState::Running, PeerState::Running]);
}

#[test]
fn barrier_times_out_with_the_missing_boards() {
    let topo = two_boards(200);
    let mut peers = PeerTable::for_boards(&topo.boards).unwrap();
    assert_eq!(peers.missing(), "a,b");
    peers.on_barrier_message(ready("a"));
    assert!(matches!(peers.barrier_action(&topo, 199_999_999, 0), BarrierAction::Wait));
    match peers.barrier_action(&topo, 200_000_000, 0) {
        BarrierAction::Fail(e) => {
            assert!(matches!(&e, ArbiterError::ReadyTimeout { timeout_ms: 200, missing } if missing == "b"));
            assert_eq!(
                e.shown_text(),
                "ready barrier timed out after 200ms; missing boards: b"
            );
        }
        other => panic!("{other:?}"),
    }
}

#[test]
fn colliding_boards_are_refused() {
    let topo = two_boards(1);
    let err = PeerTable::with_hashes(&topo.boards, vec![5, 5]).unwrap_err();
    assert_eq!(err, "board_id hash collision for 'b' (hash=0x5)");
}

fn running() -> TimeSync {
    let topo = two_boards(1);
    let mut peers = PeerTable::with_hashes(&topo.boards, vec![10, 20]).unwrap();
    peers.on_barrier_message(ControlMessage::Ready { board_id_hash: 10 });
    peers.on_barrier_message(ControlMessage::Ready { board_id_hash: 20 });
    peers.start();
    TimeSync::new(peers, topo.margin_ns)
}

#[test]
fn time_sync_publishes_a_changed_ceiling_once() {
    let mut sync = running();
    assert_eq!(sync.allowed_ns, 1000);
    let report =
        |h, t| ControlMessage::TimeReport { board_id_hash: h, virtual_time_ns: t };
    assert!(matches!(sync.on_message(report(10, 500)), SyncNote::Stepped { peer: 0, .. }));
    assert_eq!(sync.end_batch(), SyncAction::Idle);
    assert!(matches!(sync.on_message(report(30, 500)), SyncNote::UnknownBoard));
    assert!(matches!(sync.on_message(ControlMessage::Start), SyncNote::Unexpected));
    sync.on_message(report(20, 300));
    assert_eq!(
        sync.end_batch(),
        SyncAction::Publish(ControlMessage::Allowed { allowed_ns: 1300 })
    );
    assert_eq!(sync.end_batch(), SyncAction::Idle);
    assert!(!sync.is_over(299_999_999));
    assert!(sync.is_over(300_000_000));
}

#[test]
fn host_stop_stops_the_cluster() {
    let mut sync = running();
    assert!(!sync.is_over(0));
    let stop = |h, reason| ControlMessage::HostStop { board_id_hash: h, reason };
    sync.on_message(ControlMessage::TimeReport { board_id_hash: 20, virtual_time_ns: 9 });
    sync.on_message(stop(10, HostStopReason::Breakpoint));
    assert_eq!(
        sync.end_batch(),
        SyncAction::Stop {
            source: 10,
            message: ControlMessage::ClusterStop { reason: HostStopReason::Breakpoint }
        }
    );
    assert_eq!(sync.peers.states, vec![PeerState::Stopped, PeerState::Stopped]);
    assert!(sync.is_over(0));
}

#[test]
fn last_host_stop_of_a_batch_wins() {
    let mut sync = running();
    let stop = |h, reason| ControlMessage::HostStop { board_id_hash: h, reason };
    sync.on_message(stop(10, HostStopReason::Breakpoint));
    sync.on_message(stop(20, HostStopReason::Unmapped));
    // A stopped peer is not heard again.
    sync.on_message(stop(10, HostStopReason::Step));
    assert_eq!(
        sync.end_batch(),
        SyncAction::Stop {
            source: 20,
            message: ControlMessage::ClusterStop { reason: HostStopReason::Unmapped }
        }
    );
}

#[test]
fn arbiter_options_and_errors() {
    let opts = ArbiterOptions::from_topology_path(
        "/t.json".to_string(),
        Some("/opt/bin".to_string()),
        "7-8".to_string(),
        "/run/user/1/",
    )
    .unwrap();
    assert_eq!(opts.node_bin, "/opt/bin/cluster-node");
    assert_eq!(opts.iox_root, "/run/user/1/sim-cluster/iox-7-8");
    assert_eq!(root_path_for_cluster("", "k"), "sim-cluster/iox-k");
    assert!(opts.check_node_bin(true).is_ok());
    assert_eq!(
        opts.check_node_bin(false).unwrap_err().shown_text(),
        "cluster-node not found at /opt/bin/cluster-node"
    );
    let err = ArbiterOptions::from_topology_path("t".to_string(), None, "k".to_string(), "/")
        .unwrap_err();
    assert_eq!(err.shown_text(), "current_exe has no parent");
    assert_eq!(ArbiterError::Io("x".to_string()).shown_text(), "I/O error: x");
    assert_eq!(ArbiterError::Ipc("x".to_string()).shown_text(), "ipc error: x");
    assert_eq!(
        ArbiterError::Topology(TopologyError::Invalid("x".to_string())).shown_text(),
        "topology error: x"
    );
}

#[test]
fn control_channel_limits() {
    assert_eq!(a2n_limits(0).max_subscribers, 1);
    let a2n = a2n_limits(3);
    assert_eq!((a2n.max_publishers, a2n.max_subscribers, a2n.max_nodes), (1, 3, 7));
    assert_eq!((a2n.subscriber_max_buffer_size, a2n.history_size), (32, 16));
    let n2a = n2a_limits(3);
    assert_eq!((n2a.max_publishers, n2a.max_subscribers, n2a.max_nodes), (3, 1, 7));
    assert_eq!((n2a.subscriber_max_buffer_size, n2a.history_size), (64, 16));
}

fn published(board: &mut BoardLoop, msg: ControlMessage) -> ControlMessage {
    match board.on_control(msg) {
        Some(BoardAction::Publish(reply)) => reply,
        other => panic!("{other:?}"),
    }
}

#[test]
fn cluster_runs_and_stops_together() {
    let topo = two_boards(1_000);
    let mut peers = PeerTable::for_boards(&topo.boards).unwrap();
    let startups = peers.startups(&topo);
    let mut a = BoardLoop::new(board_id_hash("a"));
    let mut b = BoardLoop::new(board_id_hash("b"));
    // A record for another board leaves the state alone.
    assert!(matches!(a.on_control(startups[1]), Some(BoardAction::Warn(_))));
    assert_eq!(a.state, NodeState::AwaitingStartup);
    let ready_a = published(&mut a, startups[0]);
    let ready_b = published(&mut b, startups[1]);
    peers.on_barrier_message(ready_a);
    assert!(!peers.complete());
    peers.on_barrier_message(ready_b);
    assert!(peers.complete());
    peers.start();
    let mut sync = TimeSync::new(peers, topo.margin_ns);
    for board in [&mut a, &mut b] {
        assert_eq!(board.on_control(ControlMessage::Start), None);
        assert_eq!(board.state, NodeState::Running);
        assert_eq!(
            board.on_control(ControlMessage::Allowed { allowed_ns: sync.allowed_ns }),
            Some(BoardAction::SetAllowed { allowed_ns: 1000 })
        );
    }
    let report_a = a.on_poll(PollOutcome::Progressed, 950).time_report.unwrap();
    sync.on_message(report_a);
    assert_eq!(sync.end_batch(), SyncAction::Idle);
    let report_b = b.on_poll(PollOutcome::Progressed, 920).time_report.unwrap();
    sync.on_message(report_b);
    let allowed = ControlMessage::Allowed { allowed_ns: 1920 };
    assert_eq!(sync.end_batch(), SyncAction::Publish(allowed));
    a.on_control(allowed);
    let halt = PollOutcome::Stopped(StopReason::Halt);
    assert_eq!(a.on_poll(halt, 960).host_stop, None);
    let stop = PollOutcome::Stopped(StopReason::Step);
    sync.on_message(a.on_poll(stop, 970).host_stop.unwrap());
    let SyncAction::Stop { source, message } = sync.end_batch() else {
        panic!("no cluster stop");
    };
    assert_eq!(source, board_id_hash("a"));
    b.on_control(message);
    assert_eq!(b.state, NodeState::Stopped);
}
