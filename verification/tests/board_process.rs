//! Board processes: command lines, guest loop decisions and the server around them.

use rl78_sim::cluster::arbiter::ArbiterOptions;
use rl78_sim::cluster::board_runtime::{
    board_usage, cluster_host_stop_reason, find_board, may_poll, parse_board_args, BoardAction,
    BoardCliError, BoardError, BoardLoop, BoardTurn, PollActions, PollOutcome,
};
use rl78_sim::cluster::cli::{
    arbiter_usage, parse_arbiter_args, parse_server_args, server_usage, ArbiterCli, ServerCli,
};
use rl78_sim::cluster::control::{ControlMessage, HostStopReason};
use rl78_sim::cluster::ipc::names::{ctrl_a2n, ctrl_n2a, edge_id, uart_edge};
use rl78_sim::cluster::ipc::runtime::{cluster_key, path_as_bytes, root_dir_name};
use rl78_sim::cluster::lifecycle::NodeState;
use rl78_sim::cluster::server::{
    choose_package_root, exit_code, lock_result, prepend_pythonpath, python_candidates,
    python_output, topology_file_name, LockAttempt, ServerError, ServerOptions,
};
use rl78_sim::cluster::topology::{BoardSpec, LogicalTopology, TopologyError};
use rl78_sim::kernel::{BreakpointId, StopReason};

fn strings(args: &[&str]) -> Vec<String> {
    args.iter().map(|s| s.to_string()).collect()
}

#[test]
fn halt_is_not_cluster_host_stop() {
    assert!(cluster_host_stop_reason(&StopReason::Halt).is_none());
}

#[test]
fn breakpoint_maps_to_host_stop() {
    assert_eq!(
        cluster_host_stop_reason(&StopReason::Breakpoint { id: BreakpointId(1) }),
        Some(HostStopReason::Breakpoint)
    );
}

#[test]
fn unmapped_maps_to_host_stop() {
    assert_eq!(
        cluster_host_stop_reason(&StopReason::Unmapped { addr: 0, write: true }),
        Some(HostStopReason::Unmapped)
    );
}

#[test]
fn parse_board_args_ok() {
    let opts = parse_board_args(
        "prog",
        strings(&[
            "--board-id",
            "a",
            "--cluster-key",
            "k",
            "--iox-root",
            "/tmp/iox",
            "--topology",
            "/tmp/t.json",
        ]),
    )
    .unwrap();
    assert_eq!(opts.board_id, "a");
    assert_eq!(opts.cluster_key, "k");
    assert_eq!(opts.iox_root, "/tmp/iox");
    assert_eq!(opts.topology_path, "/tmp/t.json");
}

#[test]
fn parse_board_args_help() {
    assert!(matches!(
        parse_board_args("prog", strings(&["--help"])),
        Err(BoardCliError::Help)
    ));
}

fn board_fault(args: &[&str]) -> String {
    match parse_board_args("prog", strings(args)) {
        Err(BoardCliError::Message(m)) => m,
        other => panic!("{other:?}"),
    }
}

#[test]
fn board_args_faults() {
    assert_eq!(board_fault(&["--board-id"]), "prog: --board-id requires a value");
    assert_eq!(board_fault(&["--cluster-key"]), "prog: --cluster-key requires a value");
    assert_eq!(board_fault(&["--iox-root"]), "prog: --iox-root requires a path");
    assert_eq!(board_fault(&["--topology"]), "prog: --topology requires a path");
    assert_eq!(board_fault(&["-x", "--help"]), "prog: unknown argument -x");
    assert_eq!(
        board_fault(&["--board-id", "a"]),
        "prog: --board-id, --cluster-key, --iox-root, and --topology are required"
    );
    let twice = parse_board_args(
        "prog",
        strings(&[
            "--board-id", "a", "--board-id", "-h", "--cluster-key", "k", "--iox-root", "r",
            "--topology", "t",
        ]),
    )
    .unwrap();
    assert_eq!(twice.board_id, "-h");
    assert!(board_usage("prog").starts_with("Usage: prog --board-id <id>"));
    assert!(board_usage("prog").ends_with("runs only after Start.\n"));
}

#[test]
fn spawned_board_gets_its_options() {
    let opts = ArbiterOptions {
        topology_path: "/t.json".to_string(),
        node_bin: "/n".to_string(),
        cluster_key: "9-9".to_string(),
        iox_root: "/root".to_string(),
    };
    let parsed = parse_board_args("p", opts.node_args("b7")).unwrap();
    assert_eq!(parsed.board_id, "b7");
    assert_eq!(parsed.cluster_key, "9-9");
    assert_eq!(parsed.iox_root, "/root");
    assert_eq!(parsed.topology_path, "/t.json");
}

#[test]
fn find_board_reports_unknown_ids() {
    let topo = LogicalTopology {
        boards: vec![BoardSpec {
            id: "a".to_string(),
            kind: "rl78".to_string(),
            elf: None,
            endpoints: vec![],
        }],
        edges: vec![],
        margin_ns: 1,
        headroom_threshold_ns: 1,
        ready_timeout_ms: 1,
    };
    assert_eq!(find_board(&topo, "a").unwrap().kind, "rl78");
    assert_eq!(
        find_board(&topo, "q").unwrap_err().shown_text(),
        "board id `q` not in topology"
    );
}

#[test]
fn board_errors_are_shown() {
    assert_eq!(BoardError::Io("e".to_string()).shown_text(), "I/O error: e");
    assert_eq!(BoardError::Ipc("e".to_string()).shown_text(), "ipc error: e");
    assert_eq!(BoardError::Firmware("e".to_string()).shown_text(), "firmware error: e");
    assert_eq!(
        BoardError::Topology(TopologyError::Invalid("e".to_string())).shown_text(),
        "topology error: e"
    );
}

fn running_board() -> BoardLoop {
    let mut board = BoardLoop::new(5);
    let ready = board.on_control(ControlMessage::StartupRecord {
        board_id_hash: 5,
        margin_ns: 1000,
        headroom_threshold_ns: 100,
    });
    assert_eq!(
        ready,
        Some(BoardAction::Publish(ControlMessage::Ready { board_id_hash: 5 }))
    );
    assert_eq!(board.next_turn(), BoardTurn::Idle);
    assert_eq!(board.on_control(ControlMessage::Start), None);
    assert_eq!(
        board.on_control(ControlMessage::Allowed { allowed_ns: 1000 }),
        Some(BoardAction::SetAllowed { allowed_ns: 1000 })
    );
    board
}

#[test]
fn board_loop_starts_once_and_reports_low_headroom() {
    let mut board = running_board();
    assert_eq!(board.next_turn(), BoardTurn::Run { start_guest: true });
    assert_eq!(board.next_turn(), BoardTurn::Run { start_guest: false });
    let nothing = PollActions { time_report: None, host_stop: None };
    assert_eq!(board.on_poll(PollOutcome::Progressed, 900), nothing);
    let report = Some(ControlMessage::TimeReport { board_id_hash: 5, virtual_time_ns: 901 });
    assert_eq!(
        board.on_poll(PollOutcome::Progressed, 901),
        PollActions { time_report: report, host_stop: None }
    );
    assert_eq!(board.on_poll(PollOutcome::Progressed, 901), nothing);
    assert_eq!(board.on_poll(PollOutcome::Unexpected, 2000), nothing);
    assert_eq!(board.on_poll(PollOutcome::Stopped(StopReason::Halt), 901), nothing);
    assert_eq!(
        board.on_poll(PollOutcome::Stopped(StopReason::Step), 2000),
        PollActions {
            time_report: Some(ControlMessage::TimeReport {
                board_id_hash: 5,
                virtual_time_ns: 2000
            }),
            host_stop: Some(ControlMessage::HostStop {
                board_id_hash: 5,
                reason: HostStopReason::Step
            }),
        }
    );
    assert!(may_poll(false, true));
    assert!(!may_poll(true, true));
    assert!(!may_poll(false, false));
}

#[test]
fn stopped_board_takes_no_ceiling() {
    let mut board = running_board();
    board.on_control(ControlMessage::ClusterStop { reason: HostStopReason::Step });
    assert_eq!(board.state, NodeState::Stopped);
    assert!(matches!(
        board.on_control(ControlMessage::Allowed { allowed_ns: 9 }),
        Some(BoardAction::Warn(_))
    ));
    assert_eq!(board.allowed_ns, 1000);
    assert_eq!(board.next_turn(), BoardTurn::Idle);
}

#[test]
fn arbiter_command_line() {
    assert!(matches!(parse_arbiter_args(&strings(&["-h"])), ArbiterCli::Help));
    match parse_arbiter_args(&strings(&["--topology", "t", "--node-bin", "n"])) {
        ArbiterCli::Run { topology, node_bin } => {
            assert_eq!((topology.as_str(), node_bin.as_deref()), ("t", Some("n")));
        }
        other => panic!("{other:?}"),
    }
    let fault = |args: &[&str]| match parse_arbiter_args(&strings(args)) {
        ArbiterCli::Fault { message, with_usage } => (message, with_usage),
        other => panic!("{other:?}"),
    };
    assert_eq!(fault(&[]), ("cluster-arbiter: --topology is required".to_string(), true));
    assert_eq!(
        fault(&["--topology"]),
        ("cluster-arbiter: --topology requires a path".to_string(), false)
    );
    assert_eq!(
        fault(&["--node-bin"]),
        ("cluster-arbiter: --node-bin requires a path".to_string(), false)
    );
    assert_eq!(fault(&["x"]), ("cluster-arbiter: unknown argument x".to_string(), true));
    assert!(arbiter_usage().contains("--topology <logical.json>"));
}

#[test]
fn server_command_line() {
    assert!(matches!(parse_server_args(&strings(&["--help", "x"])), ServerCli::Help));
    assert!(matches!(parse_server_args(&vec![]), ServerCli::Fault(None)));
    assert!(matches!(parse_server_args(&strings(&["a", "b"])), ServerCli::Fault(Some(_))));
    assert!(matches!(parse_server_args(&strings(&["a"])), ServerCli::Run(s) if s == "a"));
    assert!(server_usage().starts_with("Usage: cluster-server <topology.py>\n"));
}

#[test]
fn script_output_is_trimmed() {
    let ok = python_output(true, String::new(), " \t\n{\"a\": 1}\u{a0}\n", String::new());
    assert_eq!(ok.unwrap(), "{\"a\": 1}");
    let empty = python_output(true, String::new(), " \n", String::new()).unwrap_err();
    assert_eq!(empty.shown_text(), "python topology script produced empty stdout");
    let failed = python_output(false, "exit status: 1".to_string(), "{}", "boom".to_string());
    assert_eq!(
        failed.unwrap_err().shown_text(),
        "python exited with status exit status: 1: boom"
    );
}

#[test]
fn server_options_and_lock() {
    let opts = ServerOptions::from_script(
        "s.py".to_string(),
        Some("/bin".to_string()),
        Ok("/py".to_string()),
        "/run",
    )
    .unwrap();
    assert_eq!(opts.arbiter_bin, "/bin/cluster-arbiter");
    assert_eq!(opts.lock_path, "/run/sim-cluster-server.lock");
    assert_eq!(opts.python_bin, "python3");
    assert!(opts.check_files(true, true).is_ok());
    assert_eq!(
        opts.check_files(false, false).unwrap_err().shown_text(),
        "topology script not found: s.py"
    );
    assert_eq!(
        opts.check_files(true, false).unwrap_err().shown_text(),
        "cluster-arbiter not found at /bin/cluster-arbiter (build the arbiter binary first)"
    );
    assert!(lock_result(LockAttempt::Held, "/l", "").is_ok());
    assert_eq!(
        lock_result(LockAttempt::Busy, "/l", "").unwrap_err().shown_text(),
        "another cluster-server instance holds the lock at /l"
    );
    assert!(matches!(
        lock_result(LockAttempt::Failed, "/l", "x"),
        Err(ServerError::Io(w)) if w == "x"
    ));
    assert_eq!(exit_code(Some(3)), 3);
    assert_eq!(exit_code(None), 1);
}

#[test]
fn package_search() {
    let above = strings(&["/a/b", "/a", "/", "x", "y", "z", "never"]);
    let candidates = python_candidates(Some("/m"), &above);
    assert_eq!(candidates.len(), 7);
    assert_eq!(candidates[0], "/m/../python");
    assert_eq!(candidates[1], "/a/b/python");
    assert_eq!(candidates[3], "/python");
    let mut found = vec![false; 7];
    assert!(choose_package_root(&candidates, &found).is_err());
    found[2] = true;
    found[4] = true;
    assert_eq!(choose_package_root(&candidates, &found).unwrap(), "/a/python");
    assert_eq!(prepend_pythonpath("/p", None), "/p");
    assert_eq!(prepend_pythonpath("/p", Some("/q:/r")), "/p:/q:/r");
    assert_eq!(topology_file_name(1203), "sim-cluster-topology-1203.json");
}

#[test]
fn service_names() {
    assert_eq!(ctrl_a2n("k"), "sim-cluster/k/ctrl/a2n");
    assert_eq!(ctrl_n2a("k"), "sim-cluster/k/ctrl/n2a");
    let id = edge_id("a", "tx", "b", "rx");
    assert_eq!(id, "a:tx->b:rx");
    assert_eq!(uart_edge("k", &id), "sim-cluster/k/uart/a_tx-_b_rx");
    assert_eq!(root_dir_name("k"), "iox-k");
    assert_eq!(path_as_bytes("/tmp"), b"/tmp/");
    assert_eq!(path_as_bytes("/tmp/"), b"/tmp/");
    assert_eq!(cluster_key(42, 1_000), "42-1000");
}

#[test]
fn every_white_space_character_is_trimmed() {
    for c in '\0'..=char::MAX {
        let text = format!("{c}x{c}");
        let out = python_output(true, String::new(), &text, String::new()).unwrap();
        assert_eq!(out, text.trim(), "{:#x}", c as u32);
    }
}
