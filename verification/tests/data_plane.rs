//! Data plane: UART services, ports, lanes, rings and mailboxes.

use rl78_sim::cluster::blit::UartInbox;
use rl78_sim::cluster::data_plane::{needs_uart_plane, DataPlaneError, UartDataPlaneMap};
use rl78_sim::cluster::ipc::uart_bus::{ports_for_board, uart_services, PortRole};
use rl78_sim::cluster::ipc::wire::UartFrame;
use rl78_sim::cluster::shm_uart::{
    align_up, check_header, estimate_size, next_slot, pop_step, push_step, ring_capacity, PopStep,
    PushStep, ShmUartError, ShmUartFrame, UartRing, MAGIC,
};
use rl78_sim::cluster::topology::{
    BoardSpec, DirectedEdge, EndpointDirection, EndpointSpec, LogicalTopology, PayloadKind,
};

fn uart_board(id: &str) -> BoardSpec {
    BoardSpec {
        id: id.to_string(),
        kind: "rl78".to_string(),
        elf: None,
        endpoints: vec![
            EndpointSpec {
                name: "uart0_tx".to_string(),
                direction: EndpointDirection::Out,
                payload: PayloadKind::Uart,
            },
            EndpointSpec {
                name: "uart0_rx".to_string(),
                direction: EndpointDirection::In,
                payload: PayloadKind::Uart,
            },
        ],
    }
}

fn edge(from: &str, to: &str, ring: Option<u32>) -> DirectedEdge {
    DirectedEdge {
        from_board: from.to_string(),
        from_endpoint: "uart0_tx".to_string(),
        to_board: to.to_string(),
        to_endpoint: "uart0_rx".to_string(),
        payload: PayloadKind::Uart,
        uart_ring_len: ring,
    }
}

fn two_board_topo() -> LogicalTopology {
    LogicalTopology {
        boards: vec![uart_board("a"), uart_board("b")],
        edges: vec![edge("a", "b", Some(8)), edge("b", "a", Some(1))],
        margin_ns: 1_000,
        headroom_threshold_ns: 500,
        ready_timeout_ms: 1_000,
    }
}

fn strings(args: &[&str]) -> Vec<String> {
    args.iter().map(|s| s.to_string()).collect()
}

#[test]
fn services_hold_at_least_two_frames() {
    let topo = two_board_topo();
    let services = uart_services("k", &topo);
    assert_eq!(services.len(), 2);
    assert_eq!(services[0].edge_id, "a:uart0_tx->b:uart0_rx");
    assert_eq!(services[0].capacity, 8);
    assert_eq!(services[1].capacity, 2);
    let mut digital = two_board_topo();
    digital.edges[0].payload = PayloadKind::Digital;
    assert_eq!(uart_services("k", &digital).len(), 1);
}

#[test]
fn board_opens_its_ends() {
    let topo = two_board_topo();
    let ports = ports_for_board("k", "a", &topo.edges);
    assert_eq!(ports.len(), 2);
    assert_eq!(ports[0].role, PortRole::Publisher);
    assert_eq!(ports[1].role, PortRole::Subscriber);
    assert_eq!(ports[1].edge_id, "b:uart0_tx->a:uart0_rx");
    assert!(ports_for_board("k", "z", &topo.edges).is_empty());
}

#[test]
fn map_pairs_edges_with_endpoints() {
    let mut topo = two_board_topo();
    topo.edges.push(edge("a", "c", None));
    let tx = strings(&["a:uart0_tx->b:uart0_rx", "a:uart0_tx->c:uart0_rx", "unneeded"]);
    let rx = strings(&["b:uart0_tx->a:uart0_rx"]);
    let map = UartDataPlaneMap::open("a", &topo.boards[0], &topo.edges, &tx, &rx).unwrap();
    assert_eq!(map.producers, tx[..2].to_vec());
    assert_eq!(map.pending_rx.len(), 1);
    assert_eq!(map.pending_tx.len(), 1);
    assert_eq!(map.pending_tx[0].edge_ids, tx[..2].to_vec());
    assert_eq!(map.required_ins, strings(&["uart0_rx"]));
    assert_eq!(map.required_outs, strings(&["uart0_tx"]));
    let plane = map.bind(&strings(&["uart0_rx"]), &strings(&["uart0_tx"])).unwrap();
    assert_eq!(plane.rx[0].endpoint, "uart0_rx");
    assert_eq!(plane.tx[0].endpoint, "uart0_tx");
}

#[test]
fn loopback_edge_has_no_consumer() {
    let mut topo = two_board_topo();
    topo.edges = vec![edge("a", "a", None)];
    let ids = strings(&["a:uart0_tx->a:uart0_rx"]);
    let err = UartDataPlaneMap::open("a", &topo.boards[0], &topo.edges, &ids, &vec![]).unwrap_err();
    assert_eq!(err, "missing uart consumer for a:uart0_tx->a:uart0_rx");
}

#[test]
fn repeated_edge_has_no_second_consumer() {
    let mut topo = two_board_topo();
    topo.edges = vec![edge("b", "a", None), edge("b", "a", None)];
    let ids = strings(&["b:uart0_tx->a:uart0_rx"]);
    assert!(UartDataPlaneMap::open("a", &topo.boards[0], &topo.edges, &vec![], &ids).is_err());
}

fn bind_fault(ins: &[&str], outs: &[&str], producers: &[&str], board: &BoardSpec) -> String {
    let topo = two_board_topo();
    let rx = strings(&["b:uart0_tx->a:uart0_rx"]);
    let map =
        UartDataPlaneMap::open("a", board, &topo.edges, &strings(producers), &rx).unwrap();
    match map.bind(&strings(ins), &strings(outs)) {
        Err(DataPlaneError::Message(m)) => m,
        other => panic!("{other:?}"),
    }
}

#[test]
fn bind_names_what_is_missing() {
    let board = uart_board("a");
    let tx = ["a:uart0_tx->b:uart0_rx"];
    assert_eq!(
        bind_fault(&[], &["uart0_tx"], &tx, &board),
        "missing InPort<UartFrame> for topology endpoint `uart0_rx`"
    );
    assert_eq!(
        bind_fault(&["uart0_rx"], &[], &tx, &board),
        "missing OutPort<UartFrame> for topology endpoint `uart0_tx`"
    );
    assert_eq!(
        bind_fault(&["uart0_rx"], &["uart0_tx"], &[], &board),
        "missing uart producer for a:uart0_tx->b:uart0_rx"
    );
    let mut bare = uart_board("a");
    bare.endpoints.clear();
    assert_eq!(
        bind_fault(&[], &["uart0_tx"], &tx, &bare),
        "uart rx: no InPort for endpoint `uart0_rx` (edge b:uart0_tx->a:uart0_rx)"
    );
    assert_eq!(
        bind_fault(&["uart0_rx"], &[], &tx, &bare),
        "uart tx: no OutPort for endpoint `uart0_tx`"
    );
}

#[test]
fn plane_is_opened_where_uart_is_used() {
    let topo = two_board_topo();
    let mut bare = uart_board("z");
    bare.endpoints.clear();
    assert!(needs_uart_plane("a", &topo.boards[0], &topo));
    assert!(!needs_uart_plane("z", &bare, &topo));
    assert!(needs_uart_plane("z", &uart_board("z"), &topo));
}

#[test]
fn push_pop_round_trip() {
    let mut ring = UartRing::new(8);
    let frame = ShmUartFrame {
        data: b'A' as u16,
        data_bits: 8,
        stop_bits: 1,
        parity: 0,
        inverted: 0,
        _pad: 0,
        bit_time_ns: 1000,
    };
    assert!(!ring.push(frame));
    assert_eq!(ring.try_pop(), Some(frame));
    assert_eq!(ring.try_pop(), None);
}

#[test]
fn overflow_drops_oldest() {
    let mut ring = UartRing::new(4);
    for i in 0..3 {
        assert!(!ring.push(ShmUartFrame { data: i, ..ShmUartFrame::default() }));
    }
    // capacity 4, usable 3; the fourth drops oldest (0)
    assert!(ring.push(ShmUartFrame { data: 3, ..ShmUartFrame::default() }));
    assert!(ring.drops() >= 1);
    assert_eq!(ring.try_pop().unwrap().data, 1);
}

#[test]
fn ring_keeps_order_over_many_laps() {
    let mut ring = UartRing::new(0);
    assert_eq!(ring.capacity, 2);
    let mut ring3 = UartRing::new(3);
    for i in 0..20u16 {
        let frame = ShmUartFrame { data: i, ..ShmUartFrame::default() };
        ring.push(frame);
        ring3.push(frame);
        if i % 3 == 2 {
            assert_eq!(ring.try_pop().unwrap().data, i);
            assert_eq!(ring3.try_pop().unwrap().data, i - 1);
            assert_eq!(ring3.try_pop().unwrap().data, i);
            assert!(ring3.try_pop().is_none());
        }
    }
}

#[test]
fn segment_layout() {
    assert_eq!(ring_capacity(1), 2);
    assert_eq!(ring_capacity(9), 9);
    assert_eq!(estimate_size(4), 512 + 64 + 64 + 4 * 16 + 64);
    assert_eq!(align_up(1000, 64), 1024);
    assert_eq!(align_up(1024, 64), 1024);
    assert!(check_header(MAGIC, 2).is_ok());
    assert!(matches!(check_header(MAGIC, 1), Err(ShmUartError::BadHeader)));
    let err = check_header(0, 8).unwrap_err();
    assert_eq!(err.shown_text(), "invalid ring header (bad magic or capacity)");
    assert_eq!(ShmUartError::Event("x".to_string()).shown_text(), "event error: x");
    assert_eq!(ShmUartError::Shmem("x".to_string()).shown_text(), "shared memory error: x");
    assert_eq!(next_slot(3, 4), 0);
    assert_eq!(push_step(4, 3, 0), PushStep::DropOldest { tail: 1 });
    assert_eq!(push_step(4, 3, 1), PushStep::Store { slot: 3, head: 0 });
    assert_eq!(pop_step(4, 2, 2), None);
    assert_eq!(pop_step(4, 2, 3), Some(PopStep { slot: 3, tail: 0 }));
}

fn data(frames: &[ShmUartFrame]) -> Vec<u16> {
    frames.iter().map(|f| f.data).collect()
}

#[test]
fn inbox_drops_oldest_and_warns() {
    let mut inbox = UartInbox::new(2);
    for i in 1..4 {
        inbox.push(ShmUartFrame { data: i, ..ShmUartFrame::default() });
    }
    assert!(inbox.take_overflow_warning());
    assert!(!inbox.take_overflow_warning());
    assert_eq!(data(&inbox.drain(1)), vec![2]);
    assert_eq!(data(&inbox.drain(8)), vec![3]);
    assert!(inbox.drain(8).is_empty());
}

#[test]
fn inbox_holds_at_least_one_frame() {
    let mut inbox = UartInbox::new(0);
    inbox.push(ShmUartFrame { data: 5, ..ShmUartFrame::default() });
    assert!(!inbox.take_overflow_warning());
    assert_eq!(data(&inbox.drain(usize::MAX)), vec![5]);
}

#[test]
fn ring_drops_latch_once() {
    let mut ring = UartRing::new(4);
    for i in 0..4 {
        ring.push(ShmUartFrame { data: i, ..ShmUartFrame::default() });
    }
    let mut inbox = UartInbox::new(32);
    let mut seen = 0;
    while let Some(frame) = ring.try_pop() {
        inbox.receive(frame, ring.drops(), &mut seen);
    }
    assert_eq!(data(&inbox.drain(8)), vec![1, 2, 3]);
    assert!(inbox.take_overflow_warning());
    ring.push(ShmUartFrame { data: 9, ..ShmUartFrame::default() });
    let frame = ring.try_pop().unwrap();
    inbox.receive(frame, ring.drops(), &mut seen);
    assert!(!inbox.take_overflow_warning());
    assert_eq!(seen, 1);
}

#[test]
fn frames_default_to_zero() {
    let frame = UartFrame::default();
    assert_eq!((frame.data, frame.data_bits, frame.bit_time_ns), (0, 0, 0));
}
