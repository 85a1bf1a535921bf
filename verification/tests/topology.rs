//! Logical topology: JSON shape, checks and defaults.

use rl78_sim::cluster::topology::{
    find_board_index, BoardSpec, DirectedEdge, EndpointDirection, EndpointSpec, LogicalTopology,
    PayloadKind, TopologyError, TopologyFields, DEFAULT_READY_TIMEOUT_MS,
};
use serde_json::Value;

fn sample_json() -> &'static str {
    r#"{
      "boards": [
        {
          "id": "a",
          "kind": "rl78",
          "elf": "a.elf",
          "endpoints": [
            {"name": "uart0_tx", "direction": "out", "payload": "uart"},
            {"name": "uart0_rx", "direction": "in", "payload": "uart"}
          ]
        },
        {
          "id": "b",
          "kind": "rl78",
          "endpoints": [
            {"name": "uart0_tx", "direction": "out", "payload": "uart"},
            {"name": "uart0_rx", "direction": "in", "payload": "uart"}
          ]
        }
      ],
      "edges": [
        {
          "from_board": "a",
          "from_endpoint": "uart0_tx",
          "to_board": "b",
          "to_endpoint": "uart0_rx",
          "payload": "uart"
        },
        {
          "from_board": "b",
          "from_endpoint": "uart0_tx",
          "to_board": "a",
          "to_endpoint": "uart0_rx",
          "payload": "uart",
          "uart_ring_len": 128
        }
      ],
      "margin_ns": 1000,
      "headroom_threshold_ns": 200
    }"#
}

fn text(v: &Value, key: &str) -> String {
    v[key].as_str().unwrap().to_string()
}

fn payload(v: &Value) -> PayloadKind {
    match v["payload"].as_str().unwrap() {
        "uart" => PayloadKind::Uart,
        "digital" => PayloadKind::Digital,
        other => panic!("payload {other}"),
    }
}

fn fields_of(json: &str) -> TopologyFields {
    let v: Value = serde_json::from_str(json).unwrap();
    let boards = v["boards"]
        .as_array()
        .unwrap()
        .iter()
        .map(|b| BoardSpec {
            id: text(b, "id"),
            kind: text(b, "kind"),
            elf: b["elf"].as_str().map(str::to_string),
            endpoints: b["endpoints"]
                .as_array()
                .unwrap()
                .iter()
                .map(|e| EndpointSpec {
                    name: text(e, "name"),
                    direction: match e["direction"].as_str().unwrap() {
                        "in" => EndpointDirection::In,
                        _ => EndpointDirection::Out,
                    },
                    payload: payload(e),
                })
                .collect(),
        })
        .collect();
    let edges = v["edges"]
        .as_array()
        .unwrap()
        .iter()
        .map(|e| DirectedEdge {
            from_board: text(e, "from_board"),
            from_endpoint: text(e, "from_endpoint"),
            to_board: text(e, "to_board"),
            to_endpoint: text(e, "to_endpoint"),
            payload: payload(e),
            uart_ring_len: e["uart_ring_len"].as_u64().map(|n| n as u32),
        })
        .collect();
    TopologyFields {
        boards,
        edges,
        margin_ns: v["margin_ns"].as_u64(),
        headroom_threshold_ns: v["headroom_threshold_ns"].as_u64(),
        ready_timeout_ms: v["ready_timeout_ms"].as_u64(),
    }
}

const REPORT: &str = "missing field `margin_ns` at line 41 column 5";

fn parse_logical_topology(json: &str) -> Result<LogicalTopology, TopologyError> {
    LogicalTopology::from_fields(fields_of(json), REPORT)
}

fn topology_of(json: &str) -> LogicalTopology {
    parse_logical_topology(json).unwrap()
}

fn fault(topo: &LogicalTopology) -> String {
    match topo.validate() {
        Err(TopologyError::Invalid(message)) => message,
        other => panic!("{other:?}"),
    }
}

#[test]
fn parses_two_board_uart_mesh() {
    let topo = parse_logical_topology(sample_json()).unwrap();
    assert_eq!(topo.boards.len(), 2);
    assert_eq!(topo.edges.len(), 2);
    assert_eq!(topo.margin_ns, 1000);
    assert_eq!(topo.headroom_threshold_ns, 200);
    assert_eq!(topo.ready_timeout_ms, DEFAULT_READY_TIMEOUT_MS);
    assert_eq!(LogicalTopology::uart_ring_len(&topo.edges[0]), 64);
    assert_eq!(LogicalTopology::uart_ring_len(&topo.edges[1]), 128);
}

#[test]
fn rejects_missing_margin() {
    let bad = sample_json().replace("\"margin_ns\": 1000,", "");
    assert!(parse_logical_topology(&bad).is_err());
}

#[test]
fn missing_fields_are_reported() {
    let mut fields = fields_of(sample_json());
    fields.margin_ns = None;
    fields.ready_timeout_ms = Some(7);
    // A lacking field is reported before any structural fault.
    let mut empty = fields.clone();
    empty.boards.clear();
    for lacking in [fields.clone(), empty] {
        let err = LogicalTopology::from_fields(lacking, REPORT).unwrap_err();
        assert_eq!(
            err.shown_text(),
            "invalid topology JSON: missing field `margin_ns` at line 41 column 5"
        );
    }
    fields.margin_ns = Some(0);
    assert_eq!(LogicalTopology::from_fields(fields.clone(), "").unwrap().ready_timeout_ms, 7);
    fields.headroom_threshold_ns = None;
    assert!(matches!(
        LogicalTopology::from_fields(fields, "x"),
        Err(TopologyError::Json(text)) if text == "x"
    ));
}

#[test]
fn rejects_unknown_edge_board() {
    let bad = sample_json().replace("\"to_board\": \"b\"", "\"to_board\": \"z\"");
    let err = parse_logical_topology(&bad).unwrap_err();
    assert!(err.shown_text().contains("unknown board"));
}

#[test]
fn board_lookup_finds_the_first() {
    let topo = topology_of(sample_json());
    assert_eq!(find_board_index(&topo.boards, "b"), Some(1));
    assert_eq!(find_board_index(&topo.boards, "z"), None);
}

#[test]
fn rejects_duplicate_and_empty_names() {
    let mut topo = topology_of(sample_json());
    topo.boards[1].id = "a".to_string();
    assert_eq!(fault(&topo), "duplicate board id 'a'");
    topo.boards[1].id = String::new();
    assert_eq!(fault(&topo), "board id must not be empty");
}

#[test]
fn rejects_wrong_directions_and_payloads() {
    let mut topo = topology_of(sample_json());
    topo.edges[0].from_endpoint = "uart0_rx".to_string();
    assert!(topo.validate().is_err());
    let mut topo = topology_of(sample_json());
    topo.edges[0].payload = PayloadKind::Digital;
    assert!(topo.validate().is_err());
    let mut topo = topology_of(sample_json());
    topo.boards.clear();
    assert!(topo.validate().is_err());
}
