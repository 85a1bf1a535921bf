//! UART services of a cluster and the ports that a board opens on them.

use vstd::prelude::*;

use crate::cluster::ipc::names::{edge_id, edge_name, uart_edge, uart_service};
use crate::cluster::topology::{ring_len, DirectedEdge, LogicalTopology, PayloadKind};
use crate::text::{count_below, lemma_count_below, same_text};

verus! {

/// Frames that a board takes from one edge at a time.
pub const RX_BURST: usize = 64;

/// Node limit of a UART service.
pub const UART_MAX_NODES: usize = 16;

/// One UART service to create (one publisher, one subscriber).
#[derive(Clone, Debug)]
pub struct UartService {
    pub edge_id: String,
    pub service: String,
    pub capacity: u32,
}

/// What a UART service is, with its texts as characters.
pub struct UartServiceModel {
    pub edge_id: Seq<char>,
    pub service: Seq<char>,
    pub capacity: u32,
}

/// Id of an edge.
pub open spec fn id_of(edge: DirectedEdge) -> Seq<char> {
    edge_name(edge.from_board@, edge.from_endpoint@, edge.to_board@, edge.to_endpoint@)
}

/// Service of an edge: it holds the ring length of the edge, but at least two frames.
pub open spec fn service_of(cluster_key: Seq<char>, edge: DirectedEdge) -> UartServiceModel {
    UartServiceModel {
        edge_id: id_of(edge),
        service: uart_service(cluster_key, id_of(edge)),
        capacity: if ring_len(edge) < 2 {
            2
        } else {
            ring_len(edge)
        },
    }
}

impl UartService {
    /// The service with its texts as characters.
    pub open spec fn model(self) -> UartServiceModel {
        UartServiceModel {
            edge_id: self.edge_id@,
            service: self.service@,
            capacity: self.capacity,
        }
    }
}

/// Services of the UART edges among the first `n`, in order.
pub open spec fn services_of(cluster_key: Seq<char>, edges: Seq<DirectedEdge>, n: nat) -> Seq<
    UartServiceModel,
>
    decreases n,
{
    if n == 0 {
        seq![]
    } else {
        let before = services_of(cluster_key, edges, (n - 1) as nat);
        if edges[n - 1].payload == PayloadKind::Uart {
            before.push(service_of(cluster_key, edges[n - 1]))
        } else {
            before
        }
    }
}

/// Id of an edge of the topology.
pub fn id_of_edge(edge: &DirectedEdge) -> (r: String)
    ensures
        r@ == id_of(*edge),
{
    edge_id(
        edge.from_board.as_str(),
        edge.from_endpoint.as_str(),
        edge.to_board.as_str(),
        edge.to_endpoint.as_str(),
    )
}

/// The services of a cluster: one per directed UART edge.
pub fn uart_services(cluster_key: &str, topo: &LogicalTopology) -> (r: Vec<UartService>)
    ensures
        r@.map_values(|s: UartService| s.model()) == services_of(
            cluster_key@,
            topo.edges@,
            topo.edges@.len(),
        ),
{
    let mut out: Vec<UartService> = Vec::new();
    let mut i: usize = 0;
    while i < topo.edges.len()
        invariant
            i <= topo.edges@.len(),
            out@.map_values(|s: UartService| s.model()) == services_of(
                cluster_key@,
                topo.edges@,
                i as nat,
            ),
        decreases topo.edges@.len() - i,
    {
        let edge = &topo.edges[i];
        if edge.payload == PayloadKind::Uart {
            let id = id_of_edge(edge);
            let service = uart_edge(cluster_key, id.as_str());
            let len = LogicalTopology::uart_ring_len(edge);
            let capacity = if len < 2 {
                2
            } else {
                len
            };
            let ghost before = out@;
            out.push(UartService { edge_id: id, service, capacity });
            proof {
                let model = |s: UartService| s.model();
                assert(out@.map_values(model) == before.map_values(model).push(
                    out@.last().model(),
                ));
            }
        }
        i += 1;
    }
    out
}

/// Which end of an edge a board opens.
#[derive(Clone, Copy, Debug, PartialEq, Eq, Structural)]
pub enum PortRole {
    Publisher,
    Subscriber,
}

/// One port to open.
#[derive(Clone, Debug)]
pub struct UartPort {
    pub edge_id: String,
    pub service: String,
    pub role: PortRole,
}

/// What a port is, with its texts as characters.
pub struct UartPortModel {
    pub edge_id: Seq<char>,
    pub service: Seq<char>,
    pub role: PortRole,
}

impl UartPort {
    /// The port with its texts as characters.
    pub open spec fn model(self) -> UartPortModel {
        UartPortModel { edge_id: self.edge_id@, service: self.service@, role: self.role }
    }
}

/// The end of an edge that a board opens: the sending end of its own edges,
/// else the receiving end of those that lead to it.
pub open spec fn role_of(board_id: Seq<char>, edge: DirectedEdge) -> Option<PortRole> {
    if edge.payload != PayloadKind::Uart {
        None
    } else if edge.from_board@ == board_id {
        Some(PortRole::Publisher)
    } else if edge.to_board@ == board_id {
        Some(PortRole::Subscriber)
    } else {
        None
    }
}

/// Ports of a board on the first `n` edges, in order.
pub open spec fn ports_of(
    cluster_key: Seq<char>,
    board_id: Seq<char>,
    edges: Seq<DirectedEdge>,
    n: nat,
) -> Seq<UartPortModel>
    decreases n,
{
    if n == 0 {
        seq![]
    } else {
        let before = ports_of(cluster_key, board_id, edges, (n - 1) as nat);
        let id = id_of(edges[n - 1]);
        match role_of(board_id, edges[n - 1]) {
            Some(role) => before.push(
                UartPortModel { edge_id: id, service: uart_service(cluster_key, id), role },
            ),
            None => before,
        }
    }
}

/// The ports that a board opens.
pub fn ports_for_board(cluster_key: &str, board_id: &str, edges: &Vec<DirectedEdge>) -> (r: Vec<
    UartPort,
>)
    ensures
        r@.map_values(|p: UartPort| p.model()) == ports_of(
            cluster_key@,
            board_id@,
            edges@,
            edges@.len(),
        ),
{
    let mut out: Vec<UartPort> = Vec::new();
    let mut i: usize = 0;
    while i < edges.len()
        invariant
            i <= edges@.len(),
            out@.map_values(|p: UartPort| p.model()) == ports_of(
                cluster_key@,
                board_id@,
                edges@,
                i as nat,
            ),
        decreases edges@.len() - i,
    {
        let edge = &edges[i];
        let role = if edge.payload != PayloadKind::Uart {
            None
        } else if same_text(edge.from_board.as_str(), board_id) {
            Some(PortRole::Publisher)
        } else if same_text(edge.to_board.as_str(), board_id) {
            Some(PortRole::Subscriber)
        } else {
            None
        };
        if let Some(role) = role {
            let id = id_of_edge(edge);
            let service = uart_edge(cluster_key, id.as_str());
            let ghost before = out@;
            out.push(UartPort { edge_id: id, service, role });
            proof {
                let model = |p: UartPort| p.model();
                assert(out@.map_values(model) == before.map_values(model).push(
                    out@.last().model(),
                ));
            }
        }
        i += 1;
    }
    out
}

/// UART edges by position.
pub open spec fn carries_uart(edges: Seq<DirectedEdge>) -> spec_fn(int) -> bool {
    |i: int| edges[i].payload == PayloadKind::Uart
}

/// Every UART edge has one service, under its own id and with room for its
/// ring, at least two frames. The services stand in the order of their edges,
/// and there are no others.
pub proof fn uart_edges_have_their_services(
    cluster_key: Seq<char>,
    edges: Seq<DirectedEdge>,
    n: nat,
    i: nat,
)
    ensures
        ({
            let services = services_of(cluster_key, edges, n);
            let p = carries_uart(edges);
            let service = services[count_below(p, i) as int];
            &&& services.len() == count_below(p, n)
            &&& i < n && edges[i as int].payload == PayloadKind::Uart ==> {
                &&& service.edge_id == id_of(edges[i as int])
                &&& service.service == uart_service(cluster_key, id_of(edges[i as int]))
                &&& service.capacity >= 2
                &&& service.capacity >= ring_len(edges[i as int])
                &&& service.capacity == 2 || service.capacity == ring_len(edges[i as int])
            }
        }),
    decreases n,
{
    if n > 0 {
        let m = (n - 1) as nat;
        let p = carries_uart(edges);
        uart_edges_have_their_services(cluster_key, edges, m, i);
        assert(p(m as int) == (edges[m as int].payload == PayloadKind::Uart));
        if i < m {
            lemma_count_below(p, i, m);
            assert(p(i as int) == (edges[i as int].payload == PayloadKind::Uart));
        }
    }
}

/// UART edges that touch a board, by position.
pub open spec fn touches(board_id: Seq<char>, edges: Seq<DirectedEdge>) -> spec_fn(int) -> bool {
    |i: int|
        edges[i].payload == PayloadKind::Uart && (edges[i].from_board@ == board_id
            || edges[i].to_board@ == board_id)
}

/// A board opens one port on every UART edge that touches it, on the service of
/// that edge: the sending end of an edge that leaves it, and the receiving end
/// of any other. The ports stand in the order of their edges.
pub proof fn board_opens_its_ends(
    cluster_key: Seq<char>,
    board_id: Seq<char>,
    edges: Seq<DirectedEdge>,
    n: nat,
    i: nat,
)
    ensures
        ({
            let ports = ports_of(cluster_key, board_id, edges, n);
            let p = touches(board_id, edges);
            let edge = edges[i as int];
            let port = ports[count_below(p, i) as int];
            &&& ports.len() == count_below(p, n)
            &&& i < n && edge.payload == PayloadKind::Uart && (edge.from_board@ == board_id
                || edge.to_board@ == board_id) ==> {
                &&& port.edge_id == id_of(edge)
                &&& port.service == uart_service(cluster_key, id_of(edge))
                &&& port.role == PortRole::Publisher <==> edge.from_board@ == board_id
            }
        }),
    decreases n,
{
    if n > 0 {
        let m = (n - 1) as nat;
        let p = touches(board_id, edges);
        board_opens_its_ends(cluster_key, board_id, edges, m, i);
        assert(p(m as int) == (role_of(board_id, edges[m as int]) is Some));
        if i < m {
            lemma_count_below(p, i, m);
            assert(p(i as int) == (role_of(board_id, edges[i as int]) is Some));
        }
    }
}

/// A board takes at most 64 frames from an edge at a time, and at most 16 nodes
/// share a service.
pub proof fn service_limits()
    ensures
        RX_BURST == 64,
        UART_MAX_NODES == 16,
{
}

} // verus!
