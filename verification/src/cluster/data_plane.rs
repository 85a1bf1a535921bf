//! Board data plane: which topology edges feed which board ports.
//!
//! [`UartDataPlaneMap::open`] pairs the opened edges with the endpoints of a
//! board; [`UartDataPlaneMap::bind`] holds that map against the ports that the
//! board really has and yields the lanes of a [`UartDataPlane`].

use vstd::prelude::*;

use crate::cluster::ipc::uart_bus::{id_of, id_of_edge, role_of, PortRole};
use crate::cluster::topology::{
    BoardSpec, DirectedEdge, EndpointDirection, EndpointSpec, LogicalTopology, PayloadKind,
};
use crate::text::{
    among, count_below, first_some, is_among, join2, join3, join5, lemma_count_below,
    lemma_first_some, lemma_first_some_stays, same_text, texts_of,
};

verus! {

/// Failures from data-plane open and bind.
#[derive(Debug)]
pub enum DataPlaneError {
    Ipc(String),
    Message(String),
}

/// An edge that feeds an endpoint of the board.
#[derive(Clone, Debug)]
pub struct RxLane {
    pub edge_id: String,
    pub endpoint: String,
}

/// An endpoint of the board with the edges that it feeds.
#[derive(Clone, Debug)]
pub struct TxLane {
    pub endpoint: String,
    pub edge_ids: Vec<String>,
}

/// An inbound lane with its texts as characters.
pub struct RxModel {
    pub edge_id: Seq<char>,
    pub endpoint: Seq<char>,
}

/// An outbound lane with its texts as characters.
pub struct TxModel {
    pub endpoint: Seq<char>,
    pub edge_ids: Seq<Seq<char>>,
}

impl RxLane {
    /// The lane with its texts as characters.
    pub open spec fn model(self) -> RxModel {
        RxModel { edge_id: self.edge_id@, endpoint: self.endpoint@ }
    }
}

impl TxLane {
    /// The lane with its texts as characters.
    pub open spec fn model(self) -> TxModel {
        TxModel { endpoint: self.endpoint@, edge_ids: texts_of(self.edge_ids@) }
    }
}

/// A UART edge that leads to the board.
pub open spec fn is_rx(board_id: Seq<char>, edge: DirectedEdge) -> bool {
    edge.payload == PayloadKind::Uart && edge.to_board@ == board_id
}

/// A UART edge that leads from the board to another one.
pub open spec fn is_tx(board_id: Seq<char>, edge: DirectedEdge) -> bool {
    edge.payload == PayloadKind::Uart && edge.to_board@ != board_id && edge.from_board@ == board_id
}

/// The id of the `i`-th edge, where it leads to the board but has no consumer
/// left: none was opened, or an earlier edge with the same id has taken it.
pub open spec fn missing_consumer(
    board_id: Seq<char>,
    edges: Seq<DirectedEdge>,
    consumers: Seq<String>,
    i: int,
) -> Option<Seq<char>> {
    if is_rx(board_id, edges[i]) && (!among(consumers, id_of(edges[i])) || taken(
        board_id,
        edges,
        i,
    )) {
        Some(id_of(edges[i]))
    } else {
        None
    }
}

/// An edge before the `i`-th leads to the board under the same id.
pub open spec fn taken(board_id: Seq<char>, edges: Seq<DirectedEdge>, i: int) -> bool {
    exists|j: int|
        0 <= j < i && is_rx(board_id, #[trigger] edges[j]) && id_of(edges[j]) == id_of(edges[i])
}

/// [`missing_consumer`] as a function of the edge's position.
pub open spec fn missing_consumers(
    board_id: Seq<char>,
    edges: Seq<DirectedEdge>,
    consumers: Seq<String>,
) -> spec_fn(int) -> Option<Seq<char>> {
    |i: int| missing_consumer(board_id, edges, consumers, i)
}

/// Inbound lanes of the first `n` edges, in order.
pub open spec fn rx_lanes(board_id: Seq<char>, edges: Seq<DirectedEdge>, n: nat) -> Seq<RxModel>
    decreases n,
{
    if n == 0 {
        seq![]
    } else {
        let before = rx_lanes(board_id, edges, (n - 1) as nat);
        let edge = edges[n - 1];
        if is_rx(board_id, edge) {
            before.push(RxModel { edge_id: id_of(edge), endpoint: edge.to_endpoint@ })
        } else {
            before
        }
    }
}

/// Outbound lanes with one more edge: in the lane of its endpoint, which comes
/// last where there was none.
pub open spec fn with_edge(lanes: Seq<TxModel>, endpoint: Seq<char>, id: Seq<char>) -> Seq<TxModel> {
    if exists|k: int| 0 <= k < lanes.len() && (#[trigger] lanes[k]).endpoint == endpoint {
        Seq::new(
            lanes.len(),
            |k: int|
                if lanes[k].endpoint == endpoint {
                    TxModel { endpoint, edge_ids: lanes[k].edge_ids.push(id) }
                } else {
                    lanes[k]
                },
        )
    } else {
        lanes.push(TxModel { endpoint, edge_ids: seq![id] })
    }
}

/// Outbound lanes of the first `n` edges, in the order of their first edges.
pub open spec fn tx_lanes(board_id: Seq<char>, edges: Seq<DirectedEdge>, n: nat) -> Seq<TxModel>
    decreases n,
{
    if n == 0 {
        seq![]
    } else {
        let before = tx_lanes(board_id, edges, (n - 1) as nat);
        let edge = edges[n - 1];
        if is_tx(board_id, edge) {
            with_edge(before, edge.from_endpoint@, id_of(edge))
        } else {
            before
        }
    }
}

/// Whether a producer is needed: some outbound edge has its id.
pub open spec fn needed(board_id: Seq<char>, edges: Seq<DirectedEdge>, id: Seq<char>) -> bool {
    exists|i: int|
        0 <= i < edges.len() && is_tx(board_id, #[trigger] edges[i]) && id_of(edges[i]) == id
}

/// Names of the UART endpoints with this direction among the first `n`.
pub open spec fn uart_endpoints(
    endpoints: Seq<EndpointSpec>,
    direction: EndpointDirection,
    n: nat,
) -> Seq<Seq<char>>
    decreases n,
{
    if n == 0 {
        seq![]
    } else {
        let before = uart_endpoints(endpoints, direction, (n - 1) as nat);
        let ep = endpoints[n - 1];
        if ep.payload == PayloadKind::Uart && ep.direction == direction {
            before.push(ep.name@)
        } else {
            before
        }
    }
}

/// UART edge and endpoint mapping, made before the board's ports exist.
#[derive(Debug)]
pub struct UartDataPlaneMap {
    /// Ids of the producers that outbound lanes need.
    pub producers: Vec<String>,
    pub pending_rx: Vec<RxLane>,
    pub pending_tx: Vec<TxLane>,
    pub required_ins: Vec<String>,
    pub required_outs: Vec<String>,
}

fn push_tx(lanes: &mut Vec<TxLane>, endpoint: &str, id: String)
    requires
        distinct_endpoints(old(lanes)@),
    ensures
        distinct_endpoints(final(lanes)@),
        tx_models(final(lanes)@) == with_edge(tx_models(old(lanes)@), endpoint@, id@),
{
    let ghost before = tx_models(lanes@);
    let mut k: usize = 0;
    while k < lanes.len()
        invariant
            k <= lanes@.len(),
            *lanes == *old(lanes),
            before == tx_models(lanes@),
            distinct_endpoints(lanes@),
            forall|j: int| 0 <= j < k ==> (#[trigger] lanes@[j]).endpoint@ != endpoint@,
        decreases lanes@.len() - k,
    {
        if same_text(lanes[k].endpoint.as_str(), endpoint) {
            let ghost lane = lanes@[k as int];
            let mut edge_ids: Vec<String> = Vec::new();
            let mut j: usize = 0;
            while j < lanes[k as usize].edge_ids.len()
                invariant
                    k < lanes@.len(),
                    lane == lanes@[k as int],
                    j <= lane.edge_ids@.len(),
                    edge_ids@ == lane.edge_ids@.take(j as int),
                decreases lane.edge_ids@.len() - j,
            {
                edge_ids.push(lanes[k].edge_ids[j].clone());
                j += 1;
                assert(edge_ids@ == lane.edge_ids@.take(j as int));
            }
            assert(edge_ids@ == lane.edge_ids@);
            edge_ids.push(id);
            let endpoint_name = lanes[k].endpoint.clone();
            lanes.set(k, TxLane { endpoint: endpoint_name, edge_ids });
            proof {
                assert(before[k as int].endpoint == endpoint@);
                assert(texts_of(edge_ids@) == texts_of(lane.edge_ids@).push(id@));
                assert forall|j: int| 0 <= j < before.len() && j != k implies before[j].endpoint
                    != endpoint@ by {
                    assert(old(lanes)@[j].endpoint@ != old(lanes)@[k as int].endpoint@);
                }
                assert(tx_models(lanes@) =~= with_edge(before, endpoint@, id@));
            }
            return;
        }
        k += 1;
    }
    let mut edge_ids: Vec<String> = Vec::new();
    edge_ids.push(id);
    lanes.push(TxLane { endpoint: endpoint.to_owned(), edge_ids });
    proof {
        assert(texts_of(edge_ids@) == seq![id@]);
        assert forall|j: int| 0 <= j < before.len() implies (#[trigger] before[j]).endpoint
            != endpoint@ by {
            assert(old(lanes)@[j].endpoint@ != endpoint@);
        }
        assert(tx_models(lanes@) =~= with_edge(before, endpoint@, id@));
    }
}

/// The inbound lanes with their texts as characters.
pub open spec fn rx_models(lanes: Seq<RxLane>) -> Seq<RxModel> {
    lanes.map_values(|l: RxLane| l.model())
}

/// The outbound lanes with their texts as characters.
pub open spec fn tx_models(lanes: Seq<TxLane>) -> Seq<TxModel> {
    lanes.map_values(|l: TxLane| l.model())
}

/// No two lanes have the same endpoint.
pub open spec fn distinct_endpoints(lanes: Seq<TxLane>) -> bool {
    forall|i: int, j: int|
        0 <= i < j < lanes.len() ==> (#[trigger] lanes[i]).endpoint@ != (
        #[trigger] lanes[j]).endpoint@
}

/// Whether an inbound lane has this edge id.
fn has_rx(lanes: &Vec<RxLane>, id: &str) -> (r: bool)
    ensures
        r == exists|k: int| 0 <= k < lanes@.len() && (#[trigger] lanes@[k]).edge_id@ == id@,
{
    let mut k: usize = 0;
    while k < lanes.len()
        invariant
            k <= lanes@.len(),
            forall|j: int| 0 <= j < k ==> (#[trigger] lanes@[j]).edge_id@ != id@,
        decreases lanes@.len() - k,
    {
        if same_text(lanes[k].edge_id.as_str(), id) {
            return true;
        }
        k += 1;
    }
    false
}

/// Whether an outbound edge has this id.
fn is_needed(board_id: &str, edges: &Vec<DirectedEdge>, id: &str) -> (r: bool)
    ensures
        r == needed(board_id@, edges@, id@),
{
    let mut i: usize = 0;
    while i < edges.len()
        invariant
            i <= edges@.len(),
            forall|j: int|
                0 <= j < i ==> !(is_tx(board_id@, #[trigger] edges@[j]) && id_of(edges@[j]) == id@),
        decreases edges@.len() - i,
    {
        let edge = &edges[i];
        if edge.payload == PayloadKind::Uart && !same_text(edge.to_board.as_str(), board_id)
            && same_text(edge.from_board.as_str(), board_id) {
            let edge_id = id_of_edge(edge);
            if same_text(edge_id.as_str(), id) {
                return true;
            }
        }
        i += 1;
    }
    false
}

fn endpoint_names(endpoints: &Vec<EndpointSpec>, direction: EndpointDirection) -> (r: Vec<String>)
    ensures
        texts_of(r@) == uart_endpoints(endpoints@, direction, endpoints@.len()),
{
    let mut out: Vec<String> = Vec::new();
    let mut i: usize = 0;
    while i < endpoints.len()
        invariant
            i <= endpoints@.len(),
            texts_of(out@) == uart_endpoints(endpoints@, direction, i as nat),
        decreases endpoints@.len() - i,
    {
        let ep = &endpoints[i];
        if ep.payload == PayloadKind::Uart && ep.direction == direction {
            let ghost before = out@;
            out.push(ep.name.clone());
            assert(texts_of(out@) == texts_of(before).push(ep.name@));
        }
        i += 1;
    }
    out
}

/// The producers among these that outbound edges need, in order.
pub open spec fn needed_producers(
    board_id: Seq<char>,
    edges: Seq<DirectedEdge>,
    producers: Seq<String>,
    n: nat,
) -> Seq<Seq<char>>
    decreases n,
{
    if n == 0 {
        seq![]
    } else {
        let before = needed_producers(board_id, edges, producers, (n - 1) as nat);
        if needed(board_id, edges, producers[n - 1]@) {
            before.push(producers[n - 1]@)
        } else {
            before
        }
    }
}

/// An edge before the `i`-th leads to the board under this id, exactly when
/// an inbound lane of those edges has it.
proof fn lemma_rx_lanes(board_id: Seq<char>, edges: Seq<DirectedEdge>, n: nat, id: Seq<char>)
    requires
        n <= edges.len(),
    ensures
        (exists|j: int|
            0 <= j < n && is_rx(board_id, #[trigger] edges[j]) && id_of(edges[j]) == id) <==> (
        exists|k: int|
            0 <= k < rx_lanes(board_id, edges, n).len() && (#[trigger] rx_lanes(
                board_id,
                edges,
                n,
            )[k]).edge_id == id),
    decreases n,
{
    if n > 0 {
        let m = (n - 1) as nat;
        lemma_rx_lanes(board_id, edges, m, id);
        let before = rx_lanes(board_id, edges, m);
        let after = rx_lanes(board_id, edges, n);
        if exists|j: int|
            0 <= j < n && is_rx(board_id, #[trigger] edges[j]) && id_of(edges[j]) == id {
            let j = choose|j: int|
                0 <= j < n && is_rx(board_id, #[trigger] edges[j]) && id_of(edges[j]) == id;
            if j == m {
                assert(after[before.len() as int].edge_id == id);
            } else {
                let k = choose|k: int|
                    0 <= k < before.len() && (#[trigger] before[k]).edge_id == id;
                assert(after[k].edge_id == id);
            }
        }
        if exists|k: int| 0 <= k < after.len() && (#[trigger] after[k]).edge_id == id {
            let k = choose|k: int| 0 <= k < after.len() && (#[trigger] after[k]).edge_id == id;
            if k < before.len() {
                assert(before[k].edge_id == id);
            } else {
                assert(is_rx(board_id, edges[m as int]));
            }
        }
    }
}

impl UartDataPlaneMap {
    /// Every outbound lane has an endpoint of its own.
    pub open spec fn wf(self) -> bool {
        distinct_endpoints(self.pending_tx@)
    }

    /// Pair the edges of a board with its endpoints. `producers` and
    /// `consumers` are the ids of the edges whose ends were opened.
    pub fn open(
        board_id: &str,
        board: &BoardSpec,
        edges: &Vec<DirectedEdge>,
        producers: &Vec<String>,
        consumers: &Vec<String>,
    ) -> (r: Result<UartDataPlaneMap, String>)
        ensures
            match r {
                Err(message) => first_some(
                    missing_consumers(board_id@, edges@, consumers@),
                    edges@.len(),
                ) matches Some(id) && message@ == "missing uart consumer for "@ + id,
                Ok(map) => {
                    &&& first_some(
                        missing_consumers(board_id@, edges@, consumers@),
                        edges@.len(),
                    ) is None
                    &&& map.wf()
                    &&& rx_models(map.pending_rx@) == rx_lanes(board_id@, edges@, edges@.len())
                    &&& tx_models(map.pending_tx@) == tx_lanes(board_id@, edges@, edges@.len())
                    &&& texts_of(map.producers@) == needed_producers(
                        board_id@,
                        edges@,
                        producers@,
                        producers@.len(),
                    )
                    &&& texts_of(map.required_ins@) == uart_endpoints(
                        board.endpoints@,
                        EndpointDirection::In,
                        board.endpoints@.len(),
                    )
                    &&& texts_of(map.required_outs@) == uart_endpoints(
                        board.endpoints@,
                        EndpointDirection::Out,
                        board.endpoints@.len(),
                    )
                },
            },
    {
        let mut pending_rx: Vec<RxLane> = Vec::new();
        let mut pending_tx: Vec<TxLane> = Vec::new();
        let ghost f = missing_consumers(board_id@, edges@, consumers@);
        let mut i: usize = 0;
        while i < edges.len()
            invariant
                i <= edges@.len(),
                f == missing_consumers(board_id@, edges@, consumers@),
                first_some(f, i as nat) is None,
                distinct_endpoints(pending_tx@),
                rx_models(pending_rx@) == rx_lanes(board_id@, edges@, i as nat),
                tx_models(pending_tx@) == tx_lanes(board_id@, edges@, i as nat),
            decreases edges@.len() - i,
        {
            let edge = &edges[i];
            if edge.payload == PayloadKind::Uart {
                let id = id_of_edge(edge);
                if same_text(edge.to_board.as_str(), board_id) {
                    let used = has_rx(&pending_rx, id.as_str());
                    let ghost before = pending_rx@;
                    proof {
                        let lanes = rx_models(before);
                        lemma_rx_lanes(board_id@, edges@, i as nat, id@);
                        if used {
                            let k = choose|k: int|
                                0 <= k < before.len() && (#[trigger] before[k]).edge_id@ == id@;
                            assert(lanes[k].edge_id == id@);
                        } else {
                            assert forall|k: int| 0 <= k < lanes.len() implies (
                            #[trigger] lanes[k]).edge_id != id@ by {
                                assert(before[k].edge_id@ != id@);
                            }
                        }
                        assert(used == taken(board_id@, edges@, i as int));
                    }
                    if used || !is_among(consumers, id.as_str()) {
                        proof {
                            assert(f(i as int) == Some(id@));
                            assert(first_some(f, (i + 1) as nat) == Some(id@));
                            lemma_first_some_stays(f, (i + 1) as nat, edges@.len());
                        }
                        let s = join2("missing uart consumer for ", id.as_str());
                        return Err(s);
                    }
                    pending_rx.push(RxLane { edge_id: id, endpoint: edge.to_endpoint.clone() });
                    assert(rx_models(pending_rx@) == rx_models(before).push(
                        pending_rx@.last().model(),
                    ));
                } else if same_text(edge.from_board.as_str(), board_id) {
                    push_tx(&mut pending_tx, edge.from_endpoint.as_str(), id);
                }
            }
            assert(f(i as int) is None);
            i += 1;
        }
        let mut kept: Vec<String> = Vec::new();
        let mut k: usize = 0;
        while k < producers.len()
            invariant
                k <= producers@.len(),
                texts_of(kept@) == needed_producers(board_id@, edges@, producers@, k as nat),
            decreases producers@.len() - k,
        {
            if is_needed(board_id, edges, producers[k].as_str()) {
                let ghost before = kept@;
                kept.push(producers[k].clone());
                assert(texts_of(kept@) == texts_of(before).push(producers@[k as int]@));
            }
            k += 1;
        }
        Ok(
            UartDataPlaneMap {
                producers: kept,
                pending_rx,
                pending_tx,
                required_ins: endpoint_names(&board.endpoints, EndpointDirection::In),
                required_outs: endpoint_names(&board.endpoints, EndpointDirection::Out),
            },
        )
    }
}

/// Complaint about the `i`-th required port, where the board has none of its name.
pub open spec fn missing_port(
    before: Seq<char>,
    required: Seq<String>,
    ports: Seq<String>,
) -> spec_fn(int) -> Option<Seq<char>> {
    |i: int|
        if among(ports, required[i]@) {
            None
        } else {
            Some(before + required[i]@ + "`"@)
        }
}

/// Complaint about the `i`-th inbound lane, where the board has no port for it.
pub open spec fn missing_rx_port(lanes: Seq<RxLane>, ins: Seq<String>) -> spec_fn(int) -> Option<
    Seq<char>,
> {
    |i: int|
        if among(ins, lanes[i].endpoint@) {
            None
        } else {
            Some(
                "uart rx: no InPort for endpoint `"@ + lanes[i].endpoint@ + "` (edge "@
                    + lanes[i].edge_id@ + ")"@,
            )
        }
}

/// An edge of a lane before the `k`-th, or of this lane before its `j`-th, has
/// the same id as that one.
pub open spec fn used_before(lanes: Seq<TxLane>, k: int, j: int) -> bool {
    exists|l: int, m: int|
        0 <= l <= k && 0 <= m < lanes[l].edge_ids@.len() && (l < k || m < j) && (
        #[trigger] lanes[l].edge_ids@[m])@ == lanes[k].edge_ids@[j]@
}

/// Complaint about the `j`-th edge of the `k`-th outbound lane, where no
/// producer is left for it.
pub open spec fn missing_producer(
    lanes: Seq<TxLane>,
    producers: Seq<String>,
    k: int,
) -> spec_fn(int) -> Option<Seq<char>> {
    |j: int|
        if among(producers, lanes[k].edge_ids@[j]@) && !used_before(lanes, k, j) {
            None
        } else {
            Some("missing uart producer for "@ + lanes[k].edge_ids@[j]@)
        }
}

/// Complaint about the `k`-th outbound lane: that the board has no port for
/// it, or about the first of its edges that has no producer.
pub open spec fn tx_fault(
    lanes: Seq<TxLane>,
    producers: Seq<String>,
    outs: Seq<String>,
) -> spec_fn(int) -> Option<Seq<char>> {
    |k: int|
        if !among(outs, lanes[k].endpoint@) {
            Some("uart tx: no OutPort for endpoint `"@ + lanes[k].endpoint@ + "`"@)
        } else {
            first_some(missing_producer(lanes, producers, k), lanes[k].edge_ids@.len())
        }
}

/// The first complaint about a map on a board with these ports.
pub open spec fn bind_fault(map: UartDataPlaneMap, ins: Seq<String>, outs: Seq<String>) -> Option<
    Seq<char>,
> {
    let required_in = first_some(
        missing_port("missing InPort<UartFrame> for topology endpoint `"@, map.required_ins@, ins),
        map.required_ins@.len(),
    );
    let required_out = first_some(
        missing_port(
            "missing OutPort<UartFrame> for topology endpoint `"@,
            map.required_outs@,
            outs,
        ),
        map.required_outs@.len(),
    );
    let rx = first_some(missing_rx_port(map.pending_rx@, ins), map.pending_rx@.len());
    let tx = first_some(
        tx_fault(map.pending_tx@, map.producers@, outs),
        map.pending_tx@.len(),
    );
    if required_in is Some {
        required_in
    } else if required_out is Some {
        required_out
    } else if rx is Some {
        rx
    } else {
        tx
    }
}

fn check_required(before: &str, required: &Vec<String>, ports: &Vec<String>) -> (r: Option<String>)
    ensures
        complains(r, first_some(missing_port(before@, required@, ports@), required@.len())),
{
    let ghost f = missing_port(before@, required@, ports@);
    let mut i: usize = 0;
    while i < required.len()
        invariant
            i <= required@.len(),
            f == missing_port(before@, required@, ports@),
            first_some(f, i as nat) is None,
        decreases required@.len() - i,
    {
        if !is_among(ports, required[i].as_str()) {
            let s = join3(before, required[i].as_str(), "`");
            proof {
                assert(f(i as int) == Some(s@));
                assert(first_some(f, (i + 1) as nat) == Some(s@));
                lemma_first_some_stays(f, (i + 1) as nat, required@.len());
            }
            return Some(s);
        }
        assert(f(i as int) is None);
        i += 1;
    }
    None
}

/// `r` is this complaint, or none where there is none.
pub open spec fn complains(r: Option<String>, fault: Option<Seq<char>>) -> bool {
    match r {
        Some(s) => fault == Some(s@),
        None => fault is None,
    }
}

fn check_rx(lanes: &Vec<RxLane>, ins: &Vec<String>) -> (r: Option<String>)
    ensures
        complains(r, first_some(missing_rx_port(lanes@, ins@), lanes@.len())),
{
    let ghost f = missing_rx_port(lanes@, ins@);
    let mut i: usize = 0;
    while i < lanes.len()
        invariant
            i <= lanes@.len(),
            f == missing_rx_port(lanes@, ins@),
            first_some(f, i as nat) is None,
        decreases lanes@.len() - i,
    {
        if !is_among(ins, lanes[i].endpoint.as_str()) {
            let s = join5(
                "uart rx: no InPort for endpoint `",
                lanes[i].endpoint.as_str(),
                "` (edge ",
                lanes[i].edge_id.as_str(),
                ")",
            );
            proof {
                assert(f(i as int) == Some(s@));
                assert(first_some(f, (i + 1) as nat) == Some(s@));
                lemma_first_some_stays(f, (i + 1) as nat, lanes@.len());
            }
            return Some(s);
        }
        assert(f(i as int) is None);
        i += 1;
    }
    None
}

/// `used` holds the edge ids of the lanes before the `k`-th and those of this
/// lane before its `j`-th.
spec fn is_used(used: Seq<String>, lanes: Seq<TxLane>, k: int, j: int) -> bool {
    forall|id: Seq<char>| #[trigger]
        among(used, id) <==> exists|l: int, m: int|
            0 <= l <= k && l < lanes.len() && 0 <= m < lanes[l].edge_ids@.len() && (l < k || m < j)
                && (#[trigger] lanes[l].edge_ids@[m])@ == id
}

fn check_tx_lane(
    lanes: &Vec<TxLane>,
    k: usize,
    producers: &Vec<String>,
    used: &mut Vec<String>,
) -> (r: Option<String>)
    requires
        k < lanes@.len(),
        is_used(old(used)@, lanes@, k as int, 0),
    ensures
        complains(
            r,
            first_some(
                missing_producer(lanes@, producers@, k as int),
                lanes@[k as int].edge_ids@.len(),
            ),
        ),
        r is None ==> is_used(final(used)@, lanes@, k + 1, 0),
{
    let ghost f = missing_producer(lanes@, producers@, k as int);
    let ghost n = lanes@[k as int].edge_ids@.len();
    let mut j: usize = 0;
    while j < lanes[k].edge_ids.len()
        invariant
            k < lanes@.len(),
            n == lanes@[k as int].edge_ids@.len(),
            j <= n,
            f == missing_producer(lanes@, producers@, k as int),
            first_some(f, j as nat) is None,
            is_used(used@, lanes@, k as int, j as int),
        decreases n - j,
    {
        let id = lanes[k].edge_ids[j].as_str();
        let again = is_among(used, id);
        assert(again == used_before(lanes@, k as int, j as int));
        if again || !is_among(producers, id) {
            let s = join2("missing uart producer for ", id);
            proof {
                assert(f(j as int) == Some(s@));
                assert(first_some(f, (j + 1) as nat) == Some(s@));
                lemma_first_some_stays(f, (j + 1) as nat, n);
            }
            return Some(s);
        }
        assert(f(j as int) is None);
        let ghost before = used@;
        used.push(id.to_owned());
        proof {
            assert(used@.drop_last() == before);
            lemma_used_grows(before, used@, lanes@, k as int, j as int);
        }
        j += 1;
    }
    proof {
        assert forall|id: Seq<char>| #[trigger] among(used@, id) <==> exists|l: int, m: int|
            0 <= l <= k + 1 && l < lanes@.len() && 0 <= m < lanes@[l].edge_ids@.len() && (l < k + 1
                || m < 0) && (#[trigger] lanes@[l].edge_ids@[m])@ == id by {
            if among(used@, id) {
                let (l, m) = choose|l: int, m: int|
                    0 <= l <= k && l < lanes@.len() && 0 <= m < lanes@[l].edge_ids@.len() && (l < k
                        || m < j) && (#[trigger] lanes@[l].edge_ids@[m])@ == id;
                assert(lanes@[l].edge_ids@[m]@ == id);
            }
        }
    }
    None
}

proof fn lemma_used_grows(
    before: Seq<String>,
    after: Seq<String>,
    lanes: Seq<TxLane>,
    k: int,
    j: int,
)
    requires
        0 <= k < lanes.len(),
        0 <= j < lanes[k].edge_ids@.len(),
        is_used(before, lanes, k, j),
        after.len() == before.len() + 1,
        after.drop_last() == before,
        after.last()@ == lanes[k].edge_ids@[j]@,
    ensures
        is_used(after, lanes, k, j + 1),
{
    let new_id = lanes[k].edge_ids@[j]@;
    assert forall|id: Seq<char>| #[trigger] among(after, id) <==> exists|l: int, m: int|
        0 <= l <= k && l < lanes.len() && 0 <= m < lanes[l].edge_ids@.len() && (l < k || m < j + 1)
            && (#[trigger] lanes[l].edge_ids@[m])@ == id by {
        assert(among(after, id) <==> among(before, id) || id == new_id) by {
            if among(after, id) {
                let i = choose|i: int| 0 <= i < after.len() && (#[trigger] after[i])@ == id;
                if i < before.len() {
                    assert(before[i]@ == id);
                }
            }
            if among(before, id) {
                let i = choose|i: int| 0 <= i < before.len() && (#[trigger] before[i])@ == id;
                assert(after[i]@ == id);
            }
            assert(after[after.len() - 1]@ == new_id);
        }
        if among(before, id) {
            let (l, m) = choose|l: int, m: int|
                0 <= l <= k && l < lanes.len() && 0 <= m < lanes[l].edge_ids@.len() && (l < k || m
                    < j) && (#[trigger] lanes[l].edge_ids@[m])@ == id;
            assert(lanes[l].edge_ids@[m]@ == id);
        }
        if exists|l: int, m: int|
            0 <= l <= k && l < lanes.len() && 0 <= m < lanes[l].edge_ids@.len() && (l < k || m < j
                + 1) && (#[trigger] lanes[l].edge_ids@[m])@ == id {
            let (l, m) = choose|l: int, m: int|
                0 <= l <= k && l < lanes.len() && 0 <= m < lanes[l].edge_ids@.len() && (l < k || m
                    < j + 1) && (#[trigger] lanes[l].edge_ids@[m])@ == id;
            if l < k || m < j {
                assert(among(before, id));
            } else {
                assert(id == new_id);
            }
        }
    }
}

fn check_tx(lanes: &Vec<TxLane>, producers: &Vec<String>, outs: &Vec<String>) -> (r: Option<String>)
    ensures
        complains(r, first_some(tx_fault(lanes@, producers@, outs@), lanes@.len())),
{
    let ghost f = tx_fault(lanes@, producers@, outs@);
    let mut used: Vec<String> = Vec::new();
    let mut k: usize = 0;
    while k < lanes.len()
        invariant
            k <= lanes@.len(),
            f == tx_fault(lanes@, producers@, outs@),
            first_some(f, k as nat) is None,
            is_used(used@, lanes@, k as int, 0),
        decreases lanes@.len() - k,
    {
        let fault = if !is_among(outs, lanes[k].endpoint.as_str()) {
            Some(join3("uart tx: no OutPort for endpoint `", lanes[k].endpoint.as_str(), "`"))
        } else {
            check_tx_lane(lanes, k, producers, &mut used)
        };
        assert(complains(fault, f(k as int)));
        if fault.is_some() {
            proof {
                assert(first_some(f, (k + 1) as nat) == f(k as int));
                lemma_first_some_stays(f, (k + 1) as nat, lanes@.len());
            }
            return fault;
        }
        k += 1;
    }
    None
}

/// Bound UART data plane of one board.
#[derive(Debug)]
pub struct UartDataPlane {
    pub rx: Vec<RxLane>,
    pub tx: Vec<TxLane>,
}

impl UartDataPlaneMap {
    /// Hold the map against the names of the UART ports that the board has.
    /// Every lane is kept, or the first complaint is returned.
    pub fn bind(self, ins: &Vec<String>, outs: &Vec<String>) -> (r: Result<
        UartDataPlane,
        DataPlaneError,
    >)
        ensures
            match r {
                Ok(plane) => {
                    &&& bind_fault(self, ins@, outs@) is None
                    &&& plane.rx == self.pending_rx
                    &&& plane.tx == self.pending_tx
                },
                Err(DataPlaneError::Message(message)) => bind_fault(self, ins@, outs@) == Some(
                    message@,
                ),
                Err(DataPlaneError::Ipc(_)) => false,
            },
    {
        if let Some(s) = check_required(
            "missing InPort<UartFrame> for topology endpoint `",
            &self.required_ins,
            ins,
        ) {
            return Err(DataPlaneError::Message(s));
        }
        if let Some(s) = check_required(
            "missing OutPort<UartFrame> for topology endpoint `",
            &self.required_outs,
            outs,
        ) {
            return Err(DataPlaneError::Message(s));
        }
        if let Some(s) = check_rx(&self.pending_rx, ins) {
            return Err(DataPlaneError::Message(s));
        }
        if let Some(s) = check_tx(&self.pending_tx, &self.producers, outs) {
            return Err(DataPlaneError::Message(s));
        }
        Ok(UartDataPlane { rx: self.pending_rx, tx: self.pending_tx })
    }
}

/// Whether a board takes part in UART traffic: an edge that carries it touches
/// the board, or an endpoint of the board is made for it.
pub open spec fn uses_uart(board_id: Seq<char>, board: BoardSpec, edges: Seq<DirectedEdge>) -> bool {
    ||| exists|i: int|
        0 <= i < edges.len() && (#[trigger] edges[i]).payload == PayloadKind::Uart && (
        edges[i].from_board@ == board_id || edges[i].to_board@ == board_id)
    ||| exists|k: int|
        0 <= k < board.endpoints@.len() && (#[trigger] board.endpoints@[k]).payload
            == PayloadKind::Uart
}

/// Whether a board needs a UART data plane.
pub fn needs_uart_plane(board_id: &str, board: &BoardSpec, topo: &LogicalTopology) -> (r: bool)
    ensures
        r == uses_uart(board_id@, *board, topo.edges@),
{
    let mut i: usize = 0;
    while i < topo.edges.len()
        invariant
            i <= topo.edges@.len(),
            forall|j: int|
                0 <= j < i ==> !((#[trigger] topo.edges@[j]).payload == PayloadKind::Uart && (
                topo.edges@[j].from_board@ == board_id@ || topo.edges@[j].to_board@ == board_id@)),
        decreases topo.edges@.len() - i,
    {
        let edge = &topo.edges[i];
        if edge.payload == PayloadKind::Uart && (same_text(edge.from_board.as_str(), board_id)
            || same_text(edge.to_board.as_str(), board_id)) {
            return true;
        }
        i += 1;
    }
    let mut k: usize = 0;
    while k < board.endpoints.len()
        invariant
            k <= board.endpoints@.len(),
            forall|j: int|
                0 <= j < k ==> (#[trigger] board.endpoints@[j]).payload != PayloadKind::Uart,
        decreases board.endpoints@.len() - k,
    {
        if board.endpoints[k].payload == PayloadKind::Uart {
            return true;
        }
        k += 1;
    }
    false
}

/// Where every edge that leads to the board starts elsewhere, no two of them
/// share an id, and the consumers are those that the board opens, every
/// inbound edge has its consumer.
pub proof fn planned_ports_open(
    board_id: Seq<char>,
    edges: Seq<DirectedEdge>,
    consumers: Seq<String>,
)
    requires
        forall|i: int|
            0 <= i < edges.len() && is_rx(board_id, #[trigger] edges[i]) ==> edges[i].from_board@
                != board_id,
        forall|i: int| 0 <= i < edges.len() ==> !#[trigger] taken(board_id, edges, i),
        forall|i: int|
            0 <= i < edges.len() && role_of(board_id, #[trigger] edges[i]) == Some(
                PortRole::Subscriber,
            ) ==> among(consumers, id_of(edges[i])),
    ensures
        first_some(missing_consumers(board_id, edges, consumers), edges.len()) is None,
{
    let f = missing_consumers(board_id, edges, consumers);
    lemma_first_some(f, edges.len());
    assert forall|i: int| 0 <= i < edges.len() implies (#[trigger] f(i)) is None by {
        if is_rx(board_id, edges[i]) {
            assert(role_of(board_id, edges[i]) == Some(PortRole::Subscriber));
            assert(!taken(board_id, edges, i));
        }
    }
}

/// A board that has a port of each name that the map asks for, and a producer
/// for each of its outbound edges, all of which differ, binds.
pub proof fn complete_ports_bind(map: UartDataPlaneMap, ins: Seq<String>, outs: Seq<String>)
    requires
        forall|i: int|
            0 <= i < map.required_ins@.len() ==> among(ins, (#[trigger] map.required_ins@[i])@),
        forall|i: int|
            0 <= i < map.required_outs@.len() ==> among(outs, (#[trigger] map.required_outs@[i])@),
        forall|i: int|
            0 <= i < map.pending_rx@.len() ==> among(
                ins,
                (#[trigger] map.pending_rx@[i]).endpoint@,
            ),
        forall|k: int|
            0 <= k < map.pending_tx@.len() ==> among(
                outs,
                (#[trigger] map.pending_tx@[k]).endpoint@,
            ),
        forall|k: int, j: int|
            0 <= k < map.pending_tx@.len() && 0 <= j < map.pending_tx@[k].edge_ids@.len()
                ==> among(map.producers@, (#[trigger] map.pending_tx@[k].edge_ids@[j])@)
                && !used_before(map.pending_tx@, k, j),
    ensures
        bind_fault(map, ins, outs) is None,
{
    let f_in = missing_port(
        "missing InPort<UartFrame> for topology endpoint `"@,
        map.required_ins@,
        ins,
    );
    let f_out = missing_port(
        "missing OutPort<UartFrame> for topology endpoint `"@,
        map.required_outs@,
        outs,
    );
    let f_rx = missing_rx_port(map.pending_rx@, ins);
    let f_tx = tx_fault(map.pending_tx@, map.producers@, outs);
    lemma_first_some(f_in, map.required_ins@.len());
    lemma_first_some(f_out, map.required_outs@.len());
    lemma_first_some(f_rx, map.pending_rx@.len());
    lemma_first_some(f_tx, map.pending_tx@.len());
    assert forall|k: int| 0 <= k < map.pending_tx@.len() implies (#[trigger] f_tx(k)) is None by {
        let g = missing_producer(map.pending_tx@, map.producers@, k);
        lemma_first_some(g, map.pending_tx@[k].edge_ids@.len());
        assert(among(outs, map.pending_tx@[k].endpoint@));
        assert forall|j: int| 0 <= j < map.pending_tx@[k].edge_ids@.len() implies (#[trigger] g(
            j,
        )) is None by {
            assert(among(map.producers@, map.pending_tx@[k].edge_ids@[j]@));
        }
    }
}

/// Ids of the UART edges among the first `n` that lead from this endpoint of
/// the board to another board, in order.
pub open spec fn ids_from(
    board_id: Seq<char>,
    endpoint: Seq<char>,
    edges: Seq<DirectedEdge>,
    n: nat,
) -> Seq<Seq<char>>
    decreases n,
{
    if n == 0 {
        seq![]
    } else {
        let before = ids_from(board_id, endpoint, edges, (n - 1) as nat);
        let edge = edges[n - 1];
        if edge.payload == PayloadKind::Uart && edge.from_board@ == board_id && edge.to_board@
            != board_id && edge.from_endpoint@ == endpoint {
            before.push(id_of(edge))
        } else {
            before
        }
    }
}

/// Each outbound lane has an endpoint of its own and lists, in order, the ids
/// of the edges that lead from it to other boards.
pub proof fn outbound_lanes_list_their_edges(
    board_id: Seq<char>,
    edges: Seq<DirectedEdge>,
    n: nat,
)
    requires
        n <= edges.len(),
    ensures
        ({
            let lanes = tx_lanes(board_id, edges, n);
            &&& forall|k: int|
                0 <= k < lanes.len() ==> (#[trigger] lanes[k]).edge_ids =~= ids_from(
                    board_id,
                    lanes[k].endpoint,
                    edges,
                    n,
                )
            &&& forall|k: int, l: int|
                0 <= k < l < lanes.len() ==> (#[trigger] lanes[k]).endpoint != (
                #[trigger] lanes[l]).endpoint
            &&& forall|endpoint: Seq<char>|
                (#[trigger] ids_from(board_id, endpoint, edges, n)).len() > 0 <==> exists|k: int|
                    0 <= k < lanes.len() && (#[trigger] lanes[k]).endpoint == endpoint
        }),
    decreases n,
{
    let lanes = tx_lanes(board_id, edges, n);
    if n > 0 {
        let m = (n - 1) as nat;
        outbound_lanes_list_their_edges(board_id, edges, m);
        let before = tx_lanes(board_id, edges, m);
        let edge = edges[n - 1];
        let at = edge.from_endpoint@;
        let outbound = edge.payload == PayloadKind::Uart && edge.from_board@ == board_id
            && edge.to_board@ != board_id;
        if outbound {
            let known = exists|k: int| 0 <= k < before.len() && (#[trigger] before[k]).endpoint
                == at;
            if !known {
                assert(ids_from(board_id, at, edges, m).len() == 0);
                assert(lanes == before.push(TxModel { endpoint: at, edge_ids: seq![id_of(edge)] }));
                assert(ids_from(board_id, at, edges, n) =~= seq![id_of(edge)]);
            }
            assert forall|k: int| 0 <= k < lanes.len() implies (#[trigger] lanes[k]).edge_ids
                =~= ids_from(board_id, lanes[k].endpoint, edges, n) by {
                if k < before.len() {
                    assert(before[k].endpoint == lanes[k].endpoint);
                }
            }
            assert forall|k: int, l: int| 0 <= k < l < lanes.len() implies (
            #[trigger] lanes[k]).endpoint != (#[trigger] lanes[l]).endpoint by {
                assert(before[k].endpoint == lanes[k].endpoint);
                if l < before.len() {
                    assert(before[l].endpoint == lanes[l].endpoint);
                }
            }
            assert forall|endpoint: Seq<char>|
                (#[trigger] ids_from(board_id, endpoint, edges, n)).len() > 0 <==> exists|k: int|
                    0 <= k < lanes.len() && (#[trigger] lanes[k]).endpoint == endpoint by {
                assert(ids_from(board_id, endpoint, edges, m).len() >= 0);
                if endpoint == at {
                    if known {
                        let k = choose|k: int|
                            0 <= k < before.len() && (#[trigger] before[k]).endpoint == at;
                        assert(lanes[k].endpoint == at);
                    } else {
                        assert(lanes[before.len() as int].endpoint == at);
                    }
                } else {
                    if exists|k: int|
                        0 <= k < before.len() && (#[trigger] before[k]).endpoint == endpoint {
                        let k = choose|k: int|
                            0 <= k < before.len() && (#[trigger] before[k]).endpoint == endpoint;
                        assert(lanes[k].endpoint == endpoint);
                    }
                    if exists|k: int|
                        0 <= k < lanes.len() && (#[trigger] lanes[k]).endpoint == endpoint {
                        let k = choose|k: int|
                            0 <= k < lanes.len() && (#[trigger] lanes[k]).endpoint == endpoint;
                        assert(before[k].endpoint == endpoint);
                    }
                }
            }
        } else {
            assert forall|endpoint: Seq<char>| #[trigger]
                ids_from(board_id, endpoint, edges, n) == ids_from(
                board_id,
                endpoint,
                edges,
                m,
            ) by {}
        }
    }
}

/// A UART edge that leaves the board at this endpoint for another board.
pub open spec fn leaves_at(board_id: Seq<char>, endpoint: Seq<char>, edge: DirectedEdge) -> bool {
    edge.payload == PayloadKind::Uart && edge.from_board@ == board_id && edge.to_board@ != board_id
        && edge.from_endpoint@ == endpoint
}

/// The id of an outbound edge is among those of its endpoint.
proof fn lemma_id_is_listed(
    board_id: Seq<char>,
    endpoint: Seq<char>,
    edges: Seq<DirectedEdge>,
    n: nat,
    i: nat,
) -> (j: int)
    requires
        i < n,
        leaves_at(board_id, endpoint, edges[i as int]),
    ensures
        0 <= j < ids_from(board_id, endpoint, edges, n).len(),
        ids_from(board_id, endpoint, edges, n)[j] == id_of(edges[i as int]),
    decreases n,
{
    let m = (n - 1) as nat;
    if i < m {
        lemma_id_is_listed(board_id, endpoint, edges, m, i)
    } else {
        ids_from(board_id, endpoint, edges, m).len() as int
    }
}

/// An id of an endpoint is that of one of its outbound edges.
proof fn lemma_listed_id(
    board_id: Seq<char>,
    endpoint: Seq<char>,
    edges: Seq<DirectedEdge>,
    n: nat,
    j: int,
) -> (i: int)
    requires
        0 <= j < ids_from(board_id, endpoint, edges, n).len(),
    ensures
        0 <= i < n,
        leaves_at(board_id, endpoint, edges[i]),
        id_of(edges[i]) == ids_from(board_id, endpoint, edges, n)[j],
    decreases n,
{
    let m = (n - 1) as nat;
    if j < ids_from(board_id, endpoint, edges, m).len() {
        lemma_listed_id(board_id, endpoint, edges, m, j)
    } else {
        m as int
    }
}

/// For every UART edge from the board to another one there is an outbound lane
/// whose endpoint is where the edge leaves and which lists the edge's id.
pub proof fn outbound_edge_has_its_lane(board_id: Seq<char>, edges: Seq<DirectedEdge>, i: int)
    requires
        0 <= i < edges.len(),
        edges[i].payload == PayloadKind::Uart,
        edges[i].from_board@ == board_id,
        edges[i].to_board@ != board_id,
    ensures
        exists|k: int|
            0 <= k < tx_lanes(board_id, edges, edges.len()).len() && (#[trigger] tx_lanes(
                board_id,
                edges,
                edges.len(),
            )[k]).endpoint == edges[i].from_endpoint@ && tx_lanes(
                board_id,
                edges,
                edges.len(),
            )[k].edge_ids.contains(id_of(edges[i])),
{
    let n = edges.len();
    let lanes = tx_lanes(board_id, edges, n);
    let at = edges[i].from_endpoint@;
    outbound_lanes_list_their_edges(board_id, edges, n);
    let j = lemma_id_is_listed(board_id, at, edges, n, i as nat);
    assert(ids_from(board_id, at, edges, n).len() > 0);
    let k = choose|k: int| 0 <= k < lanes.len() && (#[trigger] lanes[k]).endpoint == at;
    assert(lanes[k].edge_ids =~= ids_from(board_id, at, edges, n));
    assert(lanes[k].edge_ids[j] == id_of(edges[i]));
}

/// Every id that an outbound lane lists is that of a UART edge which leaves the
/// board at the endpoint of the lane for another board.
pub proof fn listed_edge_leaves_at_its_lane(
    board_id: Seq<char>,
    edges: Seq<DirectedEdge>,
    k: int,
    j: int,
)
    requires
        0 <= k < tx_lanes(board_id, edges, edges.len()).len(),
        0 <= j < tx_lanes(board_id, edges, edges.len())[k].edge_ids.len(),
    ensures
        ({
            let lane = tx_lanes(board_id, edges, edges.len())[k];
            exists|i: int|
                0 <= i < edges.len() && (#[trigger] edges[i]).payload == PayloadKind::Uart
                    && edges[i].from_board@ == board_id && edges[i].to_board@ != board_id
                    && edges[i].from_endpoint@ == lane.endpoint && id_of(edges[i])
                    == lane.edge_ids[j]
        }),
{
    let n = edges.len();
    let lane = tx_lanes(board_id, edges, n)[k];
    outbound_lanes_list_their_edges(board_id, edges, n);
    assert(lane.edge_ids[j] == ids_from(board_id, lane.endpoint, edges, n)[j]);
    let i = lemma_listed_id(board_id, lane.endpoint, edges, n, j);
    assert(edges[i].payload == PayloadKind::Uart);
}

/// Inbound UART edges of a board by position.
pub open spec fn inbound(board_id: Seq<char>, edges: Seq<DirectedEdge>) -> spec_fn(int) -> bool {
    |i: int| edges[i].payload == PayloadKind::Uart && edges[i].to_board@ == board_id
}

/// Every UART edge that leads to the board has one inbound lane, with the id of
/// the edge and the endpoint at which it arrives. The lanes stand in the order
/// of their edges, and there are no others.
pub proof fn inbound_edges_have_their_lanes(board_id: Seq<char>, edges: Seq<DirectedEdge>, n: nat)
    requires
        n <= edges.len(),
    ensures
        ({
            let lanes = rx_lanes(board_id, edges, n);
            let p = inbound(board_id, edges);
            &&& lanes.len() == count_below(p, n)
            &&& forall|i: int|
                #![trigger edges[i]]
                0 <= i < n && edges[i].payload == PayloadKind::Uart && edges[i].to_board@
                    == board_id ==> lanes[count_below(p, i as nat) as int] == (RxModel {
                    edge_id: id_of(edges[i]),
                    endpoint: edges[i].to_endpoint@,
                })
        }),
    decreases n,
{
    if n > 0 {
        let m = (n - 1) as nat;
        inbound_edges_have_their_lanes(board_id, edges, m);
        let p = inbound(board_id, edges);
        let before = rx_lanes(board_id, edges, m);
        let lanes = rx_lanes(board_id, edges, n);
        assert(p(n - 1) == is_rx(board_id, edges[n - 1]));
        assert forall|i: int|
            #![trigger edges[i]]
            0 <= i < n && edges[i].payload == PayloadKind::Uart && edges[i].to_board@
                == board_id implies lanes[count_below(p, i as nat) as int] == (RxModel {
            edge_id: id_of(edges[i]),
            endpoint: edges[i].to_endpoint@,
        }) by {
            if i < m {
                assert(p(i));
                lemma_count_below(p, i as nat, m);
                assert(lanes[count_below(p, i as nat) as int] == before[count_below(
                    p,
                    i as nat,
                ) as int]);
            }
        }
    }
}

/// Outbound producers by position: those that some UART edge from the board to
/// another one has as its id.
pub open spec fn wanted(
    board_id: Seq<char>,
    edges: Seq<DirectedEdge>,
    producers: Seq<String>,
) -> spec_fn(int) -> bool {
    |k: int|
        exists|i: int|
            0 <= i < edges.len() && (#[trigger] edges[i]).payload == PayloadKind::Uart
                && edges[i].from_board@ == board_id && edges[i].to_board@ != board_id && id_of(
                edges[i],
            ) == producers[k]@
}

/// The producers that are kept are those whose id an outbound edge has, in
/// order.
pub proof fn kept_producers_are_wanted(
    board_id: Seq<char>,
    edges: Seq<DirectedEdge>,
    producers: Seq<String>,
    n: nat,
)
    requires
        n <= producers.len(),
    ensures
        ({
            let kept = needed_producers(board_id, edges, producers, n);
            let p = wanted(board_id, edges, producers);
            &&& kept.len() == count_below(p, n)
            &&& forall|k: int|
                #![trigger producers[k]]
                0 <= k < n && p(k) ==> kept[count_below(p, k as nat) as int] == producers[k]@
        }),
    decreases n,
{
    if n > 0 {
        let m = (n - 1) as nat;
        kept_producers_are_wanted(board_id, edges, producers, m);
        let p = wanted(board_id, edges, producers);
        let kept = needed_producers(board_id, edges, producers, n);
        let before = needed_producers(board_id, edges, producers, m);
        assert(p(n - 1) == needed(board_id, edges, producers[n - 1]@)) by {
            if p(n - 1) {
                let i = choose|i: int|
                    0 <= i < edges.len() && (#[trigger] edges[i]).payload == PayloadKind::Uart
                        && edges[i].from_board@ == board_id && edges[i].to_board@ != board_id
                        && id_of(edges[i]) == producers[n - 1]@;
                assert(is_tx(board_id, edges[i]));
            }
        }
        assert forall|k: int|
            #![trigger producers[k]]
            0 <= k < n && p(k) implies kept[count_below(p, k as nat) as int] == producers[k]@ by {
            if k < m {
                lemma_count_below(p, k as nat, m);
                assert(kept[count_below(p, k as nat) as int] == before[count_below(
                    p,
                    k as nat,
                ) as int]);
            }
        }
    }
}

/// UART endpoints of a direction by position.
pub open spec fn uart_side(
    endpoints: Seq<EndpointSpec>,
    direction: EndpointDirection,
) -> spec_fn(int) -> bool {
    |k: int| endpoints[k].payload == PayloadKind::Uart && endpoints[k].direction == direction
}

/// A board needs a port for each of its UART endpoints of a direction, by
/// name and in order, and for no others.
pub proof fn required_ports_are_uart_endpoints(
    endpoints: Seq<EndpointSpec>,
    direction: EndpointDirection,
    n: nat,
)
    requires
        n <= endpoints.len(),
    ensures
        ({
            let names = uart_endpoints(endpoints, direction, n);
            let p = uart_side(endpoints, direction);
            &&& names.len() == count_below(p, n)
            &&& forall|k: int|
                #![trigger endpoints[k]]
                0 <= k < n && endpoints[k].payload == PayloadKind::Uart && endpoints[k].direction
                    == direction ==> names[count_below(p, k as nat) as int] == endpoints[k].name@
        }),
    decreases n,
{
    if n > 0 {
        let m = (n - 1) as nat;
        required_ports_are_uart_endpoints(endpoints, direction, m);
        let p = uart_side(endpoints, direction);
        let names = uart_endpoints(endpoints, direction, n);
        let before = uart_endpoints(endpoints, direction, m);
        assert forall|k: int|
            #![trigger endpoints[k]]
            0 <= k < n && endpoints[k].payload == PayloadKind::Uart && endpoints[k].direction
                == direction implies names[count_below(p, k as nat) as int]
            == endpoints[k].name@ by {
            assert(p(k));
            if k < m {
                lemma_count_below(p, k as nat, m);
                assert(names[count_below(p, k as nat) as int] == before[count_below(
                    p,
                    k as nat,
                ) as int]);
            }
        }
        assert(p(n - 1) == (endpoints[n - 1].payload == PayloadKind::Uart && endpoints[n
            - 1].direction == direction));
    }
}

/// Opening fails exactly when some UART edge that leads to the board has no
/// consumer under its id, or shares its id with an earlier one; the first such
/// edge is named.
pub proof fn open_names_first_edge_without_consumer(
    board_id: Seq<char>,
    edges: Seq<DirectedEdge>,
    consumers: Seq<String>,
)
    ensures
        match first_some(missing_consumers(board_id, edges, consumers), edges.len()) {
            None => forall|i: int|
                0 <= i < edges.len() && (#[trigger] edges[i]).payload == PayloadKind::Uart
                    && edges[i].to_board@ == board_id ==> among(consumers, id_of(edges[i])) && (
                forall|j: int|
                    0 <= j < i && (#[trigger] edges[j]).payload == PayloadKind::Uart
                        && edges[j].to_board@ == board_id ==> id_of(edges[j]) != id_of(edges[i])),
            Some(id) => exists|i: int|
                0 <= i < edges.len() && (#[trigger] edges[i]).payload == PayloadKind::Uart
                    && edges[i].to_board@ == board_id && id_of(edges[i]) == id && (!among(
                    consumers,
                    id,
                ) || exists|j: int|
                    0 <= j < i && (#[trigger] edges[j]).payload == PayloadKind::Uart
                        && edges[j].to_board@ == board_id && id_of(edges[j]) == id) && (forall|j: int|
                    0 <= j < i && (#[trigger] edges[j]).payload == PayloadKind::Uart
                        && edges[j].to_board@ == board_id ==> among(consumers, id_of(edges[j]))),
        },
{
    let f = missing_consumers(board_id, edges, consumers);
    lemma_first_some(f, edges.len());
    match first_some(f, edges.len()) {
        None => {
            assert forall|i: int|
                0 <= i < edges.len() && (#[trigger] edges[i]).payload == PayloadKind::Uart
                    && edges[i].to_board@ == board_id implies among(consumers, id_of(edges[i])) && (
            forall|j: int|
                0 <= j < i && (#[trigger] edges[j]).payload == PayloadKind::Uart
                    && edges[j].to_board@ == board_id ==> id_of(edges[j]) != id_of(edges[i])) by {
                assert(f(i) is None);
                assert(is_rx(board_id, edges[i]));
                assert(!taken(board_id, edges, i));
                assert forall|j: int|
                    0 <= j < i && (#[trigger] edges[j]).payload == PayloadKind::Uart
                        && edges[j].to_board@ == board_id implies id_of(edges[j]) != id_of(
                    edges[i],
                ) by {
                    assert(is_rx(board_id, edges[j]));
                }
            }
        },
        Some(id) => {
            let i = choose|i: int|
                0 <= i < edges.len() && #[trigger] f(i) == Some(id) && (forall|j: int|
                    0 <= j < i ==> (#[trigger] f(j)) is None);
            assert(is_rx(board_id, edges[i]));
            if among(consumers, id) {
                assert(taken(board_id, edges, i));
                let j = choose|j: int|
                    0 <= j < i && is_rx(board_id, #[trigger] edges[j]) && id_of(edges[j]) == id_of(
                        edges[i],
                    );
                assert(edges[j].payload == PayloadKind::Uart);
            }
            assert forall|j: int|
                0 <= j < i && (#[trigger] edges[j]).payload == PayloadKind::Uart
                    && edges[j].to_board@ == board_id implies among(consumers, id_of(edges[j])) by {
                assert(f(j) is None);
                assert(is_rx(board_id, edges[j]));
            }
            assert(edges[i].payload == PayloadKind::Uart);
        },
    }
}

/// A map that binds has a port for every endpoint that it asks for and for
/// every lane, and a producer for every outbound edge, no two of which share
/// an id.
pub proof fn bound_map_has_its_ports(map: UartDataPlaneMap, ins: Seq<String>, outs: Seq<String>)
    requires
        bind_fault(map, ins, outs) is None,
    ensures
        forall|i: int|
            0 <= i < map.required_ins@.len() ==> among(ins, (#[trigger] map.required_ins@[i])@),
        forall|i: int|
            0 <= i < map.required_outs@.len() ==> among(outs, (#[trigger] map.required_outs@[i])@),
        forall|i: int|
            0 <= i < map.pending_rx@.len() ==> among(
                ins,
                (#[trigger] map.pending_rx@[i]).endpoint@,
            ),
        forall|k: int|
            0 <= k < map.pending_tx@.len() ==> among(
                outs,
                (#[trigger] map.pending_tx@[k]).endpoint@,
            ),
        forall|k: int, j: int|
            0 <= k < map.pending_tx@.len() && 0 <= j < map.pending_tx@[k].edge_ids@.len()
                ==> among(map.producers@, (#[trigger] map.pending_tx@[k].edge_ids@[j])@),
        forall|k: int, j: int, l: int, m: int|
            0 <= l <= k < map.pending_tx@.len() && 0 <= j < map.pending_tx@[k].edge_ids@.len() && 0
                <= m < map.pending_tx@[l].edge_ids@.len() && (l < k || m < j) ==> (
            #[trigger] map.pending_tx@[l].edge_ids@[m])@ != (
            #[trigger] map.pending_tx@[k].edge_ids@[j])@,
{
    let f_in = missing_port(
        "missing InPort<UartFrame> for topology endpoint `"@,
        map.required_ins@,
        ins,
    );
    let f_out = missing_port(
        "missing OutPort<UartFrame> for topology endpoint `"@,
        map.required_outs@,
        outs,
    );
    let f_rx = missing_rx_port(map.pending_rx@, ins);
    let f_tx = tx_fault(map.pending_tx@, map.producers@, outs);
    lemma_first_some(f_in, map.required_ins@.len());
    lemma_first_some(f_out, map.required_outs@.len());
    lemma_first_some(f_rx, map.pending_rx@.len());
    lemma_first_some(f_tx, map.pending_tx@.len());
    assert forall|i: int| 0 <= i < map.required_ins@.len() implies among(
        ins,
        (#[trigger] map.required_ins@[i])@,
    ) by {
        assert(f_in(i) is None);
    }
    assert forall|i: int| 0 <= i < map.required_outs@.len() implies among(
        outs,
        (#[trigger] map.required_outs@[i])@,
    ) by {
        assert(f_out(i) is None);
    }
    assert forall|i: int| 0 <= i < map.pending_rx@.len() implies among(
        ins,
        (#[trigger] map.pending_rx@[i]).endpoint@,
    ) by {
        assert(f_rx(i) is None);
    }
    assert forall|k: int| 0 <= k < map.pending_tx@.len() implies among(
        outs,
        (#[trigger] map.pending_tx@[k]).endpoint@,
    ) by {
        assert(f_tx(k) is None);
    }
    assert forall|k: int, j: int|
        0 <= k < map.pending_tx@.len() && 0 <= j < map.pending_tx@[k].edge_ids@.len() implies among(
        map.producers@,
        (#[trigger] map.pending_tx@[k].edge_ids@[j])@,
    ) && !used_before(map.pending_tx@, k, j) by {
        assert(f_tx(k) is None);
        let g = missing_producer(map.pending_tx@, map.producers@, k);
        lemma_first_some(g, map.pending_tx@[k].edge_ids@.len());
        assert(g(j) is None);
    }
    assert forall|k: int, j: int, l: int, m: int|
        0 <= l <= k < map.pending_tx@.len() && 0 <= j < map.pending_tx@[k].edge_ids@.len() && 0 <= m
            < map.pending_tx@[l].edge_ids@.len() && (l < k || m < j) implies (
    #[trigger] map.pending_tx@[l].edge_ids@[m])@ != (
    #[trigger] map.pending_tx@[k].edge_ids@[j])@ by {
        assert(!used_before(map.pending_tx@, k, j));
    }
}

/// A board that takes no part in UART traffic has no lanes and needs no ports.
pub proof fn board_without_uart_has_no_lanes(
    board_id: Seq<char>,
    board: BoardSpec,
    edges: Seq<DirectedEdge>,
    direction: EndpointDirection,
    n: nat,
)
    requires
        !uses_uart(board_id, board, edges),
    ensures
        n <= edges.len() ==> rx_lanes(board_id, edges, n).len() == 0,
        n <= edges.len() ==> tx_lanes(board_id, edges, n).len() == 0,
        n <= board.endpoints@.len() ==> uart_endpoints(board.endpoints@, direction, n).len() == 0,
    decreases n,
{
    if n > 0 {
        board_without_uart_has_no_lanes(board_id, board, edges, direction, (n - 1) as nat);
        if n <= edges.len() {
            assert(!(edges[n - 1].payload == PayloadKind::Uart && (edges[n - 1].from_board@
                == board_id || edges[n - 1].to_board@ == board_id)));
        }
        if n <= board.endpoints@.len() {
            assert(board.endpoints@[n - 1].payload != PayloadKind::Uart);
        }
    }
}

/// A board with a UART endpoint, or that a UART edge touches, takes part in
/// UART traffic.
pub proof fn board_with_uart_takes_part(
    board_id: Seq<char>,
    board: BoardSpec,
    edges: Seq<DirectedEdge>,
    i: int,
)
    ensures
        0 <= i < edges.len() && edges[i].payload == PayloadKind::Uart && (edges[i].from_board@
            == board_id || edges[i].to_board@ == board_id) ==> uses_uart(board_id, board, edges),
        0 <= i < board.endpoints@.len() && board.endpoints@[i].payload == PayloadKind::Uart
            ==> uses_uart(board_id, board, edges),
{
}

/// The lanes that are handed out are those that were worked out, text for text.
pub proof fn lanes_keep_their_texts(rx: Seq<RxLane>, tx: Seq<TxLane>, i: int, j: int)
    ensures
        rx_models(rx).len() == rx.len(),
        tx_models(tx).len() == tx.len(),
        0 <= i < rx.len() ==> rx_models(rx)[i].edge_id == rx[i].edge_id@ && rx_models(
            rx,
        )[i].endpoint == rx[i].endpoint@,
        0 <= i < tx.len() ==> tx_models(tx)[i].endpoint == tx[i].endpoint@ && tx_models(
            tx,
        )[i].edge_ids.len() == tx[i].edge_ids@.len(),
        0 <= i < tx.len() && 0 <= j < tx[i].edge_ids@.len() ==> tx_models(tx)[i].edge_ids[j]
            == tx[i].edge_ids@[j]@,
{
}

/// A check complains exactly when there is a fault, with its text.
pub proof fn complaint_tells_the_fault(r: Option<String>, fault: Option<Seq<char>>)
    requires
        complains(r, fault),
    ensures
        r is None <==> fault is None,
        r matches Some(s) ==> fault == Some(s@),
{
}

/// Lanes stand in the order of their first edges: further edges leave the lanes
/// that are there in their places.
pub proof fn lanes_keep_their_places(
    board_id: Seq<char>,
    edges: Seq<DirectedEdge>,
    m: nat,
    n: nat,
    k: int,
)
    requires
        m <= n,
    ensures
        tx_lanes(board_id, edges, m).len() <= tx_lanes(board_id, edges, n).len(),
        0 <= k < tx_lanes(board_id, edges, m).len() ==> tx_lanes(board_id, edges, n)[k].endpoint
            == tx_lanes(board_id, edges, m)[k].endpoint,
    decreases n,
{
    if m < n {
        lanes_keep_their_places(board_id, edges, m, (n - 1) as nat, k);
    }
}

} // verus!
