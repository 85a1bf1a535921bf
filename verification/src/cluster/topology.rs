//! Logical topology of a cluster: boards, endpoints and directed data edges.
//!
//! The topology arrives as a runtime handoff from a description script; it is
//! checked here before anything is started from it.

use vstd::prelude::*;

use crate::text::{
    first_some, join2, join3, join5, lemma_first_some, lemma_first_some_stays, same_text,
};

verus! {

/// Default Ready-barrier timeout when the topology names none (milliseconds).
pub const DEFAULT_READY_TIMEOUT_MS: u64 = 10_000;

/// Default UART ring capacity (frames) when an edge omits `uart_ring_len`.
pub const DEFAULT_UART_RING_LEN: u32 = 64;

/// Payload carried on a board-edge endpoint / directed data edge.
#[derive(Clone, Copy, Debug, PartialEq, Eq, Structural)]
pub enum PayloadKind {
    Uart,
    Digital,
}

/// Direction of an external endpoint relative to the board.
#[derive(Clone, Copy, Debug, PartialEq, Eq, Structural)]
pub enum EndpointDirection {
    In,
    Out,
}

/// One named board-edge endpoint in the logical topology.
#[derive(Clone, Debug, PartialEq, Eq)]
pub struct EndpointSpec {
    pub name: String,
    pub direction: EndpointDirection,
    pub payload: PayloadKind,
}

/// One simulation board (one OS process / one machine in the node binary).
#[derive(Clone, Debug, PartialEq, Eq)]
pub struct BoardSpec {
    pub id: String,
    /// Board kind string (e.g. `"rl78"`). Validated later by the node.
    pub kind: String,
    /// Optional guest firmware path for the node to load.
    pub elf: Option<String>,
    pub endpoints: Vec<EndpointSpec>,
}

/// Directed data-plane edge between two endpoints.
#[derive(Clone, Debug, PartialEq, Eq)]
pub struct DirectedEdge {
    pub from_board: String,
    pub from_endpoint: String,
    pub to_board: String,
    pub to_endpoint: String,
    pub payload: PayloadKind,
    /// UART ring length; ignored for non-UART payloads. Omitted: the default.
    pub uart_ring_len: Option<u32>,
}

/// Logical topology consumed by the arbiter and the boards.
#[derive(Clone, Debug, PartialEq, Eq)]
pub struct LogicalTopology {
    pub boards: Vec<BoardSpec>,
    pub edges: Vec<DirectedEdge>,
    /// Required virtual-time skew margin (nanoseconds). No implicit default.
    pub margin_ns: u64,
    /// Required headroom threshold for time reports (nanoseconds). No default.
    pub headroom_threshold_ns: u64,
    /// Ready-barrier timeout; see [`DEFAULT_READY_TIMEOUT_MS`].
    pub ready_timeout_ms: u64,
}

/// Topology parse / validation failure.
#[derive(Debug)]
pub enum TopologyError {
    Json(String),
    Invalid(String),
}

impl TopologyError {
    /// Text of the failure for people.
    pub open spec fn shown(self) -> Seq<char> {
        match self {
            TopologyError::Json(what) => "invalid topology JSON: "@ + what@,
            TopologyError::Invalid(what) => what@,
        }
    }

    /// Text of the failure for people.
    pub fn shown_text(&self) -> (r: String)
        ensures
            r@ == self.shown(),
    {
        match self {
            TopologyError::Json(what) => join2("invalid topology JSON: ", what.as_str()),
            TopologyError::Invalid(what) => what.clone(),
        }
    }
}

/// What a description gives of a topology.
#[derive(Clone, Debug)]
pub struct TopologyFields {
    pub boards: Vec<BoardSpec>,
    pub edges: Vec<DirectedEdge>,
    pub margin_ns: Option<u64>,
    pub headroom_threshold_ns: Option<u64>,
    pub ready_timeout_ms: Option<u64>,
}

/// Whether a description lacks a required field.
pub open spec fn lacks_field(fields: TopologyFields) -> bool {
    fields.margin_ns is None || fields.headroom_threshold_ns is None
}

/// The topology that a description with its required fields stands for. The
/// timeout is the only field with a default.
pub open spec fn filled(fields: TopologyFields) -> LogicalTopology {
    LogicalTopology {
        boards: fields.boards,
        edges: fields.edges,
        margin_ns: fields.margin_ns->0,
        headroom_threshold_ns: fields.headroom_threshold_ns->0,
        ready_timeout_ms: match fields.ready_timeout_ms {
            Some(ms) => ms,
            None => DEFAULT_READY_TIMEOUT_MS,
        },
    }
}

impl PayloadKind {
    /// Name of the kind as reports spell it.
    pub open spec fn name(self) -> Seq<char> {
        match self {
            PayloadKind::Uart => "Uart"@,
            PayloadKind::Digital => "Digital"@,
        }
    }

    /// Text of [`PayloadKind::name`].
    pub fn name_text(self) -> (r: &'static str)
        ensures
            r@ == self.name(),
    {
        match self {
            PayloadKind::Uart => "Uart",
            PayloadKind::Digital => "Digital",
        }
    }
}

/// Index of the first board with this id.
pub open spec fn board_index(boards: Seq<BoardSpec>, id: Seq<char>) -> Option<int> {
    first_some(board_match(boards, id), boards.len())
}

/// The index itself where the board there has this id.
pub open spec fn board_match(boards: Seq<BoardSpec>, id: Seq<char>) -> spec_fn(int) -> Option<int> {
    |i: int|
        if boards[i].id@ == id {
            Some(i)
        } else {
            None
        }
}

/// Index of the first endpoint with this name.
pub open spec fn endpoint_index(endpoints: Seq<EndpointSpec>, name: Seq<char>) -> Option<int> {
    first_some(endpoint_match(endpoints, name), endpoints.len())
}

/// The index itself where the endpoint there has this name.
pub open spec fn endpoint_match(endpoints: Seq<EndpointSpec>, name: Seq<char>) -> spec_fn(
    int,
) -> Option<int> {
    |i: int|
        if endpoints[i].name@ == name {
            Some(i)
        } else {
            None
        }
}

/// What is wrong with the `k`-th endpoint of a board, given those before it.
pub open spec fn endpoint_fault(board: BoardSpec, k: int) -> Option<Seq<char>> {
    let name = board.endpoints@[k].name@;
    if name.len() == 0 {
        Some("board '"@ + board.id@ + "': endpoint name must not be empty"@)
    } else if exists|j: int| 0 <= j < k && (#[trigger] board.endpoints@[j]).name@ == name {
        Some("board '"@ + board.id@ + "': duplicate endpoint '"@ + name + "'"@)
    } else {
        None
    }
}

/// What is wrong with the `i`-th board, given those before it.
pub open spec fn board_fault(boards: Seq<BoardSpec>, i: int) -> Option<Seq<char>> {
    let board = boards[i];
    if board.id@.len() == 0 {
        Some("board id must not be empty"@)
    } else if exists|j: int| 0 <= j < i && (#[trigger] boards[j]).id@ == board.id@ {
        Some("duplicate board id '"@ + board.id@ + "'"@)
    } else {
        first_some(endpoint_faults(board), board.endpoints@.len())
    }
}

/// [`endpoint_fault`] by endpoint index.
pub open spec fn endpoint_faults(board: BoardSpec) -> spec_fn(int) -> Option<Seq<char>> {
    |k: int| endpoint_fault(board, k)
}

/// [`board_fault`] by board index.
pub open spec fn board_faults(boards: Seq<BoardSpec>) -> spec_fn(int) -> Option<Seq<char>> {
    |i: int| board_fault(boards, i)
}

/// [`edge_fault`] by edge index.
pub open spec fn edge_faults(boards: Seq<BoardSpec>, edges: Seq<DirectedEdge>) -> spec_fn(
    int,
) -> Option<Seq<char>> {
    |i: int| edge_fault(boards, edges[i])
}

/// What is wrong with an edge over these boards.
pub open spec fn edge_fault(boards: Seq<BoardSpec>, edge: DirectedEdge) -> Option<Seq<char>> {
    match board_index(boards, edge.from_board@) {
        None => Some("edge from unknown board '"@ + edge.from_board@ + "'"@),
        Some(f) => match board_index(boards, edge.to_board@) {
            None => Some("edge to unknown board '"@ + edge.to_board@ + "'"@),
            Some(t) => resolved_edge_fault(boards[f], boards[t], edge),
        },
    }
}

/// What is wrong with an edge between two boards that both exist.
pub open spec fn resolved_edge_fault(
    from: BoardSpec,
    to: BoardSpec,
    edge: DirectedEdge,
) -> Option<Seq<char>> {
    match endpoint_index(from.endpoints@, edge.from_endpoint@) {
        None => Some(
            "edge: board '"@ + edge.from_board@ + "' has no endpoint '"@ + edge.from_endpoint@
                + "'"@,
        ),
        Some(f) => match endpoint_index(to.endpoints@, edge.to_endpoint@) {
            None => Some(
                "edge: board '"@ + edge.to_board@ + "' has no endpoint '"@ + edge.to_endpoint@
                    + "'"@,
            ),
            Some(t) => {
                if from.endpoints@[f].direction != EndpointDirection::Out {
                    Some(
                        "edge source '"@ + edge.from_board@ + ":"@ + edge.from_endpoint@
                            + "' must be direction out"@,
                    )
                } else if to.endpoints@[t].direction != EndpointDirection::In {
                    Some(
                        "edge sink '"@ + edge.to_board@ + ":"@ + edge.to_endpoint@
                            + "' must be direction in"@,
                    )
                } else if from.endpoints@[f].payload != edge.payload || to.endpoints@[t].payload
                    != edge.payload {
                    Some(
                        "edge payload "@ + edge.payload.name() + " mismatches endpoint payloads"@,
                    )
                } else if edge.from_board@ == edge.to_board@ {
                    Some("edge must connect two different boards"@)
                } else {
                    None
                }
            },
        },
    }
}

/// The first thing wrong with a topology: boards before edges, each in order.
pub open spec fn topology_fault(topo: LogicalTopology) -> Option<Seq<char>> {
    let boards = topo.boards@;
    let edges = topo.edges@;
    if boards.len() == 0 {
        Some("topology must declare at least one board"@)
    } else {
        match first_some(board_faults(boards), boards.len()) {
            Some(fault) => Some(fault),
            None => first_some(edge_faults(boards, edges), edges.len()),
        }
    }
}

/// Position of the first board with this id.
pub fn find_board_index(boards: &Vec<BoardSpec>, id: &str) -> (r: Option<usize>)
    ensures
        match r {
            Some(i) => i < boards@.len() && board_index(boards@, id@) == Some(i as int),
            None => board_index(boards@, id@) is None,
        },
{
    let ghost f = board_match(boards@, id@);
    let mut i: usize = 0;
    while i < boards.len()
        invariant
            i <= boards@.len(),
            f == board_match(boards@, id@),
            first_some(f, i as nat) is None,
        decreases boards@.len() - i,
    {
        if same_text(boards[i].id.as_str(), id) {
            proof {
                assert(first_some(f, (i + 1) as nat) == Some(i as int));
                lemma_first_some_stays(f, (i + 1) as nat, boards@.len());
            }
            return Some(i);
        }
        i += 1;
    }
    None
}

/// Position of the first endpoint with this name.
fn find_endpoint_index(endpoints: &Vec<EndpointSpec>, name: &str) -> (r: Option<usize>)
    ensures
        match r {
            Some(i) => i < endpoints@.len() && endpoint_index(endpoints@, name@) == Some(i as int),
            None => endpoint_index(endpoints@, name@) is None,
        },
{
    let ghost f = endpoint_match(endpoints@, name@);
    let mut i: usize = 0;
    while i < endpoints.len()
        invariant
            i <= endpoints@.len(),
            f == endpoint_match(endpoints@, name@),
            first_some(f, i as nat) is None,
        decreases endpoints@.len() - i,
    {
        if same_text(endpoints[i].name.as_str(), name) {
            proof {
                assert(first_some(f, (i + 1) as nat) == Some(i as int));
                lemma_first_some_stays(f, (i + 1) as nat, endpoints@.len());
            }
            return Some(i);
        }
        i += 1;
    }
    None
}

/// Whether a board before the `i`-th has the same id.
fn board_id_taken(boards: &Vec<BoardSpec>, i: usize) -> (r: bool)
    requires
        i < boards@.len(),
    ensures
        r == (exists|j: int| 0 <= j < i && (#[trigger] boards@[j]).id@ == boards@[i as int].id@),
{
    let mut j: usize = 0;
    while j < i
        invariant
            j <= i < boards@.len(),
            forall|l: int| 0 <= l < j ==> (#[trigger] boards@[l]).id@ != boards@[i as int].id@,
        decreases i - j,
    {
        if same_text(boards[j].id.as_str(), boards[i].id.as_str()) {
            return true;
        }
        j += 1;
    }
    false
}

/// Whether an endpoint before the `k`-th has the same name.
fn endpoint_name_taken(endpoints: &Vec<EndpointSpec>, k: usize) -> (r: bool)
    requires
        k < endpoints@.len(),
    ensures
        r == (exists|j: int|
            0 <= j < k && (#[trigger] endpoints@[j]).name@ == endpoints@[k as int].name@),
{
    let mut j: usize = 0;
    while j < k
        invariant
            j <= k < endpoints@.len(),
            forall|l: int|
                0 <= l < j ==> (#[trigger] endpoints@[l]).name@ != endpoints@[k as int].name@,
        decreases k - j,
    {
        if same_text(endpoints[j].name.as_str(), endpoints[k].name.as_str()) {
            return true;
        }
        j += 1;
    }
    false
}

/// Report of the `k`-th endpoint of a board.
fn check_endpoint(board: &BoardSpec, k: usize) -> (r: Result<(), TopologyError>)
    requires
        k < board.endpoints@.len(),
    ensures
        reports(r, endpoint_fault(*board, k as int)),
{
    let name = board.endpoints[k].name.as_str();
    if name.is_empty() {
        return Err(
            TopologyError::Invalid(
                join3("board '", board.id.as_str(), "': endpoint name must not be empty"),
            ),
        );
    }
    if endpoint_name_taken(&board.endpoints, k) {
        return Err(
            TopologyError::Invalid(
                join5("board '", board.id.as_str(), "': duplicate endpoint '", name, "'"),
            ),
        );
    }
    Ok(())
}

/// A check's result says exactly what the fault is: none, or this text.
pub open spec fn reports(r: Result<(), TopologyError>, fault: Option<Seq<char>>) -> bool {
    match r {
        Ok(()) => fault is None,
        Err(TopologyError::Invalid(message)) => fault == Some(message@),
        Err(TopologyError::Json(_)) => false,
    }
}

/// Report of the endpoints of a board, in order.
fn check_endpoints(board: &BoardSpec) -> (r: Result<(), TopologyError>)
    ensures
        reports(r, first_some(endpoint_faults(*board), board.endpoints@.len())),
{
    let ghost f = endpoint_faults(*board);
    let mut k: usize = 0;
    while k < board.endpoints.len()
        invariant
            k <= board.endpoints@.len(),
            f == endpoint_faults(*board),
            first_some(f, k as nat) is None,
        decreases board.endpoints@.len() - k,
    {
        let checked = check_endpoint(board, k);
        proof {
            assert(first_some(f, (k + 1) as nat) == f(k as int));
        }
        if checked.is_err() {
            proof {
                lemma_first_some_stays(f, (k + 1) as nat, board.endpoints@.len());
            }
            return checked;
        }
        k += 1;
    }
    Ok(())
}

/// Report of the `i`-th board.
fn check_board(boards: &Vec<BoardSpec>, i: usize) -> (r: Result<(), TopologyError>)
    requires
        i < boards@.len(),
    ensures
        reports(r, board_fault(boards@, i as int)),
{
    let board = &boards[i];
    if board.id.as_str().is_empty() {
        return Err(TopologyError::Invalid("board id must not be empty".to_owned()));
    }
    if board_id_taken(boards, i) {
        return Err(
            TopologyError::Invalid(join3("duplicate board id '", board.id.as_str(), "'")),
        );
    }
    check_endpoints(board)
}

/// Report of an edge between two boards that both exist.
fn check_resolved_edge(from: &BoardSpec, to: &BoardSpec, edge: &DirectedEdge) -> (r: Result<
    (),
    TopologyError,
>)
    ensures
        reports(r, resolved_edge_fault(*from, *to, *edge)),
{
    let f = match find_endpoint_index(&from.endpoints, edge.from_endpoint.as_str()) {
        Some(f) => f,
        None => {
            return Err(
                TopologyError::Invalid(
                    join5(
                        "edge: board '",
                        edge.from_board.as_str(),
                        "' has no endpoint '",
                        edge.from_endpoint.as_str(),
                        "'",
                    ),
                ),
            );
        },
    };
    let t = match find_endpoint_index(&to.endpoints, edge.to_endpoint.as_str()) {
        Some(t) => t,
        None => {
            return Err(
                TopologyError::Invalid(
                    join5(
                        "edge: board '",
                        edge.to_board.as_str(),
                        "' has no endpoint '",
                        edge.to_endpoint.as_str(),
                        "'",
                    ),
                ),
            );
        },
    };
    let from_ep = &from.endpoints[f];
    let to_ep = &to.endpoints[t];
    if from_ep.direction != EndpointDirection::Out {
        return Err(
            TopologyError::Invalid(
                join5(
                    "edge source '",
                    edge.from_board.as_str(),
                    ":",
                    edge.from_endpoint.as_str(),
                    "' must be direction out",
                ),
            ),
        );
    }
    if to_ep.direction != EndpointDirection::In {
        return Err(
            TopologyError::Invalid(
                join5(
                    "edge sink '",
                    edge.to_board.as_str(),
                    ":",
                    edge.to_endpoint.as_str(),
                    "' must be direction in",
                ),
            ),
        );
    }
    if from_ep.payload != edge.payload || to_ep.payload != edge.payload {
        return Err(
            TopologyError::Invalid(
                join3("edge payload ", edge.payload.name_text(), " mismatches endpoint payloads"),
            ),
        );
    }
    if same_text(edge.from_board.as_str(), edge.to_board.as_str()) {
        return Err(TopologyError::Invalid("edge must connect two different boards".to_owned()));
    }
    Ok(())
}

/// Report of one edge.
fn check_edge(boards: &Vec<BoardSpec>, edge: &DirectedEdge) -> (r: Result<(), TopologyError>)
    ensures
        reports(r, edge_fault(boards@, *edge)),
{
    let f = match find_board_index(boards, edge.from_board.as_str()) {
        Some(f) => f,
        None => {
            return Err(
                TopologyError::Invalid(
                    join3("edge from unknown board '", edge.from_board.as_str(), "'"),
                ),
            );
        },
    };
    let t = match find_board_index(boards, edge.to_board.as_str()) {
        Some(t) => t,
        None => {
            return Err(
                TopologyError::Invalid(
                    join3("edge to unknown board '", edge.to_board.as_str(), "'"),
                ),
            );
        },
    };
    check_resolved_edge(&boards[f], &boards[t], edge)
}

impl LogicalTopology {
    /// Take over a description: its required fields have to be there, and it
    /// has to pass the structural checks. `report` is what the parser says of a
    /// description that lacks a required field.
    pub fn from_fields(fields: TopologyFields, report: &str) -> (r: Result<
        LogicalTopology,
        TopologyError,
    >)
        ensures
            if lacks_field(fields) {
                r matches Err(TopologyError::Json(message)) && message@ == report@
            } else {
                match topology_fault(filled(fields)) {
                    Some(fault) => r matches Err(TopologyError::Invalid(message)) && message@
                        == fault,
                    None => r matches Ok(topo) && topo == filled(fields),
                }
            },
    {
        let (margin_ns, headroom_threshold_ns) = match (
            fields.margin_ns,
            fields.headroom_threshold_ns,
        ) {
            (Some(margin), Some(headroom)) => (margin, headroom),
            _ => {
                return Err(TopologyError::Json(report.to_owned()));
            },
        };
        let ready_timeout_ms = match fields.ready_timeout_ms {
            Some(ms) => ms,
            None => DEFAULT_READY_TIMEOUT_MS,
        };
        let topo = LogicalTopology {
            boards: fields.boards,
            edges: fields.edges,
            margin_ns,
            headroom_threshold_ns,
            ready_timeout_ms,
        };
        match topo.validate() {
            Ok(_) => Ok(topo),
            Err(e) => Err(e),
        }
    }

    /// Structural checks: unique ids, required fields, edge endpoint
    /// resolution. Reports the first fault, boards before edges.
    pub fn validate(&self) -> (r: Result<(), TopologyError>)
        ensures
            reports(r, topology_fault(*self)),
    {
        if self.boards.is_empty() {
            return Err(
                TopologyError::Invalid("topology must declare at least one board".to_owned()),
            );
        }
        let ghost f = board_faults(self.boards@);
        let mut i: usize = 0;
        while i < self.boards.len()
            invariant
                i <= self.boards@.len(),
                self.boards@.len() > 0,
                f == board_faults(self.boards@),
                first_some(f, i as nat) is None,
            decreases self.boards@.len() - i,
        {
            let checked = check_board(&self.boards, i);
            proof {
                assert(first_some(f, (i + 1) as nat) == f(i as int));
            }
            if checked.is_err() {
                proof {
                    lemma_first_some_stays(f, (i + 1) as nat, self.boards@.len());
                }
                return checked;
            }
            i += 1;
        }
        let ghost g = edge_faults(self.boards@, self.edges@);
        let mut e: usize = 0;
        while e < self.edges.len()
            invariant
                e <= self.edges@.len(),
                self.boards@.len() > 0,
                f == board_faults(self.boards@),
                first_some(f, self.boards@.len()) is None,
                g == edge_faults(self.boards@, self.edges@),
                first_some(g, e as nat) is None,
            decreases self.edges@.len() - e,
        {
            let checked = check_edge(&self.boards, &self.edges[e]);
            proof {
                assert(first_some(g, (e + 1) as nat) == g(e as int));
            }
            if checked.is_err() {
                proof {
                    lemma_first_some_stays(g, (e + 1) as nat, self.edges@.len());
                }
                return checked;
            }
            e += 1;
        }
        Ok(())
    }

    /// Effective UART ring length for an edge.
    pub fn uart_ring_len(edge: &DirectedEdge) -> (r: u32)
        ensures
            r == ring_len(*edge),
    {
        match edge.uart_ring_len {
            Some(len) => len,
            None => DEFAULT_UART_RING_LEN,
        }
    }
}

/// Ring length of an edge: its own, or the default.
pub open spec fn ring_len(edge: DirectedEdge) -> u32 {
    match edge.uart_ring_len {
        Some(len) => len,
        None => DEFAULT_UART_RING_LEN,
    }
}

/// The boards of a topology without faults have ids that are not empty and
/// differ from one another, and so do the endpoints of each board.
pub proof fn valid_names_are_unique(topo: LogicalTopology)
    requires
        topology_fault(topo) is None,
    ensures
        topo.boards@.len() > 0,
        forall|i: int| 0 <= i < topo.boards@.len() ==> (#[trigger] topo.boards@[i]).id@.len() > 0,
        forall|i: int, j: int|
            0 <= i < j < topo.boards@.len() ==> (#[trigger] topo.boards@[i]).id@ != (
            #[trigger] topo.boards@[j]).id@,
        forall|i: int, k: int|
            0 <= i < topo.boards@.len() && 0 <= k < topo.boards@[i].endpoints@.len() ==> (
            #[trigger] topo.boards@[i].endpoints@[k]).name@.len() > 0,
        forall|i: int, j: int, k: int|
            #![trigger topo.boards@[i].endpoints@[j], topo.boards@[i].endpoints@[k]]
            0 <= i < topo.boards@.len() && 0 <= j < k < topo.boards@[i].endpoints@.len()
                ==> topo.boards@[i].endpoints@[j].name@ != topo.boards@[i].endpoints@[k].name@,
{
    let boards = topo.boards@;
    let f = board_faults(boards);
    lemma_first_some(f, boards.len());
    assert forall|i: int| 0 <= i < boards.len() implies #[trigger] board_fault(
        boards,
        i,
    ) is None by {
        assert(f(i) is None);
    }
    assert forall|i: int, k: int|
        0 <= i < boards.len() && 0 <= k < boards[i].endpoints@.len() implies #[trigger] endpoint_fault(
        boards[i],
        k,
    ) is None by {
        assert(board_fault(boards, i) is None);
        let g = endpoint_faults(boards[i]);
        lemma_first_some(g, boards[i].endpoints@.len());
        assert(g(k) is None);
    }
    assert forall|i: int| 0 <= i < boards.len() implies (#[trigger] boards[i]).id@.len() > 0 by {
        assert(board_fault(boards, i) is None);
    }
    assert forall|i: int, j: int| 0 <= i < j < boards.len() implies (#[trigger] boards[i]).id@ != (
    #[trigger] boards[j]).id@ by {
        assert(board_fault(boards, j) is None);
    }
    assert forall|i: int, k: int|
        0 <= i < boards.len() && 0 <= k < boards[i].endpoints@.len() implies (
    #[trigger] boards[i].endpoints@[k]).name@.len() > 0 by {
        assert(endpoint_fault(boards[i], k) is None);
    }
    assert forall|i: int, j: int, k: int|
        #![trigger boards[i].endpoints@[j], boards[i].endpoints@[k]]
        0 <= i < boards.len() && 0 <= j < k
            < boards[i].endpoints@.len() implies boards[i].endpoints@[j].name@
        != boards[i].endpoints@[k].name@ by {
        assert(endpoint_fault(boards[i], k) is None);
    }
}

/// A board `b` has an endpoint of this name, direction and payload.
pub open spec fn offers(
    board: BoardSpec,
    name: Seq<char>,
    direction: EndpointDirection,
    payload: PayloadKind,
) -> bool {
    exists|k: int|
        0 <= k < board.endpoints@.len() && (#[trigger] board.endpoints@[k]).name@ == name
            && board.endpoints@[k].direction == direction && board.endpoints@[k].payload == payload
}

/// Every edge of a topology without faults leaves an output of one declared
/// board and enters an input of another, both carrying the edge's payload.
pub proof fn valid_edges_resolve(topo: LogicalTopology, e: int)
    requires
        topology_fault(topo) is None,
        0 <= e < topo.edges@.len(),
    ensures
        topo.edges@[e].from_board@ != topo.edges@[e].to_board@,
        exists|f: int|
            0 <= f < topo.boards@.len() && (#[trigger] topo.boards@[f]).id@
                == topo.edges@[e].from_board@ && offers(
                topo.boards@[f],
                topo.edges@[e].from_endpoint@,
                EndpointDirection::Out,
                topo.edges@[e].payload,
            ),
        exists|t: int|
            0 <= t < topo.boards@.len() && (#[trigger] topo.boards@[t]).id@
                == topo.edges@[e].to_board@ && offers(
                topo.boards@[t],
                topo.edges@[e].to_endpoint@,
                EndpointDirection::In,
                topo.edges@[e].payload,
            ),
{
    let boards = topo.boards@;
    let edges = topo.edges@;
    let edge = edges[e];
    let g = edge_faults(boards, edges);
    lemma_first_some(g, edges.len());
    assert(g(e) is None);
    lemma_board_index(boards, edge.from_board@);
    lemma_board_index(boards, edge.to_board@);
    let f = board_index(boards, edge.from_board@)->0;
    let t = board_index(boards, edge.to_board@)->0;
    lemma_endpoint_index(boards[f].endpoints@, edge.from_endpoint@);
    lemma_endpoint_index(boards[t].endpoints@, edge.to_endpoint@);
    assert(boards[f].id@ == edge.from_board@);
    assert(boards[t].id@ == edge.to_board@);
    let fe = endpoint_index(boards[f].endpoints@, edge.from_endpoint@)->0;
    let te = endpoint_index(boards[t].endpoints@, edge.to_endpoint@)->0;
    assert(boards[f].endpoints@[fe].direction == EndpointDirection::Out);
    assert(boards[t].endpoints@[te].direction == EndpointDirection::In);
}

/// A found board is in range and has the id that was asked for.
pub proof fn lemma_board_index(boards: Seq<BoardSpec>, id: Seq<char>)
    ensures
        board_index(boards, id) matches Some(i) ==> 0 <= i < boards.len() && boards[i].id@ == id,
        board_index(boards, id) is None <==> (forall|i: int|
            0 <= i < boards.len() ==> (#[trigger] boards[i]).id@ != id),
{
    let f = board_match(boards, id);
    lemma_first_some(f, boards.len());
    assert forall|i: int| 0 <= i < boards.len() && board_index(boards, id) is None implies (
    #[trigger] boards[i]).id@ != id by {
        assert(f(i) is None);
    }
}

/// A found endpoint is in range and has the name that was asked for.
proof fn lemma_endpoint_index(endpoints: Seq<EndpointSpec>, name: Seq<char>)
    ensures
        endpoint_index(endpoints, name) matches Some(i) ==> 0 <= i < endpoints.len()
            && endpoints[i].name@ == name,
{
    let f = endpoint_match(endpoints, name);
    lemma_first_some(f, endpoints.len());
}

/// A search finds the first board with the id that was asked for.
pub proof fn first_board_is_found(boards: Seq<BoardSpec>, id: Seq<char>)
    ensures
        match board_index(boards, id) {
            Some(i) => 0 <= i < boards.len() && boards[i].id@ == id && forall|j: int|
                0 <= j < i ==> (#[trigger] boards[j]).id@ != id,
            None => forall|j: int| 0 <= j < boards.len() ==> (#[trigger] boards[j]).id@ != id,
        },
{
    let f = board_match(boards, id);
    lemma_board_index(boards, id);
    lemma_first_some(f, boards.len());
    if let Some(i) = board_index(boards, id) {
        assert forall|j: int| 0 <= j < i implies (#[trigger] boards[j]).id@ != id by {
            assert(f(j) is None);
        }
    }
}

/// An endpoint that a board has is found by its name.
proof fn lemma_endpoint_found(endpoints: Seq<EndpointSpec>, k: int)
    requires
        0 <= k < endpoints.len(),
        forall|i: int, j: int|
            0 <= i < j < endpoints.len() ==> (#[trigger] endpoints[i]).name@ != (
            #[trigger] endpoints[j]).name@,
    ensures
        endpoint_index(endpoints, endpoints[k].name@) == Some(k),
{
    let f = endpoint_match(endpoints, endpoints[k].name@);
    lemma_first_some(f, endpoints.len());
    assert(f(k) == Some(k));
    lemma_endpoint_index(endpoints, endpoints[k].name@);
}

/// A topology has no fault where its boards, of which there is one at least,
/// have names that differ, and so have the endpoints of each, none of them
/// empty, and each edge leads from an output of one board to an input of
/// another one, both carrying its payload.
pub proof fn sound_topology_has_no_fault(topo: LogicalTopology)
    requires
        topo.boards@.len() > 0,
        forall|i: int| 0 <= i < topo.boards@.len() ==> (#[trigger] topo.boards@[i]).id@.len() > 0,
        forall|i: int, j: int|
            0 <= i < j < topo.boards@.len() ==> (#[trigger] topo.boards@[i]).id@ != (
            #[trigger] topo.boards@[j]).id@,
        forall|i: int, k: int|
            0 <= i < topo.boards@.len() && 0 <= k < topo.boards@[i].endpoints@.len() ==> (
            #[trigger] topo.boards@[i].endpoints@[k]).name@.len() > 0,
        forall|i: int, j: int, k: int|
            #![trigger topo.boards@[i].endpoints@[j], topo.boards@[i].endpoints@[k]]
            0 <= i < topo.boards@.len() && 0 <= j < k < topo.boards@[i].endpoints@.len()
                ==> topo.boards@[i].endpoints@[j].name@ != topo.boards@[i].endpoints@[k].name@,
        forall|e: int|
            0 <= e < topo.edges@.len() ==> (#[trigger] topo.edges@[e]).from_board@
                != topo.edges@[e].to_board@,
        forall|e: int|
            0 <= e < topo.edges@.len() ==> exists|f: int|
                0 <= f < topo.boards@.len() && (#[trigger] topo.boards@[f]).id@ == (
                #[trigger] topo.edges@[e]).from_board@ && offers(
                    topo.boards@[f],
                    topo.edges@[e].from_endpoint@,
                    EndpointDirection::Out,
                    topo.edges@[e].payload,
                ),
        forall|e: int|
            0 <= e < topo.edges@.len() ==> exists|t: int|
                0 <= t < topo.boards@.len() && (#[trigger] topo.boards@[t]).id@ == (
                #[trigger] topo.edges@[e]).to_board@ && offers(
                    topo.boards@[t],
                    topo.edges@[e].to_endpoint@,
                    EndpointDirection::In,
                    topo.edges@[e].payload,
                ),
    ensures
        topology_fault(topo) is None,
{
    let boards = topo.boards@;
    let edges = topo.edges@;
    let faults = board_faults(boards);
    lemma_first_some(faults, boards.len());
    assert forall|i: int| 0 <= i < boards.len() implies (#[trigger] faults(i)) is None by {
        let board = boards[i];
        let g = endpoint_faults(board);
        lemma_first_some(g, board.endpoints@.len());
        assert forall|k: int| 0 <= k < board.endpoints@.len() implies (#[trigger] g(k)) is None by {
            assert(boards[i].endpoints@[k].name@.len() > 0);
            assert forall|j: int| 0 <= j < k implies (#[trigger] board.endpoints@[j]).name@
                != board.endpoints@[k].name@ by {
                assert(boards[i].endpoints@[j].name@ != boards[i].endpoints@[k].name@);
            }
        }
        assert(board.id@.len() > 0);
        assert forall|j: int| 0 <= j < i implies (#[trigger] boards[j]).id@ != board.id@ by {}
    }
    let g = edge_faults(boards, edges);
    lemma_first_some(g, edges.len());
    assert forall|e: int| 0 <= e < edges.len() implies (#[trigger] g(e)) is None by {
        let edge = edges[e];
        let f = choose|f: int|
            0 <= f < boards.len() && (#[trigger] boards[f]).id@ == edge.from_board@ && offers(
                boards[f],
                edge.from_endpoint@,
                EndpointDirection::Out,
                edge.payload,
            );
        let t = choose|t: int|
            0 <= t < boards.len() && (#[trigger] boards[t]).id@ == edge.to_board@ && offers(
                boards[t],
                edge.to_endpoint@,
                EndpointDirection::In,
                edge.payload,
            );
        lemma_board_index(boards, edge.from_board@);
        lemma_board_index(boards, edge.to_board@);
        assert(board_index(boards, edge.from_board@) == Some(f));
        assert(board_index(boards, edge.to_board@) == Some(t));
        let a = choose|k: int|
            0 <= k < boards[f].endpoints@.len() && (#[trigger] boards[f].endpoints@[k]).name@
                == edge.from_endpoint@ && boards[f].endpoints@[k].direction
                == EndpointDirection::Out && boards[f].endpoints@[k].payload == edge.payload;
        let b = choose|k: int|
            0 <= k < boards[t].endpoints@.len() && (#[trigger] boards[t].endpoints@[k]).name@
                == edge.to_endpoint@ && boards[t].endpoints@[k].direction == EndpointDirection::In
                && boards[t].endpoints@[k].payload == edge.payload;
        lemma_endpoint_found(boards[f].endpoints@, a);
        lemma_endpoint_found(boards[t].endpoints@, b);
        assert(edge.from_board@ != edge.to_board@);
    }
}

/// A description lacks a field without its margin or its headroom threshold.
/// With them it is taken over as it is; a timeout that it does not name is ten
/// seconds, and a ring length that an edge does not name is 64 frames.
pub proof fn description_is_taken_over(fields: TopologyFields, edge: DirectedEdge)
    ensures
        lacks_field(fields) <==> !(fields.margin_ns is Some && fields.headroom_threshold_ns is Some),
        !lacks_field(fields) ==> {
            let topo = filled(fields);
            &&& topo.boards == fields.boards
            &&& topo.edges == fields.edges
            &&& Some(topo.margin_ns) == fields.margin_ns
            &&& Some(topo.headroom_threshold_ns) == fields.headroom_threshold_ns
            &&& fields.ready_timeout_ms is Some ==> Some(topo.ready_timeout_ms)
                == fields.ready_timeout_ms
            &&& fields.ready_timeout_ms is None ==> topo.ready_timeout_ms == 10_000
        },
        edge.uart_ring_len is Some ==> Some(ring_len(edge)) == edge.uart_ring_len,
        edge.uart_ring_len is None ==> ring_len(edge) == 64,
{
}

/// A fault of a board comes before any fault of an edge, and of several boards
/// or edges with faults the first is reported.
pub proof fn first_fault_is_reported(topo: LogicalTopology, i: int)
    requires
        topo.boards@.len() > 0,
    ensures
        0 <= i < topo.boards@.len() && board_fault(topo.boards@, i) is Some && (forall|j: int|
            0 <= j < i ==> (#[trigger] board_fault(topo.boards@, j)) is None) ==> topology_fault(
            topo,
        ) == board_fault(topo.boards@, i),
        (forall|j: int|
            0 <= j < topo.boards@.len() ==> (#[trigger] board_fault(topo.boards@, j)) is None) && 0
            <= i < topo.edges@.len() && edge_fault(topo.boards@, topo.edges@[i]) is Some && (
        forall|j: int|
            0 <= j < i ==> edge_fault(topo.boards@, #[trigger] topo.edges@[j]) is None)
            ==> topology_fault(topo) == edge_fault(topo.boards@, topo.edges@[i]),
{
    let boards = topo.boards@;
    let edges = topo.edges@;
    let f = board_faults(boards);
    let g = edge_faults(boards, edges);
    lemma_first_some(f, boards.len());
    lemma_first_some(g, edges.len());
    if 0 <= i < boards.len() && board_fault(boards, i) is Some && (forall|j: int|
        0 <= j < i ==> (#[trigger] board_fault(boards, j)) is None) {
        assert(f(i) is Some);
        let k = choose|k: int|
            0 <= k < boards.len() && #[trigger] f(k) == first_some(f, boards.len()) && (forall|j:
                int|
                0 <= j < k ==> (#[trigger] f(j)) is None);
        if i < k {
            assert(f(i) is None);
        } else if k < i {
            assert(board_fault(boards, k) is None);
        }
    }
    if (forall|j: int| 0 <= j < boards.len() ==> (#[trigger] board_fault(boards, j)) is None) {
        assert forall|j: int| 0 <= j < boards.len() implies (#[trigger] f(j)) is None by {
            assert(board_fault(boards, j) is None);
        }
        if 0 <= i < edges.len() && edge_fault(boards, edges[i]) is Some && (forall|j: int|
            0 <= j < i ==> edge_fault(boards, #[trigger] edges[j]) is None) {
            assert(g(i) is Some);
            let k = choose|k: int|
                0 <= k < edges.len() && #[trigger] g(k) == first_some(g, edges.len()) && (forall|j:
                    int|
                    0 <= j < k ==> (#[trigger] g(j)) is None);
            if i < k {
                assert(g(i) is None);
            } else if k < i {
                assert(edge_fault(boards, edges[k]) is None);
            }
        }
    }
}

/// A check succeeds exactly when there is no fault, and otherwise gives its text.
pub proof fn check_tells_the_fault(r: Result<(), TopologyError>, fault: Option<Seq<char>>)
    requires
        reports(r, fault),
    ensures
        r is Ok <==> fault is None,
        fault matches Some(text) ==> (r matches Err(TopologyError::Invalid(message)) && message@
            == text),
{
}

} // verus!
