//! Arbiter decisions: peer table, Ready barrier, Start and virtual-time sync.

use vstd::prelude::*;
use vstd::string::StringExecFns;

use crate::cluster::board_runtime::{no_args, parse_from, BoardAction, BoardLoop, ParsedArgs};
use crate::cluster::control::{ControlMessage, HostStopReason};
use crate::cluster::ipc::hash::{
    board_id_hash, collides, hash_table_of, id_hash, is_hash_table,
};
use crate::cluster::ipc::runtime::root_dir_name;
use crate::cluster::lifecycle::{
    peer_effect_model, NodeState, PeerEffect, PeerEffectModel, PeerState,
};
use crate::cluster::time_sync::{
    after_report, has_report, is_ceiling, TimeCeiling,
};
use crate::cluster::topology::{BoardSpec, LogicalTopology, TopologyError};
use crate::text::{
    among, count_below, dec, first_some, join2, join_path, lemma_count_below, lemma_first_some,
    path_below, path_keeps_its_parts, push_dec, texts_of,
};

verus! {

/// Startup records are published again once this much time has passed.
pub const STARTUP_REPEAT_NS: u128 = 50_000_000;

/// Nanoseconds in a millisecond.
pub const NS_PER_MS: u128 = 1_000_000;

/// Time sync ends once this much time has passed.
pub const SYNC_WINDOW_NS: u128 = 300_000_000;

/// Arbiter failures.
#[derive(Debug)]
pub enum ArbiterError {
    Io(String),
    Topology(TopologyError),
    ReadyTimeout { timeout_ms: u64, missing: String },
    Ipc(String),
    Message(String),
}

impl ArbiterError {
    /// Text of the failure for people.
    pub open spec fn shown(self) -> Seq<char> {
        match self {
            ArbiterError::Io(what) => "I/O error: "@ + what@,
            ArbiterError::Topology(e) => "topology error: "@ + e.shown(),
            ArbiterError::ReadyTimeout { timeout_ms, missing } => "ready barrier timed out after "@
                + dec(timeout_ms as nat) + "ms; missing boards: "@ + missing@,
            ArbiterError::Ipc(what) => "ipc error: "@ + what@,
            ArbiterError::Message(what) => what@,
        }
    }

    /// Text of the failure for people.
    pub fn shown_text(&self) -> (r: String)
        ensures
            r@ == self.shown(),
    {
        match self {
            ArbiterError::Io(what) => join2("I/O error: ", what.as_str()),
            ArbiterError::Topology(e) => join2("topology error: ", e.shown_text().as_str()),
            ArbiterError::ReadyTimeout { timeout_ms, missing } => {
                let mut s = "ready barrier timed out after ".to_owned();
                push_dec(&mut s, *timeout_ms as u128);
                s.append("ms; missing boards: ");
                s.append(missing.as_str());
                s
            },
            ArbiterError::Ipc(what) => join2("ipc error: ", what.as_str()),
            ArbiterError::Message(what) => what.clone(),
        }
    }
}

/// Options of an arbiter run.
#[derive(Clone, Debug)]
pub struct ArbiterOptions {
    pub topology_path: String,
    pub node_bin: String,
    /// Unique key of this cluster instance (isolation and service names).
    pub cluster_key: String,
    /// Absolute root directory of this cluster's services.
    pub iox_root: String,
}

/// Root directory of a cluster below the runtime directory.
pub open spec fn cluster_root(runtime_dir: Seq<char>, cluster_key: Seq<char>) -> Seq<char> {
    path_below(path_below(runtime_dir, "sim-cluster"@), "iox-"@ + cluster_key)
}

/// Absolute root directory of the services of a cluster.
pub fn root_path_for_cluster(runtime_dir: &str, cluster_key: &str) -> (r: String)
    ensures
        r@ == cluster_root(runtime_dir@, cluster_key@),
{
    let base = join_path(runtime_dir, "sim-cluster");
    let name = root_dir_name(cluster_key);
    join_path(base.as_str(), name.as_str())
}

impl ArbiterOptions {
    /// Options for a topology, with the node program beside the arbiter's own
    /// and a root below the runtime directory.
    pub fn from_topology_path(
        topology_path: String,
        exe_dir: Option<String>,
        cluster_key: String,
        runtime_dir: &str,
    ) -> (r: Result<ArbiterOptions, ArbiterError>)
        ensures
            match r {
                Ok(opts) => exe_dir matches Some(dir) && opts.topology_path == topology_path
                    && opts.node_bin@ == path_below(dir@, "cluster-node"@) && opts.cluster_key
                    == cluster_key && opts.iox_root@ == cluster_root(runtime_dir@, cluster_key@),
                Err(e) => exe_dir is None && (e matches ArbiterError::Message(message) && message@
                    == "current_exe has no parent"@),
            },
    {
        match exe_dir {
            None => Err(ArbiterError::Message("current_exe has no parent".to_owned())),
            Some(dir) => {
                let iox_root = root_path_for_cluster(runtime_dir, cluster_key.as_str());
                Ok(
                    ArbiterOptions {
                        topology_path,
                        node_bin: join_path(dir.as_str(), "cluster-node"),
                        cluster_key,
                        iox_root,
                    },
                )
            },
        }
    }

    /// Arguments of the node program for one board.
    pub open spec fn node_arg_texts(self, board_id: Seq<char>) -> Seq<Seq<char>> {
        seq![
            "--board-id"@,
            board_id,
            "--cluster-key"@,
            self.cluster_key@,
            "--iox-root"@,
            self.iox_root@,
            "--topology"@,
            self.topology_path@,
        ]
    }

    /// Arguments of the node program for one board.
    pub fn node_args(&self, board_id: &str) -> (r: Vec<String>)
        ensures
            texts_of(r@) == self.node_arg_texts(board_id@),
    {
        let mut args: Vec<String> = Vec::new();
        args.push("--board-id".to_owned());
        args.push(board_id.to_owned());
        args.push("--cluster-key".to_owned());
        args.push(self.cluster_key.clone());
        args.push("--iox-root".to_owned());
        args.push(self.iox_root.clone());
        args.push("--topology".to_owned());
        args.push(self.topology_path.clone());
        assert(texts_of(args@) == self.node_arg_texts(board_id@));
        args
    }

    /// Whether the node program is there to be spawned.
    pub fn check_node_bin(&self, is_file: bool) -> (r: Result<(), ArbiterError>)
        ensures
            r is Ok <==> is_file,
            r matches Err(e) ==> e matches ArbiterError::Message(message) && message@
                == "cluster-node not found at "@ + self.node_bin@,
    {
        if is_file {
            Ok(())
        } else {
            Err(
                ArbiterError::Message(
                    join2("cluster-node not found at ", self.node_bin.as_str()),
                ),
            )
        }
    }
}

/// A board process understands the arguments that the arbiter spawns it with:
/// it gets its own id and the key, root and topology of the cluster.
pub proof fn spawned_board_parses_its_args(
    opts: ArbiterOptions,
    board_id: Seq<char>,
    prog: Seq<char>,
    args: Seq<String>,
)
    requires
        texts_of(args) == opts.node_arg_texts(board_id),
    ensures
        parse_from(prog, args, 0, no_args()) == (ParsedArgs::Options {
            board_id,
            cluster_key: opts.cluster_key@,
            iox_root: opts.iox_root@,
            topology_path: opts.topology_path@,
        }),
{
    let texts = opts.node_arg_texts(board_id);
    assert(texts_of(args).len() == args.len());
    assert(args.len() == 8);
    assert forall|i: int| 0 <= i < 8 implies (#[trigger] args[i])@ == texts[i] by {
        assert(texts_of(args)[i] == args[i]@);
    }
    reveal_strlit("-h");
    reveal_strlit("--help");
    reveal_strlit("--board-id");
    reveal_strlit("--cluster-key");
    reveal_strlit("--iox-root");
    reveal_strlit("--topology");
    assert("-h"@.len() == 2 && "--help"@.len() == 6);
    assert("--board-id"@.len() == 10 && "--board-id"@[2] == 'b');
    assert("--cluster-key"@.len() == 13);
    assert("--iox-root"@.len() == 10 && "--iox-root"@[2] == 'i');
    assert("--topology"@.len() == 10 && "--topology"@[2] == 't');
    reveal_with_fuel(parse_from, 5);
}

/// The boards of a cluster with their control-plane states, in topology order.
#[derive(Debug)]
pub struct PeerTable {
    pub board_ids: Vec<String>,
    pub hashes: Vec<u64>,
    pub states: Vec<PeerState>,
}

/// `Some(i)` where the `i`-th hash is this one.
pub open spec fn hash_match(hashes: Seq<u64>, hash: u64) -> spec_fn(int) -> Option<int> {
    |i: int|
        if hashes[i] == hash {
            Some(i)
        } else {
            None
        }
}

/// The first peer with this hash.
pub open spec fn peer_index(hashes: Seq<u64>, hash: u64) -> Option<int> {
    first_some(hash_match(hashes, hash), hashes.len())
}

/// States after a message from the peer with this hash. Other peers stay as they are.
pub open spec fn stepped(
    hashes: Seq<u64>,
    states: Seq<PeerState>,
    sender: u64,
    msg: ControlMessage,
) -> Seq<PeerState> {
    Seq::new(
        states.len(),
        |i: int|
            if hashes[i] == sender {
                states[i].next(sender, msg)
            } else {
                states[i]
            },
    )
}

/// States after a message before Start: only Ready is heard.
pub open spec fn after_barrier_message(
    hashes: Seq<u64>,
    states: Seq<PeerState>,
    msg: ControlMessage,
) -> Seq<PeerState> {
    match msg {
        ControlMessage::Ready { board_id_hash } => stepped(hashes, states, board_id_hash, msg),
        _ => states,
    }
}

/// Whether every peer is ready.
pub open spec fn all_ready(states: Seq<PeerState>) -> bool {
    forall|i: int| 0 <= i < states.len() ==> #[trigger] states[i] == PeerState::Ready
}

/// The startup record of the board with this hash.
pub open spec fn startup_record(topo: LogicalTopology, hash: u64) -> ControlMessage {
    ControlMessage::StartupRecord {
        board_id_hash: hash,
        margin_ns: topo.margin_ns,
        headroom_threshold_ns: topo.headroom_threshold_ns,
    }
}

/// The startup records of the first `n` peers that have not answered yet.
pub open spec fn repeated_startups(
    topo: LogicalTopology,
    hashes: Seq<u64>,
    states: Seq<PeerState>,
    n: nat,
) -> Seq<ControlMessage>
    decreases n,
{
    if n == 0 {
        seq![]
    } else {
        let before = repeated_startups(topo, hashes, states, (n - 1) as nat);
        if states[n - 1] == PeerState::AwaitingReady {
            before.push(startup_record(topo, hashes[n - 1]))
        } else {
            before
        }
    }
}

/// Ids of the first `n` boards that are not ready, with a comma between them.
pub open spec fn missing_text(ids: Seq<String>, states: Seq<PeerState>, n: nat) -> Seq<char>
    decreases n,
{
    if n == 0 {
        seq![]
    } else {
        let before = missing_text(ids, states, (n - 1) as nat);
        if states[n - 1] == PeerState::Ready {
            before
        } else if all_ready(states.take(n - 1)) {
            ids[n - 1]@
        } else {
            before + ","@ + ids[n - 1]@
        }
    }
}

/// What a message before Start amounted to.
#[derive(Debug)]
pub enum BarrierNote {
    /// A message that has no place before Start.
    Unexpected,
    /// Ready from a board that is not in the topology.
    UnknownBoard,
    /// The peer at this index was stepped.
    Stepped { peer: usize, effect: Option<PeerEffect> },
}

/// What the arbiter does next while it waits for Ready.
#[derive(Debug)]
pub enum BarrierAction {
    /// Every peer is ready: broadcast Start.
    Complete,
    /// Give up.
    Fail(ArbiterError),
    /// Publish these startup records again and go on receiving.
    Repeat(Vec<ControlMessage>),
    /// Go on receiving.
    Wait,
}

impl PeerTable {
    /// The lists are parallel and no two boards share a hash.
    pub open spec fn wf(self) -> bool {
        &&& self.board_ids@.len() == self.hashes@.len()
        &&& self.states@.len() == self.hashes@.len()
        &&& forall|i: int| 0 <= i < self.hashes@.len() ==> !#[trigger] collides(self.hashes@, i)
    }

    /// A table of these boards with these hashes, none of which is ready, or
    /// the report of two that share a hash.
    pub fn with_hashes(boards: &Vec<BoardSpec>, hashes: Vec<u64>) -> (r: Result<PeerTable, String>)
        requires
            boards@.len() == hashes@.len(),
        ensures
            match r {
                Ok(table) => {
                    &&& table.wf()
                    &&& table.hashes == hashes
                    &&& forall|i: int|
                        0 <= i < boards@.len() ==> (#[trigger] table.board_ids@[i])@
                            == boards@[i].id@
                    &&& forall|i: int|
                        0 <= i < boards@.len() ==> #[trigger] table.states@[i]
                            == PeerState::AwaitingReady
                },
                Err(message) => exists|ids: Seq<&str>| #[trigger]
                    lists_ids(boards@, ids) && is_hash_table(ids, hashes@, Err(message)),
            },
    {
        let mut ids: Vec<&str> = Vec::new();
        let mut board_ids: Vec<String> = Vec::new();
        let mut states: Vec<PeerState> = Vec::new();
        let mut i: usize = 0;
        while i < boards.len()
            invariant
                i <= boards@.len(),
                ids@.len() == i,
                board_ids@.len() == i,
                states@.len() == i,
                forall|k: int| 0 <= k < i ==> (#[trigger] ids@[k])@ == boards@[k].id@,
                forall|k: int| 0 <= k < i ==> (#[trigger] board_ids@[k])@ == boards@[k].id@,
                forall|k: int| 0 <= k < i ==> #[trigger] states@[k] == PeerState::AwaitingReady,
            decreases boards@.len() - i,
        {
            ids.push(boards[i].id.as_str());
            board_ids.push(boards[i].id.clone());
            states.push(PeerState::AwaitingReady);
            i += 1;
        }
        assert(lists_ids(boards@, ids@));
        match hash_table_of(&ids, &hashes) {
            Ok(_) => Ok(PeerTable { board_ids, hashes, states }),
            Err(message) => Err(message),
        }
    }

    /// A table of the boards of a topology, by the hashes of their ids.
    pub fn for_boards(boards: &Vec<BoardSpec>) -> (r: Result<PeerTable, String>)
        ensures
            match r {
                Ok(table) => {
                    &&& table.wf()
                    &&& table.hashes@ == board_hashes(boards@)
                    &&& forall|i: int|
                        0 <= i < boards@.len() ==> (#[trigger] table.board_ids@[i])@
                            == boards@[i].id@
                    &&& forall|i: int|
                        0 <= i < boards@.len() ==> #[trigger] table.states@[i]
                            == PeerState::AwaitingReady
                },
                Err(message) => exists|ids: Seq<&str>| #[trigger]
                    lists_ids(boards@, ids) && is_hash_table(
                        ids,
                        board_hashes(boards@),
                        Err(message),
                    ),
            },
    {
        let mut hashes: Vec<u64> = Vec::new();
        let mut i: usize = 0;
        while i < boards.len()
            invariant
                i <= boards@.len(),
                hashes@ == board_hashes(boards@).take(i as int),
            decreases boards@.len() - i,
        {
            hashes.push(board_id_hash(boards[i].id.as_str()));
            i += 1;
            assert(hashes@ == board_hashes(boards@).take(i as int));
        }
        assert(hashes@ == board_hashes(boards@));
        PeerTable::with_hashes(boards, hashes)
    }

    fn find(&self, hash: u64) -> (r: Option<usize>)
        ensures
            match r {
                Some(i) => i < self.hashes@.len() && peer_index(self.hashes@, hash) == Some(
                    i as int,
                ) && self.hashes@[i as int] == hash,
                None => peer_index(self.hashes@, hash) is None && (forall|k: int|
                    0 <= k < self.hashes@.len() ==> #[trigger] self.hashes@[k] != hash),
            },
    {
        let mut i: usize = 0;
        proof {
            lemma_first_some(hash_match(self.hashes@, hash), self.hashes@.len());
        }
        while i < self.hashes.len()
            invariant
                i <= self.hashes@.len(),
                forall|k: int| 0 <= k < i ==> #[trigger] self.hashes@[k] != hash,
            decreases self.hashes@.len() - i,
        {
            if self.hashes[i] == hash {
                proof {
                    let f = hash_match(self.hashes@, hash);
                    lemma_first_some(f, self.hashes@.len());
                    assert(f(i as int) == Some(i as int));
                    assert forall|k: int| 0 <= k < i implies (#[trigger] f(k)) is None by {
                        assert(self.hashes@[k] != hash);
                    }
                }
                return Some(i);
            }
            i += 1;
        }
        proof {
            let f = hash_match(self.hashes@, hash);
            assert forall|k: int| 0 <= k < self.hashes@.len() implies (#[trigger] f(k)) is None by {
                assert(self.hashes@[k] != hash);
            }
        }
        None
    }

    /// Step the peer at this index, which the message came from.
    fn step(&mut self, i: usize, msg: ControlMessage) -> (r: Option<PeerEffect>)
        requires
            old(self).wf(),
            i < old(self).hashes@.len(),
        ensures
            final(self).wf(),
            final(self).board_ids == old(self).board_ids,
            final(self).hashes == old(self).hashes,
            final(self).states@ == stepped(
                old(self).hashes@,
                old(self).states@,
                old(self).hashes@[i as int],
                msg,
            ),
            peer_effect_model(r) == old(self).states@[i as int].effect(
                old(self).hashes@[i as int],
                msg,
            ),
    {
        let (next, effect) = self.states[i].on_message(self.hashes[i], msg);
        self.states.set(i, next);
        proof {
            let hashes = self.hashes@;
            assert forall|k: int| 0 <= k < hashes.len() && k != i implies #[trigger] hashes[k]
                != hashes[i as int] by {
                if hashes[k] == hashes[i as int] {
                    if k < i {
                        assert(collides(hashes, i as int));
                    } else {
                        assert(hashes[i as int] == hashes[k]);
                        assert(collides(hashes, k));
                    }
                }
            }
            assert(self.states@ == stepped(
                old(self).hashes@,
                old(self).states@,
                hashes[i as int],
                msg,
            ));
        }
        effect
    }

    /// The startup record of every board.
    pub fn startups(&self, topo: &LogicalTopology) -> (r: Vec<ControlMessage>)
        ensures
            r@.len() == self.hashes@.len(),
            forall|i: int|
                0 <= i < r@.len() ==> #[trigger] r@[i] == startup_record(*topo, self.hashes@[i]),
    {
        let mut out: Vec<ControlMessage> = Vec::new();
        let mut i: usize = 0;
        while i < self.hashes.len()
            invariant
                i <= self.hashes@.len(),
                out@.len() == i,
                forall|k: int|
                    0 <= k < i ==> #[trigger] out@[k] == startup_record(*topo, self.hashes@[k]),
            decreases self.hashes@.len() - i,
        {
            out.push(
                ControlMessage::StartupRecord {
                    board_id_hash: self.hashes[i],
                    margin_ns: topo.margin_ns,
                    headroom_threshold_ns: topo.headroom_threshold_ns,
                },
            );
            i += 1;
        }
        out
    }

    /// Apply one message that came before Start.
    pub fn on_barrier_message(&mut self, msg: ControlMessage) -> (r: BarrierNote)
        requires
            old(self).wf(),
        ensures
            final(self).wf(),
            final(self).board_ids == old(self).board_ids,
            final(self).hashes == old(self).hashes,
            final(self).states@ == after_barrier_message(
                old(self).hashes@,
                old(self).states@,
                msg,
            ),
            match msg {
                ControlMessage::Ready { board_id_hash } => match peer_index(
                    old(self).hashes@,
                    board_id_hash,
                ) {
                    Some(i) => r matches BarrierNote::Stepped { peer, effect } && peer == i
                        && peer_effect_model(effect) == old(self).states@[i].effect(
                        board_id_hash,
                        msg,
                    ),
                    None => r is UnknownBoard,
                },
                _ => r is Unexpected,
            },
    {
        match msg {
            ControlMessage::Ready { board_id_hash } => match self.find(board_id_hash) {
                Some(i) => {
                    let effect = self.step(i, msg);
                    BarrierNote::Stepped { peer: i, effect }
                },
                None => {
                    assert(self.states@ == stepped(
                        self.hashes@,
                        self.states@,
                        board_id_hash,
                        msg,
                    ));
                    BarrierNote::UnknownBoard
                },
            },
            _ => BarrierNote::Unexpected,
        }
    }

    /// Whether every peer is ready.
    pub fn complete(&self) -> (r: bool)
        ensures
            r == all_ready(self.states@),
    {
        let mut i: usize = 0;
        while i < self.states.len()
            invariant
                i <= self.states@.len(),
                forall|k: int| 0 <= k < i ==> #[trigger] self.states@[k] == PeerState::Ready,
            decreases self.states@.len() - i,
        {
            if self.states[i] != PeerState::Ready {
                return false;
            }
            i += 1;
        }
        true
    }

    fn repeats(&self, topo: &LogicalTopology) -> (r: Vec<ControlMessage>)
        requires
            self.wf(),
        ensures
            r@ == repeated_startups(*topo, self.hashes@, self.states@, self.hashes@.len()),
    {
        let mut out: Vec<ControlMessage> = Vec::new();
        let mut i: usize = 0;
        while i < self.hashes.len()
            invariant
                self.wf(),
                i <= self.hashes@.len(),
                out@ == repeated_startups(*topo, self.hashes@, self.states@, i as nat),
            decreases self.hashes@.len() - i,
        {
            if self.states[i] == PeerState::AwaitingReady {
                out.push(
                    ControlMessage::StartupRecord {
                        board_id_hash: self.hashes[i],
                        margin_ns: topo.margin_ns,
                        headroom_threshold_ns: topo.headroom_threshold_ns,
                    },
                );
            }
            i += 1;
        }
        out
    }

    /// Ids of the boards that are not ready, with a comma between them.
    pub fn missing(&self) -> (r: String)
        requires
            self.wf(),
        ensures
            r@ == missing_text(self.board_ids@, self.states@, self.states@.len()),
    {
        let mut out = String::new();
        let mut none_yet = true;
        let mut i: usize = 0;
        while i < self.states.len()
            invariant
                self.wf(),
                i <= self.states@.len(),
                out@ == missing_text(self.board_ids@, self.states@, i as nat),
                none_yet == all_ready(self.states@.take(i as int)),
                none_yet ==> out@.len() == 0,
            decreases self.states@.len() - i,
        {
            let ghost before = self.states@.take(i as int);
            let ghost after = self.states@.take(i + 1);
            assert(after == before.push(self.states@[i as int]));
            if self.states[i] != PeerState::Ready {
                if !none_yet {
                    out.append(",");
                }
                out.append(self.board_ids[i].as_str());
                none_yet = false;
                proof {
                    assert(after[i as int] == self.states@[i as int]);
                    assert(out@ == missing_text(self.board_ids@, self.states@, (i + 1) as nat));
                }
            } else {
                proof {
                    if !none_yet {
                        let k = choose|k: int|
                            0 <= k < before.len() && #[trigger] before[k] != PeerState::Ready;
                        assert(after[k] == before[k]);
                    }
                }
            }
            i += 1;
        }
        out
    }

    /// Decide the next step of the Ready barrier from the time since it began
    /// and the time since startup records were last published.
    pub fn barrier_action(
        &self,
        topo: &LogicalTopology,
        elapsed_ns: u128,
        since_startup_ns: u128,
    ) -> (r: BarrierAction)
        requires
            self.wf(),
        ensures
            r is Complete <==> all_ready(self.states@),
            r is Fail <==> !all_ready(self.states@) && elapsed_ns >= topo.ready_timeout_ms
                * 1_000_000,
            r is Repeat <==> !all_ready(self.states@) && elapsed_ns < topo.ready_timeout_ms
                * 1_000_000 && since_startup_ns > 50_000_000,
            r matches BarrierAction::Fail(e) ==> e matches ArbiterError::ReadyTimeout {
                timeout_ms,
                missing,
            } && timeout_ms == topo.ready_timeout_ms && missing@ == missing_text(
                self.board_ids@,
                self.states@,
                self.states@.len(),
            ),
            r matches BarrierAction::Repeat(msgs) ==> msgs@ == repeated_startups(
                *topo,
                self.hashes@,
                self.states@,
                self.hashes@.len(),
            ),
    {
        if self.complete() {
            return BarrierAction::Complete;
        }
        assert(topo.ready_timeout_ms * NS_PER_MS <= u128::MAX) by (nonlinear_arith)
            requires
                topo.ready_timeout_ms <= u64::MAX,
        ;
        if elapsed_ns >= topo.ready_timeout_ms as u128 * NS_PER_MS {
            return BarrierAction::Fail(
                ArbiterError::ReadyTimeout {
                    timeout_ms: topo.ready_timeout_ms,
                    missing: self.missing(),
                },
            );
        }
        if since_startup_ns > STARTUP_REPEAT_NS {
            BarrierAction::Repeat(self.repeats(topo))
        } else {
            BarrierAction::Wait
        }
    }

    /// Mark the peers as started after Start was broadcast.
    pub fn start(&mut self)
        requires
            old(self).wf(),
        ensures
            final(self).wf(),
            final(self).board_ids == old(self).board_ids,
            final(self).hashes == old(self).hashes,
            final(self).states@ == old(self).states@.map_values(|s: PeerState| s.started()),
    {
        let ghost before = self.states@;
        let ghost ids = self.board_ids;
        let ghost hashes = self.hashes;
        let mut i: usize = 0;
        while i < self.states.len()
            invariant
                self.wf(),
                self.board_ids == ids,
                self.hashes == hashes,
                self.states@.len() == before.len(),
                i <= before.len(),
                forall|k: int| 0 <= k < i ==> #[trigger] self.states@[k] == before[k].started(),
                forall|k: int| i <= k < before.len() ==> #[trigger] self.states@[k] == before[k],
            decreases before.len() - i,
        {
            let next = self.states[i].on_start_broadcast();
            self.states.set(i, next);
            i += 1;
        }
        assert(self.states@ == before.map_values(|s: PeerState| s.started()));
    }

    /// Mark every peer as stopped after a cluster stop was broadcast.
    pub fn stop_all(&mut self)
        requires
            old(self).wf(),
        ensures
            final(self).wf(),
            final(self).board_ids == old(self).board_ids,
            final(self).hashes == old(self).hashes,
            forall|i: int|
                0 <= i < final(self).states@.len() ==> #[trigger] final(self).states@[i]
                    == PeerState::Stopped,
    {
        let ghost ids = self.board_ids;
        let ghost hashes = self.hashes;
        let mut i: usize = 0;
        while i < self.states.len()
            invariant
                self.wf(),
                self.board_ids == ids,
                self.hashes == hashes,
                i <= self.states@.len(),
                forall|k: int| 0 <= k < i ==> #[trigger] self.states@[k] == PeerState::Stopped,
            decreases self.states@.len() - i,
        {
            self.states.set(i, PeerState::Stopped);
            i += 1;
        }
    }
}

/// `ids` are the ids of these boards.
pub open spec fn lists_ids(boards: Seq<BoardSpec>, ids: Seq<&str>) -> bool {
    &&& ids.len() == boards.len()
    &&& forall|i: int| 0 <= i < ids.len() ==> (#[trigger] ids[i])@ == boards[i].id@
}

/// Hashes of the ids of these boards.
pub open spec fn board_hashes(boards: Seq<BoardSpec>) -> Seq<u64> {
    boards.map_values(|b: BoardSpec| id_hash(b.id@))
}

/// What a message in time sync amounted to.
#[derive(Debug)]
pub enum SyncNote {
    /// A message that has no place in time sync.
    Unexpected,
    /// A message from a board that is not in the topology.
    UnknownBoard,
    /// The peer at this index was stepped.
    Stepped { peer: usize, effect: Option<PeerEffect> },
}

/// What the arbiter does once it has received all pending messages.
#[derive(Clone, Copy, Debug, PartialEq, Eq, Structural)]
pub enum SyncAction {
    /// Nothing new.
    Idle,
    /// Publish a new ceiling.
    Publish(ControlMessage),
    /// Publish a cluster stop and leave time sync. `source` is the hash of the
    /// board that asked for it.
    Stop { source: u64, message: ControlMessage },
}

/// The board that a message to the arbiter names, where it has a place in time sync.
pub open spec fn sync_sender(msg: ControlMessage) -> Option<u64> {
    match msg {
        ControlMessage::TimeReport { board_id_hash, .. } | ControlMessage::HostStop {
            board_id_hash,
            ..
        } | ControlMessage::Ready { board_id_hash } => Some(board_id_hash),
        _ => None,
    }
}

/// State of the virtual-time sync of a started cluster.
#[derive(Debug)]
pub struct TimeSync {
    pub peers: PeerTable,
    pub ceiling: TimeCeiling,
    /// The ceiling that was published last.
    pub allowed_ns: u64,
    /// A report has come in since the last decision.
    pub changed: bool,
    /// The last host stop since the last decision.
    pub stop: Option<(u64, HostStopReason)>,
}

impl TimeSync {
    /// Peers and reports are in order, and unless a report has come in since,
    /// the published ceiling is that of the reports.
    pub open spec fn wf(self) -> bool {
        &&& self.peers.wf()
        &&& self.ceiling.wf()
        &&& !self.changed ==> is_ceiling(
            self.ceiling.reports@,
            self.ceiling.margin_ns,
            self.allowed_ns,
        )
    }

    /// Begin time sync over the peers, none of which has advanced.
    pub fn new(peers: PeerTable, margin_ns: u64) -> (r: TimeSync)
        requires
            peers.wf(),
        ensures
            r.wf(),
            r.peers == peers,
            r.ceiling.margin_ns == margin_ns,
            !r.changed,
            r.stop is None,
            forall|i: int|
                0 <= i < r.ceiling.reports@.len() ==> (
                #[trigger] r.ceiling.reports@[i]).virtual_time_ns == 0 && among(
                    peers.board_ids@,
                    r.ceiling.reports@[i].board_id@,
                ),
            forall|k: int|
                0 <= k < peers.board_ids@.len() ==> has_report(
                    r.ceiling.reports@,
                    (#[trigger] peers.board_ids@[k])@,
                ),
            r.allowed_ns == margin_ns,
    {
        let mut ids: Vec<String> = Vec::new();
        let mut i: usize = 0;
        while i < peers.board_ids.len()
            invariant
                i <= peers.board_ids@.len(),
                ids@.len() == i,
                forall|k: int| 0 <= k < i ==> #[trigger] ids@[k] == peers.board_ids@[k],
            decreases peers.board_ids@.len() - i,
        {
            ids.push(peers.board_ids[i].clone());
            i += 1;
        }
        assert(ids@ == peers.board_ids@);
        let ceiling = TimeCeiling::new(ids, margin_ns);
        let allowed_ns = ceiling.allowed_ns();
        TimeSync { peers, ceiling, allowed_ns, changed: false, stop: None }
    }

    /// Whether time sync has ended, this long after it began: its window has
    /// passed, or a cluster stop was asked for.
    pub fn is_over(&self, elapsed_ns: u128) -> (r: bool)
        ensures
            r == (elapsed_ns >= 300_000_000 || self.stop is Some),
    {
        elapsed_ns >= SYNC_WINDOW_NS || self.stop.is_some()
    }

    /// Apply one message that came in time sync.
    pub fn on_message(&mut self, msg: ControlMessage) -> (r: SyncNote)
        requires
            old(self).wf(),
        ensures
            final(self).wf(),
            final(self).peers.board_ids == old(self).peers.board_ids,
            final(self).peers.hashes == old(self).peers.hashes,
            final(self).ceiling.margin_ns == old(self).ceiling.margin_ns,
            final(self).allowed_ns == old(self).allowed_ns,
            final(self).peers.states@ == match sync_sender(msg) {
                Some(sender) => stepped(
                    old(self).peers.hashes@,
                    old(self).peers.states@,
                    sender,
                    msg,
                ),
                None => old(self).peers.states@,
            },
            final(self).ceiling.reports@ == match old(self).effect_of(msg) {
                Some((i, Some(PeerEffectModel::TimeReport { virtual_time_ns, .. }))) =>
                    after_report(
                    old(self).ceiling.reports@,
                    old(self).peers.board_ids@[i]@,
                    virtual_time_ns,
                ),
                _ => old(self).ceiling.reports@,
            },
            final(self).changed == (old(self).changed || (old(self).effect_of(msg) matches Some((
                _,
                Some(PeerEffectModel::TimeReport { .. }),
            )))),
            final(self).stop == match old(self).effect_of(msg) {
                Some((_, Some(PeerEffectModel::HostStop { board_id_hash, reason }))) => Some(
                    (board_id_hash, reason),
                ),
                _ => old(self).stop,
            },
            match sync_sender(msg) {
                None => r is Unexpected,
                Some(_) => match old(self).effect_of(msg) {
                    None => r is UnknownBoard,
                    Some((i, model)) => r matches SyncNote::Stepped { peer, effect } && peer == i
                        && peer_effect_model(effect) == model,
                },
            },
    {
        let sender = match msg {
            ControlMessage::TimeReport { board_id_hash, .. } => board_id_hash,
            ControlMessage::HostStop { board_id_hash, .. } => board_id_hash,
            ControlMessage::Ready { board_id_hash } => board_id_hash,
            _ => {
                return SyncNote::Unexpected;
            },
        };
        let i = match self.peers.find(sender) {
            Some(i) => i,
            None => {
                assert(self.peers.states@ == stepped(
                    self.peers.hashes@,
                    self.peers.states@,
                    sender,
                    msg,
                ));
                return SyncNote::UnknownBoard;
            },
        };
        let effect = self.peers.step(i, msg);
        match &effect {
            Some(PeerEffect::TimeReport { virtual_time_ns, .. }) => {
                self.ceiling.report(self.peers.board_ids[i].as_str(), *virtual_time_ns);
                self.changed = true;
            },
            Some(PeerEffect::HostStop { board_id_hash, reason }) => {
                self.stop = Some((*board_id_hash, *reason));
            },
            _ => {},
        }
        SyncNote::Stepped { peer: i, effect }
    }

    /// The peer that a message steps, with the effect of the step.
    pub open spec fn effect_of(self, msg: ControlMessage) -> Option<
        (int, Option<PeerEffectModel>),
    > {
        match sync_sender(msg) {
            None => None,
            Some(sender) => match peer_index(self.peers.hashes@, sender) {
                None => None,
                Some(i) => Some((i, self.peers.states@[i].effect(sender, msg))),
            },
        }
    }

    /// Decide what to publish once all pending messages were applied: a host
    /// stop goes before a new ceiling, and an unchanged ceiling is not repeated.
    pub fn end_batch(&mut self) -> (r: SyncAction)
        requires
            old(self).wf(),
        ensures
            final(self).wf(),
            final(self).peers.board_ids == old(self).peers.board_ids,
            final(self).peers.hashes == old(self).peers.hashes,
            final(self).ceiling == old(self).ceiling,
            match old(self).stop {
                Some((source, reason)) => {
                    &&& r == (SyncAction::Stop {
                        source,
                        message: ControlMessage::ClusterStop { reason },
                    })
                    &&& final(self).allowed_ns == old(self).allowed_ns
                    &&& final(self).changed == old(self).changed
                    &&& final(self).stop == old(self).stop
                    &&& forall|i: int|
                        0 <= i < final(self).peers.states@.len() ==> (
                        #[trigger] final(self).peers.states@[i]) == PeerState::Stopped
                },
                None => {
                    &&& !final(self).changed
                    &&& final(self).stop is None
                    &&& final(self).peers == old(self).peers
                    &&& is_ceiling(
                        old(self).ceiling.reports@,
                        old(self).ceiling.margin_ns,
                        final(self).allowed_ns,
                    )
                    &&& r == if final(self).allowed_ns == old(self).allowed_ns {
                        SyncAction::Idle
                    } else {
                        SyncAction::Publish(
                            ControlMessage::Allowed { allowed_ns: final(self).allowed_ns },
                        )
                    }
                },
            },
    {
        if let Some((source, reason)) = self.stop {
            self.peers.stop_all();
            return SyncAction::Stop { source, message: ControlMessage::ClusterStop { reason } };
        }
        if self.changed {
            let next = self.ceiling.allowed_ns();
            self.changed = false;
            if next != self.allowed_ns {
                self.allowed_ns = next;
                return SyncAction::Publish(ControlMessage::Allowed { allowed_ns: next });
            }
        }
        SyncAction::Idle
    }
}

/// States after these messages came before Start.
pub open spec fn barrier_run(
    hashes: Seq<u64>,
    states: Seq<PeerState>,
    msgs: Seq<ControlMessage>,
) -> Seq<PeerState>
    decreases msgs.len(),
{
    if msgs.len() == 0 {
        states
    } else {
        after_barrier_message(hashes, barrier_run(hashes, states, msgs.drop_last()), msgs.last())
    }
}

/// Ready from the board with this hash is among these messages.
pub open spec fn heard_ready(msgs: Seq<ControlMessage>, hash: u64) -> bool {
    exists|k: int|
        0 <= k < msgs.len() && #[trigger] msgs[k] == (ControlMessage::Ready { board_id_hash: hash })
}

/// Each peer is ready exactly when its board has sent Ready, however often and
/// whatever else was sent, and until then it awaits Ready.
pub proof fn barrier_waits_for_every_board(
    hashes: Seq<u64>,
    states: Seq<PeerState>,
    msgs: Seq<ControlMessage>,
    i: int,
)
    requires
        hashes.len() == states.len(),
        0 <= i < states.len(),
        states[i] == PeerState::AwaitingReady,
    ensures
        barrier_run(hashes, states, msgs).len() == states.len(),
        barrier_run(hashes, states, msgs)[i] == if heard_ready(msgs, hashes[i]) {
            PeerState::Ready
        } else {
            PeerState::AwaitingReady
        },
    decreases msgs.len(),
{
    if msgs.len() > 0 {
        let before = msgs.drop_last();
        barrier_waits_for_every_board(hashes, states, before, i);
        let ready = ControlMessage::Ready { board_id_hash: hashes[i] };
        if heard_ready(before, hashes[i]) {
            let k = choose|k: int| 0 <= k < before.len() && #[trigger] before[k] == ready;
            assert(msgs[k] == ready);
        }
        if msgs.last() == ready {
            assert(msgs[msgs.len() - 1] == ready);
        } else if heard_ready(msgs, hashes[i]) {
            let k = choose|k: int| 0 <= k < msgs.len() && #[trigger] msgs[k] == ready;
            assert(before[k] == ready);
        }
    }
}

/// Once the barrier is complete, Start brings every peer into Running.
pub proof fn start_runs_every_peer(states: Seq<PeerState>, i: int)
    requires
        all_ready(states),
        0 <= i < states.len(),
    ensures
        states.map_values(|s: PeerState| s.started())[i] == PeerState::Running,
{
    assert(states[i] == PeerState::Ready);
}

/// A host stop reaches the arbiter only from a running peer, which is stopped by it.
pub proof fn host_stop_needs_running_peer(sync: TimeSync, msg: ControlMessage, i: int)
    requires
        sync.wf(),
        sync.effect_of(msg) matches Some((k, Some(PeerEffectModel::HostStop { .. }))) && k == i,
    ensures
        0 <= i < sync.peers.states@.len(),
        sync.peers.states@[i] == PeerState::Running,
        sync_sender(msg) is Some,
        stepped(sync.peers.hashes@, sync.peers.states@, sync_sender(msg)->0, msg)[i]
            == PeerState::Stopped,
{
    let hashes = sync.peers.hashes@;
    let sender = sync_sender(msg)->0;
    lemma_first_some(hash_match(hashes, sender), hashes.len());
}

/// The handshake brings both sides into Running: a waiting board answers its
/// startup record with Ready and takes over the headroom threshold, that Ready
/// is what its peer waits for, and Start lets both run.
pub proof fn handshake_reaches_running(
    topo: LogicalTopology,
    board: BoardLoop,
    hashes: Seq<u64>,
    states: Seq<PeerState>,
    i: int,
)
    requires
        hashes.len() == states.len(),
        0 <= i < states.len(),
        hashes[i] == board.board_hash,
        board.state == NodeState::AwaitingStartup,
        states[i] == PeerState::AwaitingReady,
    ensures
        ({
            let startup = startup_record(topo, hashes[i]);
            let ready = ControlMessage::Ready { board_id_hash: board.board_hash };
            let attached = board.after_control(startup);
            let heard = after_barrier_message(hashes, states, ready)[i];
            &&& board.carries_out(
                Some(BoardAction::Publish(ready)),
                board.state.effect(board.board_hash, startup),
            )
            &&& attached.headroom_threshold_ns == topo.headroom_threshold_ns
            &&& heard == PeerState::Ready
            &&& attached.after_control(ControlMessage::Start).state == NodeState::Running
            &&& heard.started() == PeerState::Running
        }),
{
}

proof fn lemma_peer_index(table: PeerTable, i: int)
    requires
        table.wf(),
        0 <= i < table.hashes@.len(),
    ensures
        peer_index(table.hashes@, table.hashes@[i]) == Some(i),
{
    let hashes = table.hashes@;
    let f = hash_match(hashes, hashes[i]);
    lemma_first_some(f, hashes.len());
    assert(f(i) == Some(i));
    assert forall|k: int| 0 <= k < hashes.len() && k != i implies (#[trigger] f(k)) is None by {
        if hashes[k] == hashes[i] {
            if k < i {
                assert(collides(hashes, i));
            } else {
                assert(hashes[i] == hashes[k]);
                assert(collides(hashes, k));
            }
        }
    }
}

/// A report of a running board reaches the ceiling: it replaces what that
/// board has reported before.
pub proof fn report_of_running_board_counts(sync: TimeSync, i: int, virtual_time_ns: u64)
    requires
        sync.wf(),
        0 <= i < sync.peers.hashes@.len(),
        sync.peers.states@[i] == PeerState::Running,
    ensures
        ({
            let board_id_hash = sync.peers.hashes@[i];
            let msg = ControlMessage::TimeReport { board_id_hash, virtual_time_ns };
            sync.effect_of(msg) == Some(
                (i, Some(PeerEffectModel::TimeReport { board_id_hash, virtual_time_ns })),
            )
        }),
{
    lemma_peer_index(sync.peers, i);
}

/// A host stop of a running board is taken up by the arbiter, and the cluster
/// stop that it broadcasts stops every board that has not stopped yet.
pub proof fn host_stop_reaches_every_board(
    sync: TimeSync,
    i: int,
    reason: HostStopReason,
    board: BoardLoop,
)
    requires
        sync.wf(),
        0 <= i < sync.peers.hashes@.len(),
        sync.peers.states@[i] == PeerState::Running,
    ensures
        ({
            let board_id_hash = sync.peers.hashes@[i];
            let msg = ControlMessage::HostStop { board_id_hash, reason };
            sync.effect_of(msg) == Some(
                (i, Some(PeerEffectModel::HostStop { board_id_hash, reason })),
            )
        }),
        board.after_control(ControlMessage::ClusterStop { reason }).state == NodeState::Stopped,
{
    lemma_peer_index(sync.peers, i);
}

/// The peer of a hash is the first one that has it; there is none where no
/// peer has it.
pub proof fn peer_is_found_by_hash(hashes: Seq<u64>, hash: u64)
    ensures
        match peer_index(hashes, hash) {
            Some(i) => 0 <= i < hashes.len() && hashes[i] == hash && forall|j: int|
                0 <= j < i ==> #[trigger] hashes[j] != hash,
            None => forall|j: int| 0 <= j < hashes.len() ==> #[trigger] hashes[j] != hash,
        },
{
    let f = hash_match(hashes, hash);
    lemma_first_some(f, hashes.len());
    match peer_index(hashes, hash) {
        Some(i) => {
            let k = choose|k: int|
                0 <= k < hashes.len() && #[trigger] f(k) == first_some(f, hashes.len()) && (forall|j:
                    int|
                    0 <= j < k ==> (#[trigger] f(j)) is None);
            assert(k == i);
            assert forall|j: int| 0 <= j < i implies #[trigger] hashes[j] != hash by {
                assert(f(j) is None);
            }
        },
        None => {
            assert forall|j: int| 0 <= j < hashes.len() implies #[trigger] hashes[j] != hash by {
                assert(f(j) is None);
            }
        },
    }
}

/// A message changes no peer but the one that it names, and before Start no
/// message but Ready changes any.
pub proof fn message_steps_its_sender_alone(
    hashes: Seq<u64>,
    states: Seq<PeerState>,
    sender: u64,
    msg: ControlMessage,
    i: int,
)
    requires
        hashes.len() == states.len(),
        0 <= i < states.len(),
    ensures
        stepped(hashes, states, sender, msg).len() == states.len(),
        hashes[i] != sender ==> stepped(hashes, states, sender, msg)[i] == states[i],
        hashes[i] == sender ==> stepped(hashes, states, sender, msg)[i] == states[i].next(
            hashes[i],
            msg,
        ),
        after_barrier_message(hashes, states, msg)[i] != states[i] ==> msg == (
        ControlMessage::Ready { board_id_hash: hashes[i] }) && states[i]
            == PeerState::AwaitingReady && after_barrier_message(hashes, states, msg)[i]
            == PeerState::Ready,
{
}

/// A startup record names its board and carries the margin and the headroom
/// threshold of the topology.
pub proof fn startup_record_carries_topology(topo: LogicalTopology, hash: u64)
    ensures
        startup_record(topo, hash) is StartupRecord,
        startup_record(topo, hash)->StartupRecord_board_id_hash == hash,
        startup_record(topo, hash)->margin_ns == topo.margin_ns,
        startup_record(topo, hash)->headroom_threshold_ns == topo.headroom_threshold_ns,
{
}

/// Peers that have not answered, by position.
pub open spec fn awaits(states: Seq<PeerState>) -> spec_fn(int) -> bool {
    |i: int| states[i] == PeerState::AwaitingReady
}

/// Startup records go again to each peer that has not answered, in order, and
/// to no other.
pub proof fn unanswered_startups_are_repeated(
    topo: LogicalTopology,
    hashes: Seq<u64>,
    states: Seq<PeerState>,
    n: nat,
    i: nat,
)
    ensures
        ({
            let msgs = repeated_startups(topo, hashes, states, n);
            let p = awaits(states);
            &&& msgs.len() == count_below(p, n)
            &&& i < n && states[i as int] == PeerState::AwaitingReady ==> msgs[count_below(
                p,
                i,
            ) as int] == (ControlMessage::StartupRecord {
                board_id_hash: hashes[i as int],
                margin_ns: topo.margin_ns,
                headroom_threshold_ns: topo.headroom_threshold_ns,
            })
        }),
    decreases n,
{
    if n > 0 {
        let m = (n - 1) as nat;
        let p = awaits(states);
        unanswered_startups_are_repeated(topo, hashes, states, m, i);
        assert(p(m as int) == (states[m as int] == PeerState::AwaitingReady));
        if i < m {
            assert(p(i as int) == (states[i as int] == PeerState::AwaitingReady));
            lemma_count_below(p, i, m);
        }
    }
}

/// Texts with a comma between them.
pub open spec fn joined(texts: Seq<Seq<char>>) -> Seq<char>
    decreases texts.len(),
{
    if texts.len() == 0 {
        seq![]
    } else if texts.len() == 1 {
        texts[0]
    } else {
        joined(texts.drop_last()) + seq![','] + texts.last()
    }
}

/// Ids of the boards among the first `n` that are not ready, in order.
pub open spec fn unready_ids(ids: Seq<String>, states: Seq<PeerState>, n: nat) -> Seq<Seq<char>>
    decreases n,
{
    if n == 0 {
        seq![]
    } else if states[n - 1] != PeerState::Ready {
        unready_ids(ids, states, (n - 1) as nat).push(ids[n - 1]@)
    } else {
        unready_ids(ids, states, (n - 1) as nat)
    }
}

/// A timeout names the boards that are not ready, in order, with a comma
/// between them.
pub proof fn timeout_names_missing_boards(ids: Seq<String>, states: Seq<PeerState>, n: nat)
    requires
        n <= states.len(),
    ensures
        missing_text(ids, states, n) == joined(unready_ids(ids, states, n)),
        unready_ids(ids, states, n).len() == 0 <==> all_ready(states.take(n as int)),
    decreases n,
{
    if n > 0 {
        let m = (n - 1) as nat;
        timeout_names_missing_boards(ids, states, m);
        let before = unready_ids(ids, states, m);
        let front = states.take(m as int);
        let all = states.take(n as int);
        reveal_strlit(",");
        assert(","@ =~= seq![',']);
        assert(all =~= front.push(states[m as int]));
        if states[m as int] == PeerState::Ready {
            if all_ready(front) {
                assert forall|i: int| 0 <= i < all.len() implies #[trigger] all[i]
                    == PeerState::Ready by {
                    if i < m {
                        assert(front[i] == PeerState::Ready);
                    }
                }
            } else {
                let k = choose|k: int|
                    0 <= k < front.len() && #[trigger] front[k] != PeerState::Ready;
                assert(all[k] == front[k]);
            }
        } else {
            assert(all[m as int] != PeerState::Ready);
            assert(before.push(ids[m as int]@).drop_last() =~= before);
            if before.len() == 0 {
                assert(before =~= seq![]);
            }
        }
    }
}

/// Time reports, host stops and Ready have a place in time sync, under the
/// hash that they carry; nothing else has.
pub proof fn board_messages_have_a_sender(msg: ControlMessage, hash: u64)
    ensures
        sync_sender(msg) == Some(hash) <==> msg is TimeReport && msg->TimeReport_board_id_hash
            == hash || msg is HostStop && msg->HostStop_board_id_hash == hash || msg is Ready
            && msg->Ready_board_id_hash == hash,
{
}

/// Clusters with different keys have different roots below a runtime directory.
pub proof fn clusters_have_their_own_root(runtime_dir: Seq<char>, a: Seq<char>, b: Seq<char>)
    ensures
        cluster_root(runtime_dir, a) == cluster_root(runtime_dir, b) <==> a == b,
        cluster_root(runtime_dir, a).skip(cluster_root(runtime_dir, a).len() - a.len()) == a,
        cluster_root(runtime_dir, a).take(runtime_dir.len() as int) == runtime_dir,
{
    reveal_strlit("iox-");
    reveal_strlit("sim-cluster");
    let base = path_below(runtime_dir, "sim-cluster"@);
    path_keeps_its_parts(runtime_dir, "sim-cluster"@);
    path_keeps_its_parts(base, "iox-"@ + a);
    path_keeps_its_parts(base, "iox-"@ + b);
    let x = cluster_root(runtime_dir, a);
    let y = cluster_root(runtime_dir, b);
    assert(("iox-"@ + a).skip(4) =~= a);
    assert(("iox-"@ + b).skip(4) =~= b);
    assert(x.skip(x.len() - a.len()) =~= x.skip(x.len() - ("iox-"@ + a).len()).skip(4));
    assert(y.skip(y.len() - b.len()) =~= y.skip(y.len() - ("iox-"@ + b).len()).skip(4));
    assert(x.take(runtime_dir.len() as int) =~= x.take(base.len() as int).take(
        runtime_dir.len() as int,
    ));
}

/// The hash by which a board is known is that of its own id.
pub proof fn boards_are_known_by_their_ids(boards: Seq<BoardSpec>, i: int)
    requires
        0 <= i < boards.len(),
    ensures
        board_hashes(boards).len() == boards.len(),
        board_hashes(boards)[i] == id_hash(boards[i].id@),
{
}

/// A time report counts only from a running peer under its own hash, with the
/// time that it carries, and a host stop with the reason that it carries.
pub proof fn only_running_peers_count(sync: TimeSync, msg: ControlMessage)
    requires
        sync.wf(),
    ensures
        match sync.effect_of(msg) {
            Some((i, Some(PeerEffectModel::TimeReport { board_id_hash, virtual_time_ns }))) => {
                &&& 0 <= i < sync.peers.hashes@.len()
                &&& sync.peers.hashes@[i] == board_id_hash
                &&& sync.peers.states@[i] == PeerState::Running
                &&& msg == (ControlMessage::TimeReport { board_id_hash, virtual_time_ns })
            },
            Some((i, Some(PeerEffectModel::HostStop { board_id_hash, reason }))) => {
                &&& 0 <= i < sync.peers.hashes@.len()
                &&& sync.peers.hashes@[i] == board_id_hash
                &&& sync.peers.states@[i] == PeerState::Running
                &&& msg == (ControlMessage::HostStop { board_id_hash, reason })
            },
            Some((i, _)) => 0 <= i < sync.peers.hashes@.len(),
            None => true,
        },
        sync.effect_of(msg) is None <==> (forall|i: int|
            0 <= i < sync.peers.hashes@.len() ==> sync_sender(msg) != Some(
                #[trigger] sync.peers.hashes@[i],
            )),
{
    if let Some(sender) = sync_sender(msg) {
        peer_is_found_by_hash(sync.peers.hashes@, sender);
    }
}

} // verus!
