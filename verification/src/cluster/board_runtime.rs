//! Board-process framework: command line, control handling and the decisions
//! of the guest loop.

use vstd::prelude::*;

use crate::cluster::control::{ControlMessage, HostStopReason};
use crate::cluster::lifecycle::{NodeEffect, NodeEffectModel, NodeState};
use crate::cluster::topology::{
    board_index, find_board_index, BoardSpec, LogicalTopology, TopologyError,
};
use crate::kernel::StopReason;
use crate::text::{join2, join3, same_text, text_of};

verus! {

/// Options of a board process.
#[derive(Clone, Debug)]
pub struct BoardOptions {
    pub board_id: String,
    pub cluster_key: String,
    pub iox_root: String,
    pub topology_path: String,
}

/// Failures from the board framework.
#[derive(Debug)]
pub enum BoardError {
    Io(String),
    Topology(TopologyError),
    Ipc(String),
    Firmware(String),
    Message(String),
}

impl BoardError {
    /// Text of the failure for people.
    pub open spec fn shown(self) -> Seq<char> {
        match self {
            BoardError::Io(what) => "I/O error: "@ + what@,
            BoardError::Topology(e) => "topology error: "@ + e.shown(),
            BoardError::Ipc(what) => "ipc error: "@ + what@,
            BoardError::Firmware(what) => "firmware error: "@ + what@,
            BoardError::Message(what) => what@,
        }
    }

    /// Text of the failure for people.
    pub fn shown_text(&self) -> (r: String)
        ensures
            r@ == self.shown(),
    {
        match self {
            BoardError::Io(what) => join2("I/O error: ", what.as_str()),
            BoardError::Topology(e) => join2("topology error: ", e.shown_text().as_str()),
            BoardError::Ipc(what) => join2("ipc error: ", what.as_str()),
            BoardError::Firmware(what) => join2("firmware error: ", what.as_str()),
            BoardError::Message(what) => what.clone(),
        }
    }
}

/// Command-line failure (usage / missing arguments).
#[derive(Debug)]
pub enum BoardCliError {
    Help,
    Message(String),
}

/// The values that a command line has given so far.
pub struct GivenArgs {
    pub board_id: Option<Seq<char>>,
    pub cluster_key: Option<Seq<char>>,
    pub iox_root: Option<Seq<char>>,
    pub topology: Option<Seq<char>>,
}

/// What a command line asks for.
pub enum ParsedArgs {
    Help,
    Message(Seq<char>),
    Options {
        board_id: Seq<char>,
        cluster_key: Seq<char>,
        iox_root: Seq<char>,
        topology_path: Seq<char>,
    },
}

/// Nothing given yet.
pub open spec fn no_args() -> GivenArgs {
    GivenArgs { board_id: None, cluster_key: None, iox_root: None, topology: None }
}

/// The given values once the command line has ended.
pub open spec fn finish_args(prog: Seq<char>, given: GivenArgs) -> ParsedArgs {
    match (given.board_id, given.cluster_key, given.iox_root, given.topology) {
        (Some(board_id), Some(cluster_key), Some(iox_root), Some(topology_path)) =>
            ParsedArgs::Options { board_id, cluster_key, iox_root, topology_path },
        _ => ParsedArgs::Message(
            prog + ": --board-id, --cluster-key, --iox-root, and --topology are required"@,
        ),
    }
}

/// Meaning of the arguments from the `i`-th on: flags take the argument that
/// follows them, a later flag replaces an earlier one, and the first help flag
/// or fault decides.
pub open spec fn parse_from(
    prog: Seq<char>,
    args: Seq<String>,
    i: int,
    given: GivenArgs,
) -> ParsedArgs
    decreases args.len() - i,
{
    if i < 0 || i >= args.len() {
        finish_args(prog, given)
    } else {
        let arg = args[i]@;
        if arg == "-h"@ || arg == "--help"@ {
            ParsedArgs::Help
        } else if arg == "--board-id"@ {
            if i + 1 < args.len() {
                parse_from(
                    prog,
                    args,
                    i + 2,
                    GivenArgs { board_id: Some(args[i + 1]@), ..given },
                )
            } else {
                ParsedArgs::Message(prog + ": --board-id requires a value"@)
            }
        } else if arg == "--cluster-key"@ {
            if i + 1 < args.len() {
                parse_from(
                    prog,
                    args,
                    i + 2,
                    GivenArgs { cluster_key: Some(args[i + 1]@), ..given },
                )
            } else {
                ParsedArgs::Message(prog + ": --cluster-key requires a value"@)
            }
        } else if arg == "--iox-root"@ {
            if i + 1 < args.len() {
                parse_from(
                    prog,
                    args,
                    i + 2,
                    GivenArgs { iox_root: Some(args[i + 1]@), ..given },
                )
            } else {
                ParsedArgs::Message(prog + ": --iox-root requires a path"@)
            }
        } else if arg == "--topology"@ {
            if i + 1 < args.len() {
                parse_from(
                    prog,
                    args,
                    i + 2,
                    GivenArgs { topology: Some(args[i + 1]@), ..given },
                )
            } else {
                ParsedArgs::Message(prog + ": --topology requires a path"@)
            }
        } else {
            ParsedArgs::Message(prog + ": unknown argument "@ + arg)
        }
    }
}

/// A parse result says exactly what the command line asks for.
pub open spec fn says(r: Result<BoardOptions, BoardCliError>, parsed: ParsedArgs) -> bool {
    match r {
        Ok(o) => parsed == (ParsedArgs::Options {
            board_id: o.board_id@,
            cluster_key: o.cluster_key@,
            iox_root: o.iox_root@,
            topology_path: o.topology_path@,
        }),
        Err(BoardCliError::Help) => parsed == ParsedArgs::Help,
        Err(BoardCliError::Message(text)) => parsed == ParsedArgs::Message(text@),
    }
}

fn complaint(prog: &str, what: &str) -> (r: Result<BoardOptions, BoardCliError>)
    ensures
        says(r, ParsedArgs::Message(prog@ + what@)),
{
    Err(BoardCliError::Message(join2(prog, what)))
}

/// Parse board binary arguments (after the program name).
pub fn parse_board_args(prog: &str, args: Vec<String>) -> (r: Result<BoardOptions, BoardCliError>)
    ensures
        says(r, parse_from(prog@, args@, 0, no_args())),
{
    let mut board_id: Option<String> = None;
    let mut cluster_key: Option<String> = None;
    let mut iox_root: Option<String> = None;
    let mut topology: Option<String> = None;
    let mut i: usize = 0;
    while i < args.len()
        invariant
            i <= args@.len(),
            parse_from(prog@, args@, 0, no_args()) == parse_from(
                prog@,
                args@,
                i as int,
                GivenArgs {
                    board_id: text_of(board_id),
                    cluster_key: text_of(cluster_key),
                    iox_root: text_of(iox_root),
                    topology: text_of(topology),
                },
            ),
        decreases args@.len() - i,
    {
        let arg = args[i].as_str();
        let last = i + 1 >= args.len();
        if same_text(arg, "-h") || same_text(arg, "--help") {
            return Err(BoardCliError::Help);
        } else if same_text(arg, "--board-id") {
            if last {
                return complaint(prog, ": --board-id requires a value");
            }
            board_id = Some(args[i + 1].clone());
        } else if same_text(arg, "--cluster-key") {
            if last {
                return complaint(prog, ": --cluster-key requires a value");
            }
            cluster_key = Some(args[i + 1].clone());
        } else if same_text(arg, "--iox-root") {
            if last {
                return complaint(prog, ": --iox-root requires a path");
            }
            iox_root = Some(args[i + 1].clone());
        } else if same_text(arg, "--topology") {
            if last {
                return complaint(prog, ": --topology requires a path");
            }
            topology = Some(args[i + 1].clone());
        } else {
            return Err(BoardCliError::Message(join3(prog, ": unknown argument ", arg)));
        }
        i += 2;
    }
    match (board_id, cluster_key, iox_root, topology) {
        (Some(board_id), Some(cluster_key), Some(iox_root), Some(topology_path)) => Ok(
            BoardOptions { board_id, cluster_key, iox_root, topology_path },
        ),
        _ => complaint(
            prog,
            ": --board-id, --cluster-key, --iox-root, and --topology are required",
        ),
    }
}

/// Usage text for board binaries.
pub fn board_usage(prog: &str) -> (r: String)
    ensures
        r@ == "Usage: "@ + prog@
            + " --board-id <id> --cluster-key <key> --iox-root <path> --topology <json>\n\nSpawned by cluster-arbiter. Starts AwaitingStartup, becomes Stopped after\nStartupRecord (Ready), and runs only after Start.\n"@,
{
    join3(
        "Usage: ",
        prog,
        " --board-id <id> --cluster-key <key> --iox-root <path> --topology <json>\n\nSpawned by cluster-arbiter. Starts AwaitingStartup, becomes Stopped after\nStartupRecord (Ready), and runs only after Start.\n",
    )
}

/// The host stop that a simulator stop amounts to, if any. A guest-local halt
/// is none.
pub open spec fn host_stop_of(reason: StopReason) -> Option<HostStopReason> {
    match reason {
        StopReason::Halt => None,
        StopReason::Breakpoint { .. } => Some(HostStopReason::Breakpoint),
        StopReason::ExternalStop => Some(HostStopReason::ExternalStop),
        StopReason::Step => Some(HostStopReason::Step),
        StopReason::Unmapped { .. } => Some(HostStopReason::Unmapped),
    }
}

/// Map a simulator stop to a cluster [`HostStopReason`], if any.
///
/// [`StopReason::Halt`] is guest-local and must not be forwarded.
pub fn cluster_host_stop_reason(reason: &StopReason) -> (r: Option<HostStopReason>)
    ensures
        r == host_stop_of(*reason),
{
    match reason {
        StopReason::Halt => None,
        StopReason::Breakpoint { .. } => Some(HostStopReason::Breakpoint),
        StopReason::ExternalStop => Some(HostStopReason::ExternalStop),
        StopReason::Step => Some(HostStopReason::Step),
        StopReason::Unmapped { .. } => Some(HostStopReason::Unmapped),
    }
}

/// The entry of a board in the topology, or why there is none.
pub fn find_board<'a>(topo: &'a LogicalTopology, board_id: &str) -> (r: Result<
    &'a BoardSpec,
    BoardError,
>)
    ensures
        match r {
            Ok(board) => board_index(topo.boards@, board_id@) is Some && *board
                == topo.boards@[board_index(topo.boards@, board_id@)->0],
            Err(e) => board_index(topo.boards@, board_id@) is None && (
            e matches BoardError::Message(message) && message@ == "board id `"@ + board_id@
                + "` not in topology"@),
        },
{
    match find_board_index(&topo.boards, board_id) {
        Some(i) => Ok(&topo.boards[i]),
        None => Err(BoardError::Message(join3("board id `", board_id, "` not in topology"))),
    }
}

/// What a control message makes a board do.
#[derive(Debug, PartialEq, Eq)]
pub enum BoardAction {
    /// Publish this message to the arbiter.
    Publish(ControlMessage),
    /// Hand the simulator a new virtual-time ceiling.
    SetAllowed { allowed_ns: u64 },
    /// Log only.
    Warn(String),
}

/// What a board does between two control polls.
#[derive(Clone, Copy, Debug, PartialEq, Eq, Structural)]
pub enum BoardTurn {
    /// Sleep for the idle interval.
    Idle,
    /// Pump the data plane and run the guest, starting it first if asked to.
    Run { start_guest: bool },
}

/// What one simulator poll came back with.
#[derive(Clone, Copy, Debug, PartialEq, Eq, Structural)]
pub enum PollOutcome {
    /// The simulation stopped.
    Stopped(StopReason),
    /// The quantum ended without a response.
    Progressed,
    /// Any other response.
    Unexpected,
}

/// What a board publishes after a poll. With a host stop the board process ends.
#[derive(Clone, Copy, Debug, PartialEq, Eq, Structural)]
pub struct PollActions {
    pub time_report: Option<ControlMessage>,
    pub host_stop: Option<ControlMessage>,
}

/// State of a board process between polls.
#[derive(Clone, Copy, Debug, PartialEq, Eq, Structural)]
pub struct BoardLoop {
    pub board_hash: u64,
    pub state: NodeState,
    pub headroom_threshold_ns: u64,
    pub allowed_ns: u64,
    pub last_time_report: Option<u64>,
    pub guest_started: bool,
}

/// The part of `allowed_ns` that is still ahead.
pub open spec fn headroom(allowed_ns: u64, virtual_time_ns: u64) -> int {
    if allowed_ns > virtual_time_ns {
        allowed_ns - virtual_time_ns
    } else {
        0
    }
}

impl BoardLoop {
    /// A board that waits for its startup record.
    pub open spec fn initial(board_hash: u64) -> BoardLoop {
        BoardLoop {
            board_hash,
            state: NodeState::AwaitingStartup,
            headroom_threshold_ns: 0,
            allowed_ns: 0,
            last_time_report: None,
            guest_started: false,
        }
    }

    /// A board that waits for its startup record.
    pub fn new(board_hash: u64) -> (r: BoardLoop)
        ensures
            r == BoardLoop::initial(board_hash),
    {
        BoardLoop {
            board_hash,
            state: NodeState::AwaitingStartup,
            headroom_threshold_ns: 0,
            allowed_ns: 0,
            last_time_report: None,
            guest_started: false,
        }
    }

    /// State after a control message: the lifecycle steps, a startup record
    /// brings the headroom threshold, and an accepted ceiling is kept.
    pub open spec fn after_control(self, msg: ControlMessage) -> BoardLoop {
        BoardLoop {
            state: self.state.next(self.board_hash, msg),
            headroom_threshold_ns: match msg {
                ControlMessage::StartupRecord { headroom_threshold_ns, .. } =>
                    headroom_threshold_ns,
                _ => self.headroom_threshold_ns,
            },
            allowed_ns: match self.state.effect(self.board_hash, msg) {
                Some(NodeEffectModel::SetAllowed { allowed_ns }) => allowed_ns,
                _ => self.allowed_ns,
            },
            ..self
        }
    }

    /// An action that carries out exactly this lifecycle effect.
    pub open spec fn carries_out(
        self,
        action: Option<BoardAction>,
        effect: Option<NodeEffectModel>,
    ) -> bool {
        match effect {
            None => action is None,
            Some(NodeEffectModel::SendReady) => action == Some(
                BoardAction::Publish(ControlMessage::Ready { board_id_hash: self.board_hash }),
            ),
            Some(NodeEffectModel::SetAllowed { allowed_ns }) => action == Some(
                BoardAction::SetAllowed { allowed_ns },
            ),
            Some(NodeEffectModel::Warn(text)) => action matches Some(BoardAction::Warn(s)) && s@
                == text,
        }
    }

    /// Apply one control message.
    pub fn on_control(&mut self, msg: ControlMessage) -> (r: Option<BoardAction>)
        ensures
            *final(self) == old(self).after_control(msg),
            old(self).carries_out(r, old(self).state.effect(old(self).board_hash, msg)),
    {
        if let ControlMessage::StartupRecord { headroom_threshold_ns, .. } = msg {
            self.headroom_threshold_ns = headroom_threshold_ns;
        }
        let (next, effect) = self.state.on_message(self.board_hash, msg);
        self.state = next;
        match effect {
            Some(NodeEffect::SendReady) => Some(
                BoardAction::Publish(ControlMessage::Ready { board_id_hash: self.board_hash }),
            ),
            Some(NodeEffect::SetAllowed { allowed_ns }) => {
                self.allowed_ns = allowed_ns;
                Some(BoardAction::SetAllowed { allowed_ns })
            },
            Some(NodeEffect::Warn(text)) => Some(BoardAction::Warn(text)),
            None => None,
        }
    }

    /// Decide the next turn. A running board starts its guest on the first one.
    pub fn next_turn(&mut self) -> (r: BoardTurn)
        ensures
            old(self).state != NodeState::Running ==> r == BoardTurn::Idle && *final(self) == *old(
                self,
            ),
            old(self).state == NodeState::Running ==> r == (BoardTurn::Run {
                start_guest: !old(self).guest_started,
            }) && *final(self) == (BoardLoop { guest_started: true, ..*old(self) }),
    {
        if self.state == NodeState::Running {
            let start_guest = !self.guest_started;
            self.guest_started = true;
            BoardTurn::Run { start_guest }
        } else {
            BoardTurn::Idle
        }
    }

    /// Whether a report of this virtual time is due: the headroom has fallen
    /// below the threshold and the last report was of another time.
    pub open spec fn report_due(self, virtual_time_ns: u64) -> bool {
        &&& headroom(self.allowed_ns, virtual_time_ns) < self.headroom_threshold_ns
        &&& self.last_time_report != Some(virtual_time_ns)
    }

    /// The time report at this virtual time, if one is due.
    pub open spec fn report_at(self, virtual_time_ns: u64) -> Option<ControlMessage> {
        if self.report_due(virtual_time_ns) {
            Some(ControlMessage::TimeReport { board_id_hash: self.board_hash, virtual_time_ns })
        } else {
            None
        }
    }

    /// State after a report of this virtual time was sent where one was due.
    pub open spec fn after_report(self, virtual_time_ns: u64) -> BoardLoop {
        if self.report_due(virtual_time_ns) {
            BoardLoop { last_time_report: Some(virtual_time_ns), ..self }
        } else {
            self
        }
    }

    /// Give the time report that is due at this virtual time, if any.
    pub fn maybe_time_report(&mut self, virtual_time_ns: u64) -> (r: Option<ControlMessage>)
        ensures
            r == old(self).report_at(virtual_time_ns),
            *final(self) == old(self).after_report(virtual_time_ns),
    {
        let left = self.allowed_ns.saturating_sub(virtual_time_ns);
        let repeated = match self.last_time_report {
            Some(t) => t == virtual_time_ns,
            None => false,
        };
        if left < self.headroom_threshold_ns && !repeated {
            self.last_time_report = Some(virtual_time_ns);
            Some(ControlMessage::TimeReport { board_id_hash: self.board_hash, virtual_time_ns })
        } else {
            None
        }
    }

    /// Decide what to publish after a poll that left the clock at this time.
    pub fn on_poll(&mut self, outcome: PollOutcome, virtual_time_ns: u64) -> (r: PollActions)
        ensures
            outcome == PollOutcome::Unexpected ==> *final(self) == *old(self) && r == (
            PollActions { time_report: None, host_stop: None }),
            outcome != PollOutcome::Unexpected ==> *final(self) == old(self).after_report(
                virtual_time_ns,
            ) && r.time_report == old(self).report_at(virtual_time_ns),
            outcome == PollOutcome::Progressed ==> r.host_stop is None,
            outcome matches PollOutcome::Stopped(reason) ==> r.host_stop == match host_stop_of(
                reason,
            ) {
                Some(host) => Some(
                    ControlMessage::HostStop { board_id_hash: old(self).board_hash, reason: host },
                ),
                None => None,
            },
    {
        match outcome {
            PollOutcome::Stopped(reason) => {
                let time_report = self.maybe_time_report(virtual_time_ns);
                let host_stop = match cluster_host_stop_reason(&reason) {
                    Some(host) => Some(
                        ControlMessage::HostStop { board_id_hash: self.board_hash, reason: host },
                    ),
                    None => None,
                };
                PollActions { time_report, host_stop }
            },
            PollOutcome::Progressed => {
                let time_report = self.maybe_time_report(virtual_time_ns);
                PollActions { time_report, host_stop: None }
            },
            PollOutcome::Unexpected => PollActions { time_report: None, host_stop: None },
        }
    }
}

/// Whether the guest may be polled: not while it waits on the ceiling, and not
/// after a local halt left the simulator stopped.
pub fn may_poll(waiting_on_ceiling: bool, simulator_running: bool) -> (r: bool)
    ensures
        r == (!waiting_on_ceiling && simulator_running),
{
    !waiting_on_ceiling && simulator_running
}

/// A guest-local halt is the only stop that is not forwarded to the cluster.
pub proof fn only_halt_stays_local(reason: StopReason)
    ensures
        host_stop_of(reason) is None <==> reason == StopReason::Halt,
{
}

/// The same virtual time is never reported twice in a row.
pub proof fn no_repeated_report(board: BoardLoop, virtual_time_ns: u64)
    ensures
        board.after_report(virtual_time_ns).report_at(virtual_time_ns) is None,
{
}

/// A board keeps its identity whatever it is told, and once it has stopped it
/// takes no further ceiling.
pub proof fn control_keeps_identity(board: BoardLoop, msg: ControlMessage)
    ensures
        board.after_control(msg).board_hash == board.board_hash,
        board.state == NodeState::Stopped ==> board.after_control(msg).state == NodeState::Stopped
            && board.after_control(msg).allowed_ns == board.allowed_ns,
{
}

/// A report is due exactly when the time is not the one that was reported last
/// and less than the threshold is left of the ceiling, nothing being left
/// beyond it. A report names the board and the time, and is remembered.
pub proof fn reports_follow_headroom(board: BoardLoop, t: u64)
    ensures
        ({
            let left = if board.allowed_ns > t {
                board.allowed_ns - t
            } else {
                0
            };
            if board.last_time_report != Some(t) && left < board.headroom_threshold_ns {
                &&& board.report_at(t) == Some(
                    ControlMessage::TimeReport {
                        board_id_hash: board.board_hash,
                        virtual_time_ns: t,
                    },
                )
                &&& board.after_report(t) == (BoardLoop { last_time_report: Some(t), ..board })
            } else {
                &&& board.report_at(t) is None
                &&& board.after_report(t) == board
            }
        }),
{
}

/// After a running board has handled `Allowed`, whatever ceiling it had
/// before, it reports a time that it has not just reported exactly when less
/// than the threshold is left of the new ceiling: the ceiling in force is the
/// last one received. The simulator is handed that ceiling too.
pub proof fn last_ceiling_governs_reports(
    board: BoardLoop,
    other_ceiling: u64,
    a: u64,
    t: u64,
    action: Option<BoardAction>,
)
    requires
        board.state == NodeState::Running,
        board.carries_out(
            action,
            board.state.effect(board.board_hash, ControlMessage::Allowed { allowed_ns: a }),
        ),
    ensures
        ({
            let told = board.after_control(ControlMessage::Allowed { allowed_ns: a });
            let left = if a > t {
                a - t
            } else {
                0
            };
            &&& told.report_at(t) is Some <==> board.last_time_report != Some(t) && left
                < board.headroom_threshold_ns
            &&& told.allowed_ns == a
            &&& told == (BoardLoop { allowed_ns: other_ceiling, ..board }).after_control(
                ControlMessage::Allowed { allowed_ns: a },
            )
            &&& told.state == NodeState::Running
            &&& told.headroom_threshold_ns == board.headroom_threshold_ns
            &&& told.last_time_report == board.last_time_report
        }),
        action == Some(BoardAction::SetAllowed { allowed_ns: a }),
{
}

/// A board that does not run takes no ceiling, and no message but `Allowed`
/// brings one. The threshold comes with a startup record alone. No message
/// touches the last report or whether the guest was started.
pub proof fn other_messages_keep_the_ceiling(board: BoardLoop, msg: ControlMessage)
    ensures
        ({
            let told = board.after_control(msg);
            &&& board.state != NodeState::Running || !(msg is Allowed) ==> told.allowed_ns
                == board.allowed_ns
            &&& told.headroom_threshold_ns == if msg is StartupRecord {
                msg->headroom_threshold_ns
            } else {
                board.headroom_threshold_ns
            }
            &&& told.last_time_report == board.last_time_report
            &&& told.guest_started == board.guest_started
            &&& told.board_hash == board.board_hash
        }),
{
}

/// A board answers its own first startup record with Ready under its own
/// hash, runs after Start, stops with the cluster, and is quiet about Start
/// alone. To anything else it answers with a warning at most.
pub proof fn board_answers_its_messages(
    board: BoardLoop,
    msg: ControlMessage,
    action: Option<BoardAction>,
)
    requires
        board.carries_out(action, board.state.effect(board.board_hash, msg)),
    ensures
        action matches Some(BoardAction::Publish(sent)) ==> sent == (ControlMessage::Ready {
            board_id_hash: board.board_hash,
        }),
        action matches Some(BoardAction::Publish(_)) <==> board.state == NodeState::AwaitingStartup
            && msg is StartupRecord && msg->StartupRecord_board_id_hash == board.board_hash,
        action is None <==> board.state == NodeState::AwaitingStart && msg == ControlMessage::Start,
        action matches Some(BoardAction::SetAllowed { .. }) <==> board.state == NodeState::Running
            && msg is Allowed,
        board.after_control(msg).state == NodeState::Running <==> board.state
            == NodeState::AwaitingStart && msg == ControlMessage::Start || board.state
            == NodeState::Running && !(msg is ClusterStop),
        board.after_control(msg).state == NodeState::Stopped <==> board.state == NodeState::Stopped
            || msg is ClusterStop,
{
}

/// Each stop of the simulator but a halt goes to the cluster under its own
/// reason.
pub proof fn stops_keep_their_reason(reason: StopReason, host: HostStopReason)
    ensures
        host_stop_of(reason) == Some(host) <==> match host {
            HostStopReason::Breakpoint => reason is Breakpoint,
            HostStopReason::ExternalStop => reason is ExternalStop,
            HostStopReason::Step => reason is Step,
            HostStopReason::Unmapped => reason is Unmapped,
        },
{
}

/// The argument after the last occurrence of a flag, where flags stand at
/// every other place from the `i`-th on.
pub open spec fn last_value(args: Seq<String>, i: int, flag: Seq<char>) -> Option<Seq<char>>
    decreases args.len() - i,
{
    if i < 0 || i + 1 >= args.len() {
        None
    } else {
        match last_value(args, i + 2, flag) {
            Some(value) => Some(value),
            None => if args[i]@ == flag {
                Some(args[i + 1]@)
            } else {
                None
            },
        }
    }
}

/// Whether a text is one of the flags that take a value.
pub open spec fn takes_value(text: Seq<char>) -> bool {
    text == "--board-id"@ || text == "--cluster-key"@ || text == "--iox-root"@ || text
        == "--topology"@
}

/// The flags of a board differ from each other and from the help flags.
proof fn lemma_flags_differ()
    ensures
        "--board-id"@ != "--cluster-key"@,
        "--board-id"@ != "--iox-root"@,
        "--board-id"@ != "--topology"@,
        "--cluster-key"@ != "--iox-root"@,
        "--cluster-key"@ != "--topology"@,
        "--iox-root"@ != "--topology"@,
        !takes_value("-h"@),
        !takes_value("--help"@),
{
    reveal_strlit("--board-id");
    reveal_strlit("--cluster-key");
    reveal_strlit("--iox-root");
    reveal_strlit("--topology");
    reveal_strlit("-h");
    reveal_strlit("--help");
    assert("--board-id"@.len() == 10 && "--board-id"@[2] == 'b');
    assert("--cluster-key"@.len() == 13);
    assert("--iox-root"@.len() == 10 && "--iox-root"@[2] == 'i');
    assert("--topology"@.len() == 10 && "--topology"@[2] == 't');
    assert("-h"@.len() == 2);
    assert("--help"@.len() == 6);
}

/// A value from the arguments, or else the one that was given before.
spec fn value_or(value: Option<Seq<char>>, given: Option<Seq<char>>) -> Option<Seq<char>> {
    if value is Some {
        value
    } else {
        given
    }
}

proof fn lemma_parsed_values(prog: Seq<char>, args: Seq<String>, i: int, given: GivenArgs)
    requires
        0 <= i <= args.len(),
    ensures
        parse_from(prog, args, i, given) matches ParsedArgs::Options {
            board_id,
            cluster_key,
            iox_root,
            topology_path,
        } ==> {
            &&& value_or(last_value(args, i, "--board-id"@), given.board_id) == Some(board_id)
            &&& value_or(last_value(args, i, "--cluster-key"@), given.cluster_key) == Some(
                cluster_key,
            )
            &&& value_or(last_value(args, i, "--iox-root"@), given.iox_root) == Some(iox_root)
            &&& value_or(last_value(args, i, "--topology"@), given.topology) == Some(topology_path)
            &&& (args.len() - i) % 2 == 0
            &&& forall|k: int|
                i <= k < args.len() && (k - i) % 2 == 0 ==> takes_value(#[trigger] args[k]@)
        },
        (args.len() - i) % 2 == 0 && (forall|k: int|
            i <= k < args.len() && (k - i) % 2 == 0 ==> takes_value(#[trigger] args[k]@))
            && value_or(last_value(args, i, "--board-id"@), given.board_id) is Some && value_or(
            last_value(args, i, "--cluster-key"@),
            given.cluster_key,
        ) is Some && value_or(last_value(args, i, "--iox-root"@), given.iox_root) is Some
            && value_or(last_value(args, i, "--topology"@), given.topology) is Some ==> parse_from(
            prog,
            args,
            i,
            given,
        ) is Options,
    decreases args.len() - i,
{
    lemma_flags_differ();
    if i + 1 < args.len() {
        let next = GivenArgs {
            board_id: if args[i]@ == "--board-id"@ {
                Some(args[i + 1]@)
            } else {
                given.board_id
            },
            cluster_key: if args[i]@ == "--cluster-key"@ {
                Some(args[i + 1]@)
            } else {
                given.cluster_key
            },
            iox_root: if args[i]@ == "--iox-root"@ {
                Some(args[i + 1]@)
            } else {
                given.iox_root
            },
            topology: if args[i]@ == "--topology"@ {
                Some(args[i + 1]@)
            } else {
                given.topology
            },
        };
        lemma_parsed_values(prog, args, i + 2, next);
        if takes_value(args[i]@) {
            assert(parse_from(prog, args, i, given) == parse_from(prog, args, i + 2, next));
        }
        if parse_from(prog, args, i, given) is Options {
            assert forall|k: int| i <= k < args.len() && (k - i) % 2 == 0 implies takes_value(
                #[trigger] args[k]@,
            ) by {
                if k != i {
                    assert((k - (i + 2)) % 2 == 0);
                }
            }
        }
        if (args.len() - i) % 2 == 0 && (forall|k: int|
            i <= k < args.len() && (k - i) % 2 == 0 ==> takes_value(#[trigger] args[k]@)) {
            assert((i - i) % 2 == 0);
            assert(takes_value(args[i]@));
            assert forall|k: int| i + 2 <= k < args.len() && (k - (i + 2)) % 2 == 0 implies takes_value(
                #[trigger] args[k]@,
            ) by {
                assert((k - i) % 2 == 0);
            }
        }
    } else if i + 1 == args.len() {
        assert((i - i) % 2 == 0);
    }
}

/// A command line is accepted exactly when every other argument is one of the
/// four flags, each is followed by a value, and none is missing. Of a flag
/// that is repeated the last value counts.
pub proof fn options_are_last_values(prog: Seq<char>, args: Seq<String>)
    ensures
        ({
            let parsed = parse_from(prog, args, 0, no_args());
            &&& parsed is Options <==> {
                &&& args.len() % 2 == 0
                &&& forall|k: int|
                    0 <= k < args.len() && k % 2 == 0 ==> takes_value(#[trigger] args[k]@)
                &&& last_value(args, 0, "--board-id"@) is Some
                &&& last_value(args, 0, "--cluster-key"@) is Some
                &&& last_value(args, 0, "--iox-root"@) is Some
                &&& last_value(args, 0, "--topology"@) is Some
            }
            &&& parsed matches ParsedArgs::Options {
                board_id,
                cluster_key,
                iox_root,
                topology_path,
            } ==> {
                &&& last_value(args, 0, "--board-id"@) == Some(board_id)
                &&& last_value(args, 0, "--cluster-key"@) == Some(cluster_key)
                &&& last_value(args, 0, "--iox-root"@) == Some(iox_root)
                &&& last_value(args, 0, "--topology"@) == Some(topology_path)
            }
        }),
{
    lemma_parsed_values(prog, args, 0, no_args());
    if args.len() % 2 == 0 && (forall|k: int|
        0 <= k < args.len() && k % 2 == 0 ==> takes_value(#[trigger] args[k]@)) {
        assert forall|k: int| 0 <= k < args.len() && (k - 0) % 2 == 0 implies takes_value(
            #[trigger] args[k]@,
        ) by {
            assert(k % 2 == 0);
        }
    }
    if parse_from(prog, args, 0, no_args()) is Options {
        assert forall|k: int| 0 <= k < args.len() && k % 2 == 0 implies takes_value(
            #[trigger] args[k]@,
        ) by {
            assert((k - 0) % 2 == 0);
        }
    }
}

/// A new board waits for its startup record, has no ceiling, has reported
/// nothing, and has not started its guest.
pub proof fn new_board_waits(board_hash: u64)
    ensures
        BoardLoop::initial(board_hash).board_hash == board_hash,
        BoardLoop::initial(board_hash).state == NodeState::AwaitingStartup,
        BoardLoop::initial(board_hash).allowed_ns == 0,
        BoardLoop::initial(board_hash).headroom_threshold_ns == 0,
        BoardLoop::initial(board_hash).last_time_report is None,
        !BoardLoop::initial(board_hash).guest_started,
{
}

/// A parse gives options exactly when the command line does, each in its own
/// place, and asks for help or complains as the command line does.
pub proof fn answer_says_what_was_asked(
    r: Result<BoardOptions, BoardCliError>,
    prog: Seq<char>,
    args: Seq<String>,
)
    requires
        says(r, parse_from(prog, args, 0, no_args())),
    ensures
        r matches Ok(o) ==> {
            &&& last_value(args, 0, "--board-id"@) == Some(o.board_id@)
            &&& last_value(args, 0, "--cluster-key"@) == Some(o.cluster_key@)
            &&& last_value(args, 0, "--iox-root"@) == Some(o.iox_root@)
            &&& last_value(args, 0, "--topology"@) == Some(o.topology_path@)
        },
        r is Ok <==> parse_from(prog, args, 0, no_args()) is Options,
        r matches Err(BoardCliError::Help) <==> parse_from(prog, args, 0, no_args()) is Help,
{
    options_are_last_values(prog, args);
}

} // verus!
