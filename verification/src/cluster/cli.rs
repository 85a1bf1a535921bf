//! Command lines of the arbiter and the server program.

use vstd::prelude::*;

use crate::cluster::board_runtime::last_value;
use crate::text::{join2, same_text, text_of};

verus! {

/// What the command line of the arbiter asks for.
#[derive(Debug)]
pub enum ArbiterCli {
    /// Show the usage and succeed.
    Help,
    /// A fault, and whether the usage is shown with it.
    Fault { message: String, with_usage: bool },
    /// Run on a topology, with a node program of its own where one is named.
    Run { topology: String, node_bin: Option<String> },
}

/// What a command line asks for, with its texts as characters.
pub enum ArbiterCliModel {
    Help,
    Fault { message: Seq<char>, with_usage: bool },
    Run { topology: Seq<char>, node_bin: Option<Seq<char>> },
}

impl ArbiterCli {
    /// The command with its texts as characters.
    pub open spec fn model(self) -> ArbiterCliModel {
        match self {
            ArbiterCli::Help => ArbiterCliModel::Help,
            ArbiterCli::Fault { message, with_usage } => ArbiterCliModel::Fault {
                message: message@,
                with_usage,
            },
            ArbiterCli::Run { topology, node_bin } => ArbiterCliModel::Run {
                topology: topology@,
                node_bin: text_of(node_bin),
            },
        }
    }
}

/// Meaning of the arguments from the `i`-th on, with the values given so far.
pub open spec fn arbiter_cli_from(
    args: Seq<String>,
    i: int,
    topology: Option<Seq<char>>,
    node_bin: Option<Seq<char>>,
) -> ArbiterCliModel
    decreases args.len() - i,
{
    if i < 0 || i >= args.len() {
        match topology {
            Some(topology) => ArbiterCliModel::Run { topology, node_bin },
            None => ArbiterCliModel::Fault {
                message: "cluster-arbiter: --topology is required"@,
                with_usage: true,
            },
        }
    } else if args[i]@ == "-h"@ || args[i]@ == "--help"@ {
        ArbiterCliModel::Help
    } else if args[i]@ == "--topology"@ {
        if i + 1 < args.len() {
            arbiter_cli_from(args, i + 2, Some(args[i + 1]@), node_bin)
        } else {
            ArbiterCliModel::Fault {
                message: "cluster-arbiter: --topology requires a path"@,
                with_usage: false,
            }
        }
    } else if args[i]@ == "--node-bin"@ {
        if i + 1 < args.len() {
            arbiter_cli_from(args, i + 2, topology, Some(args[i + 1]@))
        } else {
            ArbiterCliModel::Fault {
                message: "cluster-arbiter: --node-bin requires a path"@,
                with_usage: false,
            }
        }
    } else {
        ArbiterCliModel::Fault {
            message: "cluster-arbiter: unknown argument "@ + args[i]@,
            with_usage: true,
        }
    }
}

/// Parse the arguments of the arbiter (after the program name).
pub fn parse_arbiter_args(args: &Vec<String>) -> (r: ArbiterCli)
    ensures
        r.model() == arbiter_cli_from(args@, 0, None, None),
{
    let mut topology: Option<String> = None;
    let mut node_bin: Option<String> = None;
    let mut i: usize = 0;
    while i < args.len()
        invariant
            i <= args@.len(),
            arbiter_cli_from(args@, 0, None, None) == arbiter_cli_from(
                args@,
                i as int,
                text_of(topology),
                text_of(node_bin),
            ),
        decreases args@.len() - i,
    {
        let arg = args[i].as_str();
        let last = i + 1 >= args.len();
        if same_text(arg, "-h") || same_text(arg, "--help") {
            return ArbiterCli::Help;
        } else if same_text(arg, "--topology") {
            if last {
                return ArbiterCli::Fault {
                    message: "cluster-arbiter: --topology requires a path".to_owned(),
                    with_usage: false,
                };
            }
            topology = Some(args[i + 1].clone());
        } else if same_text(arg, "--node-bin") {
            if last {
                return ArbiterCli::Fault {
                    message: "cluster-arbiter: --node-bin requires a path".to_owned(),
                    with_usage: false,
                };
            }
            node_bin = Some(args[i + 1].clone());
        } else {
            return ArbiterCli::Fault {
                message: join2("cluster-arbiter: unknown argument ", arg),
                with_usage: true,
            };
        }
        i += 2;
    }
    match topology {
        Some(topology) => ArbiterCli::Run { topology, node_bin },
        None => ArbiterCli::Fault {
            message: "cluster-arbiter: --topology is required".to_owned(),
            with_usage: true,
        },
    }
}

/// Usage text of the arbiter.
pub fn arbiter_usage() -> (r: &'static str)
    ensures
        r@
            == "Usage: cluster-arbiter --topology <logical.json> [--node-bin <path>]\n\nNormally spawned by cluster-server with a validated logical topology.\n"@,
{
    "Usage: cluster-arbiter --topology <logical.json> [--node-bin <path>]\n\nNormally spawned by cluster-server with a validated logical topology.\n"
}

/// What the command line of the server asks for.
#[derive(Debug)]
pub enum ServerCli {
    /// Show the usage and succeed.
    Help,
    /// Show the usage and fail, after a message where there is one.
    Fault(Option<String>),
    /// Run on a topology script.
    Run(String),
}

/// Parse the arguments of the server (after the program name): one script.
pub fn parse_server_args(args: &Vec<String>) -> (r: ServerCli)
    ensures
        match r {
            ServerCli::Help => args@.len() > 0 && (args@[0]@ == "-h"@ || args@[0]@ == "--help"@),
            ServerCli::Fault(None) => args@.len() == 0,
            ServerCli::Fault(Some(message)) => args@.len() > 1 && args@[0]@ != "-h"@ && args@[0]@
                != "--help"@ && message@ == "cluster-server: unexpected extra arguments"@,
            ServerCli::Run(script) => args@.len() == 1 && args@[0]@ != "-h"@ && args@[0]@
                != "--help"@ && script == args@[0],
        },
{
    if args.is_empty() {
        return ServerCli::Fault(None);
    }
    if same_text(args[0].as_str(), "-h") || same_text(args[0].as_str(), "--help") {
        return ServerCli::Help;
    }
    if args.len() > 1 {
        return ServerCli::Fault(Some("cluster-server: unexpected extra arguments".to_owned()));
    }
    ServerCli::Run(args[0].clone())
}

/// Usage text of the server.
pub fn server_usage() -> (r: &'static str)
    ensures
        r@
            == "Usage: cluster-server <topology.py>\n\nSingleton cluster entry. Runs the Python topology DSL script, validates\nthe logical JSON, and spawns cluster-arbiter with that topology.\n"@,
{
    "Usage: cluster-server <topology.py>\n\nSingleton cluster entry. Runs the Python topology DSL script, validates\nthe logical JSON, and spawns cluster-arbiter with that topology.\n"
}

/// Whether a text is one of the flags of the arbiter that take a path.
pub open spec fn takes_path(text: Seq<char>) -> bool {
    text == "--topology"@ || text == "--node-bin"@
}

proof fn lemma_arbiter_values(
    args: Seq<String>,
    i: int,
    topology: Option<Seq<char>>,
    node_bin: Option<Seq<char>>,
)
    requires
        0 <= i <= args.len(),
    ensures
        ({
            let parsed = arbiter_cli_from(args, i, topology, node_bin);
            let last_topology = last_value(args, i, "--topology"@);
            let last_node = last_value(args, i, "--node-bin"@);
            let well_formed = (args.len() - i) % 2 == 0 && forall|k: int|
                i <= k < args.len() && (k - i) % 2 == 0 ==> takes_path(#[trigger] args[k]@);
            &&& parsed is Run <==> well_formed && (last_topology is Some || topology is Some)
            &&& parsed matches ArbiterCliModel::Run { topology: t, node_bin: b } ==> {
                &&& last_topology is Some ==> last_topology == Some(t)
                &&& last_topology is None ==> topology == Some(t)
                &&& b == if last_node is Some {
                    last_node
                } else {
                    node_bin
                }
            }
        }),
    decreases args.len() - i,
{
    reveal_strlit("-h");
    reveal_strlit("--help");
    reveal_strlit("--topology");
    reveal_strlit("--node-bin");
    assert("-h"@.len() == 2);
    assert("--help"@.len() == 6);
    assert("--topology"@.len() == 10 && "--topology"@[2] == 't');
    assert("--node-bin"@.len() == 10 && "--node-bin"@[2] == 'n');
    if i + 1 < args.len() {
        let next_topology = if args[i]@ == "--topology"@ {
            Some(args[i + 1]@)
        } else {
            topology
        };
        let next_node = if args[i]@ == "--node-bin"@ {
            Some(args[i + 1]@)
        } else {
            node_bin
        };
        lemma_arbiter_values(args, i + 2, next_topology, next_node);
        if takes_path(args[i]@) {
            assert(arbiter_cli_from(args, i, topology, node_bin) == arbiter_cli_from(
                args,
                i + 2,
                next_topology,
                next_node,
            ));
        }
        if (args.len() - i) % 2 == 0 && (forall|k: int|
            i <= k < args.len() && (k - i) % 2 == 0 ==> takes_path(#[trigger] args[k]@)) {
            assert((i - i) % 2 == 0);
            assert(takes_path(args[i]@));
            assert forall|k: int| i + 2 <= k < args.len() && (k - (i + 2)) % 2 == 0 implies takes_path(
                #[trigger] args[k]@,
            ) by {
                assert((k - i) % 2 == 0);
            }
        }
        if takes_path(args[i]@) && (forall|k: int|
            i + 2 <= k < args.len() && (k - (i + 2)) % 2 == 0 ==> takes_path(#[trigger] args[k]@)) {
            assert forall|k: int| i <= k < args.len() && (k - i) % 2 == 0 implies takes_path(
                #[trigger] args[k]@,
            ) by {
                if k != i {
                    assert((k - (i + 2)) % 2 == 0);
                }
            }
        }
    }
}

/// The arbiter runs exactly when every other argument is one of its two flags,
/// each is followed by a path, and the topology is named. Of a flag that is
/// repeated the last path counts; the node program may be left out.
pub proof fn arbiter_takes_last_paths(args: Seq<String>)
    ensures
        ({
            let parsed = arbiter_cli_from(args, 0, None, None);
            &&& parsed is Run <==> {
                &&& args.len() % 2 == 0
                &&& forall|k: int|
                    0 <= k < args.len() && (k - 0) % 2 == 0 ==> takes_path(#[trigger] args[k]@)
                &&& last_value(args, 0, "--topology"@) is Some
            }
            &&& parsed matches ArbiterCliModel::Run { topology, node_bin } ==> {
                &&& last_value(args, 0, "--topology"@) == Some(topology)
                &&& last_value(args, 0, "--node-bin"@) == node_bin
            }
        }),
{
    lemma_arbiter_values(args, 0, None, None);
}

} // verus!
