//! Deterministic service names for a cluster instance.

use vstd::prelude::*;
use vstd::string::StringExecFns;

use crate::text::{join3, join5};

verus! {

/// Service name: arbiter to nodes control channel.
pub fn ctrl_a2n(cluster_key: &str) -> (r: String)
    ensures
        r@ == "sim-cluster/"@ + cluster_key@ + "/ctrl/a2n"@,
{
    join3("sim-cluster/", cluster_key, "/ctrl/a2n")
}

/// Service name: nodes to arbiter control channel.
pub fn ctrl_n2a(cluster_key: &str) -> (r: String)
    ensures
        r@ == "sim-cluster/"@ + cluster_key@ + "/ctrl/n2a"@,
{
    join3("sim-cluster/", cluster_key, "/ctrl/n2a")
}

/// Characters that a service name keeps.
pub open spec fn is_safe_char(c: char) -> bool {
    ||| 'a' <= c <= 'z'
    ||| 'A' <= c <= 'Z'
    ||| '0' <= c <= '9'
    ||| c == '_'
    ||| c == '-'
    ||| c == '.'
}

/// A kept character, or an underscore in its place.
pub open spec fn safe_char(c: char) -> char {
    if is_safe_char(c) {
        c
    } else {
        '_'
    }
}

/// Each character made safe.
pub open spec fn safe_text(s: Seq<char>) -> Seq<char> {
    s.map_values(|c: char| safe_char(c))
}

fn sanitize(s: &str) -> (r: String)
    ensures
        r@ == safe_text(s@),
{
    let mut out = String::new();
    for c in iter: s.chars()
        invariant
            iter.seq() == s@,
            out@ == safe_text(s@.take(iter.index())),
    {
        let keep = ('a' <= c && c <= 'z') || ('A' <= c && c <= 'Z') || ('0' <= c && c <= '9') || c
            == '_' || c == '-' || c == '.';
        let ghost before = out@;
        out.push(
            if keep {
                c
            } else {
                '_'
            },
        );
        proof {
            assert(s@.take(iter.index() + 1) == s@.take(iter.index()).push(c));
            assert(out@ == safe_text(s@.take(iter.index() + 1)));
        }
    }
    proof {
        assert(s@.take(s@.len() as int) == s@);
    }
    out
}

/// Name of the service of a directed UART edge, its id made safe.
pub open spec fn uart_service(cluster_key: Seq<char>, edge_id: Seq<char>) -> Seq<char> {
    "sim-cluster/"@ + cluster_key + "/uart/"@ + safe_text(edge_id)
}

/// Service name for one directed UART edge.
pub fn uart_edge(cluster_key: &str, edge_id: &str) -> (r: String)
    ensures
        r@ == uart_service(cluster_key@, edge_id@),
{
    let safe = sanitize(edge_id);
    let mut s = join3("sim-cluster/", cluster_key, "/uart/");
    s.append(safe.as_str());
    s
}

/// Identity of a directed edge.
pub open spec fn edge_name(
    from_board: Seq<char>,
    from_ep: Seq<char>,
    to_board: Seq<char>,
    to_ep: Seq<char>,
) -> Seq<char> {
    from_board + ":"@ + from_ep + "->"@ + to_board + ":"@ + to_ep
}

/// Default edge id string.
pub fn edge_id(from_board: &str, from_ep: &str, to_board: &str, to_ep: &str) -> (r: String)
    ensures
        r@ == edge_name(from_board@, from_ep@, to_board@, to_ep@),
{
    let mut s = join5(from_board, ":", from_ep, "->", to_board);
    s.append(":");
    s.append(to_ep);
    s
}

/// A safe name has only safe characters, and making it safe again changes nothing.
pub proof fn safe_text_is_idempotent(s: Seq<char>)
    ensures
        safe_text(s).len() == s.len(),
        forall|i: int| 0 <= i < s.len() ==> is_safe_char(#[trigger] safe_text(s)[i]),
        safe_text(safe_text(s)) == safe_text(s),
{
}

/// A safe name keeps letters, digits, underscores, hyphens and dots in their
/// places and has an underscore in place of any other character.
pub proof fn safe_text_keeps_safe_characters(s: Seq<char>, i: int)
    requires
        0 <= i < s.len(),
    ensures
        ({
            let c = s[i];
            let kept = 'a' <= c <= 'z' || 'A' <= c <= 'Z' || '0' <= c <= '9' || c == '_' || c == '-'
                || c == '.';
            &&& kept ==> safe_text(s)[i] == c
            &&& !kept ==> safe_text(s)[i] == '_'
        }),
{
}

/// A service name lies below the key of its cluster and ends with the safe id
/// of its edge: edges whose safe ids differ have services of different names.
pub proof fn service_names_follow_edges(cluster_key: Seq<char>, a: Seq<char>, b: Seq<char>)
    ensures
        uart_service(cluster_key, a) == uart_service(cluster_key, b) <==> safe_text(a) == safe_text(
            b,
        ),
        uart_service(cluster_key, a).skip(
            uart_service(cluster_key, a).len() - a.len(),
        ) == safe_text(a),
        uart_service(cluster_key, a).subrange(12, 12int + cluster_key.len()) == cluster_key,
{
    reveal_strlit("sim-cluster/");
    reveal_strlit("/uart/");
    let prefix = "sim-cluster/"@ + cluster_key + "/uart/"@;
    let x = uart_service(cluster_key, a);
    let y = uart_service(cluster_key, b);
    assert(x.skip(prefix.len() as int) =~= safe_text(a));
    assert(y.skip(prefix.len() as int) =~= safe_text(b));
    assert(x.skip(x.len() - a.len()) =~= safe_text(a));
    assert(x.subrange(12, 12int + cluster_key.len()) =~= cluster_key);
}

/// An edge id holds the names of its source and of its sink, board before
/// endpoint, each at its place.
pub proof fn edge_name_holds_its_ends(
    from_board: Seq<char>,
    from_ep: Seq<char>,
    to_board: Seq<char>,
    to_ep: Seq<char>,
)
    ensures
        ({
            let id = edge_name(from_board, from_ep, to_board, to_ep);
            let source: int = from_board.len() + 1int + from_ep.len();
            &&& id.len() == source + 2 + to_board.len() + 1 + to_ep.len()
            &&& id.take(from_board.len() as int) == from_board
            &&& id[from_board.len() as int] == ':'
            &&& id.subrange(from_board.len() + 1int, source) == from_ep
            &&& id[source] == '-'
            &&& id[source + 1] == '>'
            &&& id.subrange(source + 2, source + 2 + to_board.len()) == to_board
            &&& id[source + 2 + to_board.len()] == ':'
            &&& id.skip(source + 3 + to_board.len()) == to_ep
        }),
{
    reveal_strlit(":");
    reveal_strlit("->");
    let id = edge_name(from_board, from_ep, to_board, to_ep);
    let source: int = from_board.len() + 1int + from_ep.len();
    assert(id.take(from_board.len() as int) =~= from_board);
    assert(id.subrange(from_board.len() + 1int, source) =~= from_ep);
    assert(id.subrange(source + 2, source + 2 + to_board.len()) =~= to_board);
    assert(id.skip(source + 3 + to_board.len()) =~= to_ep);
}

} // verus!
