//! Singleton cluster server: options, topology-script output and lock decisions.

use vstd::prelude::*;
use vstd::string::{StrSliceExecFns, StringExecFns};

use crate::cluster::topology::TopologyError;
use crate::text::{dec, join2, join3, join_path, path_below, push_dec, texts_of};

verus! {

/// Options of a server run.
#[derive(Clone, Debug)]
pub struct ServerOptions {
    /// Topology script path.
    pub script: String,
    /// Directory that holds the description package.
    pub python_path: String,
    /// Path to the arbiter program.
    pub arbiter_bin: String,
    /// Script interpreter.
    pub python_bin: String,
    /// Lock file used to enforce a single server instance.
    pub lock_path: String,
}

/// Server failures.
#[derive(Debug)]
pub enum ServerError {
    AlreadyRunning(String),
    Io(String),
    Topology(TopologyError),
    PythonFailed { status: String, stderr: String },
    Message(String),
}

impl ServerError {
    /// Text of the failure for people.
    pub open spec fn shown(self) -> Seq<char> {
        match self {
            ServerError::AlreadyRunning(path) =>
                "another cluster-server instance holds the lock at "@ + path@,
            ServerError::Io(what) => "I/O error: "@ + what@,
            ServerError::Topology(e) => "topology error: "@ + e.shown(),
            ServerError::PythonFailed { status, stderr } => "python exited with status "@ + status@
                + ": "@ + stderr@,
            ServerError::Message(what) => what@,
        }
    }

    /// Text of the failure for people.
    pub fn shown_text(&self) -> (r: String)
        ensures
            r@ == self.shown(),
    {
        match self {
            ServerError::AlreadyRunning(path) => join2(
                "another cluster-server instance holds the lock at ",
                path.as_str(),
            ),
            ServerError::Io(what) => join2("I/O error: ", what.as_str()),
            ServerError::Topology(e) => join2("topology error: ", e.shown_text().as_str()),
            ServerError::PythonFailed { status, stderr } => {
                let mut s = join3("python exited with status ", status.as_str(), ": ");
                s.append(stderr.as_str());
                s
            },
            ServerError::Message(what) => what.clone(),
        }
    }
}

/// Default lock file in the runtime directory.
pub fn default_lock_path(runtime_dir: &str) -> (r: String)
    ensures
        r@ == path_below(runtime_dir@, "sim-cluster-server.lock"@),
{
    join_path(runtime_dir, "sim-cluster-server.lock")
}

impl ServerOptions {
    /// Options for a script, with the arbiter program beside the server's own
    /// and the lock in the runtime directory.
    pub fn from_script(
        script: String,
        exe_dir: Option<String>,
        python_path: Result<String, ServerError>,
        runtime_dir: &str,
    ) -> (r: Result<ServerOptions, ServerError>)
        ensures
            match (exe_dir, python_path) {
                (None, _) => r matches Err(ServerError::Message(message)) && message@
                    == "current_exe has no parent"@,
                (Some(_), Err(e)) => r matches Err(f) && f == e,
                (Some(dir), Ok(python_path)) => r matches Ok(opts) && opts.script == script
                    && opts.python_path == python_path && opts.arbiter_bin@ == path_below(
                    dir@,
                    "cluster-arbiter"@,
                ) && opts.python_bin@ == "python3"@ && opts.lock_path@ == path_below(
                    runtime_dir@,
                    "sim-cluster-server.lock"@,
                ),
            },
    {
        match (exe_dir, python_path) {
            (None, _) => Err(ServerError::Message("current_exe has no parent".to_owned())),
            (Some(_), Err(e)) => Err(e),
            (Some(dir), Ok(python_path)) => Ok(
                ServerOptions {
                    script,
                    python_path,
                    arbiter_bin: join_path(dir.as_str(), "cluster-arbiter"),
                    python_bin: "python3".to_owned(),
                    lock_path: default_lock_path(runtime_dir),
                },
            ),
        }
    }

    /// Whether the script and the arbiter program are there. The script is
    /// asked for first.
    pub fn check_files(&self, script_is_file: bool, arbiter_is_file: bool) -> (r: Result<
        (),
        ServerError,
    >)
        ensures
            r is Ok <==> script_is_file && arbiter_is_file,
            r matches Err(e) ==> e matches ServerError::Message(message) && message@ == if
                !script_is_file {
                "topology script not found: "@ + self.script@
            } else {
                "cluster-arbiter not found at "@ + self.arbiter_bin@
                    + " (build the arbiter binary first)"@
            },
    {
        if !script_is_file {
            return Err(
                ServerError::Message(join2("topology script not found: ", self.script.as_str())),
            );
        }
        if !arbiter_is_file {
            return Err(
                ServerError::Message(
                    join3(
                        "cluster-arbiter not found at ",
                        self.arbiter_bin.as_str(),
                        " (build the arbiter binary first)",
                    ),
                ),
            );
        }
        Ok(())
    }
}

/// Whether a character has the Unicode `White_Space` property.
pub open spec fn white_space(c: char) -> bool {
    ||| '\u{9}' <= c <= '\u{D}'
    ||| c == '\u{20}'
    ||| c == '\u{85}'
    ||| c == '\u{A0}'
    ||| c == '\u{1680}'
    ||| '\u{2000}' <= c <= '\u{200A}'
    ||| c == '\u{2028}'
    ||| c == '\u{2029}'
    ||| c == '\u{202F}'
    ||| c == '\u{205F}'
    ||| c == '\u{3000}'
}

fn is_white_space(c: char) -> (r: bool)
    ensures
        r == white_space(c),
{
    ('\u{9}' <= c && c <= '\u{D}') || c == '\u{20}' || c == '\u{85}' || c == '\u{A0}' || c
        == '\u{1680}' || ('\u{2000}' <= c && c <= '\u{200A}') || c == '\u{2028}' || c
        == '\u{2029}' || c == '\u{202F}' || c == '\u{205F}' || c == '\u{3000}'
}

/// `r` is `s` without its leading and trailing white space.
pub open spec fn is_trimmed(s: Seq<char>, r: Seq<char>) -> bool {
    exists|i: int, j: int|
        0 <= i <= j <= s.len() && r == #[trigger] s.subrange(i, j) && (forall|k: int|
            0 <= k < i ==> white_space(#[trigger] s[k])) && (forall|k: int|
            j <= k < s.len() ==> white_space(#[trigger] s[k])) && (i < j ==> !white_space(s[i])
            && !white_space(s[j - 1]))
}

/// A text has one trimmed form.
pub proof fn trimming_is_unique(s: Seq<char>, a: Seq<char>, b: Seq<char>)
    requires
        is_trimmed(s, a),
        is_trimmed(s, b),
    ensures
        a == b,
{
    let (i, j) = choose|i: int, j: int|
        0 <= i <= j <= s.len() && a == #[trigger] s.subrange(i, j) && (forall|k: int|
            0 <= k < i ==> white_space(#[trigger] s[k])) && (forall|k: int|
            j <= k < s.len() ==> white_space(#[trigger] s[k])) && (i < j ==> !white_space(s[i])
            && !white_space(s[j - 1]));
    let (l, m) = choose|l: int, m: int|
        0 <= l <= m <= s.len() && b == #[trigger] s.subrange(l, m) && (forall|k: int|
            0 <= k < l ==> white_space(#[trigger] s[k])) && (forall|k: int|
            m <= k < s.len() ==> white_space(#[trigger] s[k])) && (l < m ==> !white_space(s[l])
            && !white_space(s[m - 1]));
    if i < j && l < m {
        assert(i == l);
        assert(j == m);
    } else if i < j {
        assert(white_space(s[i]));
    } else if l < m {
        assert(white_space(s[l]));
    }
    assert(a == b);
}

fn trim(s: &str) -> (r: String)
    ensures
        is_trimmed(s@, r@),
{
    let mut chars: Vec<char> = Vec::new();
    for c in iter: s.chars()
        invariant
            iter.seq() == s@,
            chars@ == s@.take(iter.index()),
    {
        chars.push(c);
        assert(chars@ == s@.take(iter.index() + 1));
    }
    assert(s@.take(s@.len() as int) == s@);
    let mut i: usize = 0;
    while i < chars.len() && is_white_space(chars[i])
        invariant
            i <= chars@.len(),
            forall|k: int| 0 <= k < i ==> white_space(#[trigger] chars@[k]),
        decreases chars@.len() - i,
    {
        i += 1;
    }
    let mut j: usize = chars.len();
    while j > i && is_white_space(chars[j - 1])
        invariant
            i <= j <= chars@.len(),
            forall|k: int| j <= k < chars@.len() ==> white_space(#[trigger] chars@[k]),
        decreases j,
    {
        j -= 1;
    }
    let mut out = String::new();
    let mut k: usize = i;
    while k < j
        invariant
            i <= k <= j <= chars@.len(),
            out@ == chars@.subrange(i as int, k as int),
        decreases j - k,
    {
        out.push(chars[k]);
        k += 1;
        assert(out@ == chars@.subrange(i as int, k as int));
    }
    assert(out@ == s@.subrange(i as int, j as int));
    out
}

/// What a finished topology script has handed over: its standard output
/// without surrounding white space, unless it failed or wrote nothing.
pub fn python_output(success: bool, status: String, stdout: &str, stderr: String) -> (r: Result<
    String,
    ServerError,
>)
    ensures
        match r {
            Ok(text) => success && text@.len() > 0 && is_trimmed(stdout@, text@),
            Err(ServerError::PythonFailed { status: st, stderr: e }) => !success && st == status
                && e == stderr,
            Err(ServerError::Message(message)) => success && is_trimmed(stdout@, seq![])
                && message@ == "python topology script produced empty stdout"@,
            Err(_) => false,
        },
{
    if !success {
        return Err(ServerError::PythonFailed { status, stderr });
    }
    let text = trim(stdout);
    if text.as_str().unicode_len() == 0 {
        assert(text@ == Seq::<char>::empty());
        return Err(ServerError::Message("python topology script produced empty stdout".to_owned()));
    }
    Ok(text)
}

/// Search path for the script interpreter: the extra directory goes first.
pub fn prepend_pythonpath(extra: &str, existing: Option<&str>) -> (r: String)
    ensures
        r@ == match existing {
            Some(prev) => extra@ + ":"@ + prev@,
            None => extra@,
        },
{
    match existing {
        Some(prev) => join3(extra, ":", prev),
        None => extra.to_owned(),
    }
}

/// Name of the file through which the server hands the topology on.
pub fn topology_file_name(nanos: u128) -> (r: String)
    ensures
        r@ == "sim-cluster-topology-"@ + dec(nanos as nat) + ".json"@,
{
    let mut s = "sim-cluster-topology-".to_owned();
    push_dec(&mut s, nanos);
    s.append(".json");
    s
}

/// How many directories above the server's program are looked at.
pub const PACKAGE_SEARCH_DEPTH: usize = 6;

/// Where the description package may be: beside the manifest, then in each of
/// the nearest directories above the program.
pub open spec fn candidate_texts(manifest_dir: Option<&str>, above: Seq<String>, n: nat) -> Seq<
    Seq<char>,
>
    decreases n,
{
    if n == 0 {
        match manifest_dir {
            Some(dir) => seq![path_below(dir@, "../python"@)],
            None => seq![],
        }
    } else {
        candidate_texts(manifest_dir, above, (n - 1) as nat).push(
            path_below(above[n - 1]@, "python"@),
        )
    }
}

/// Directories in which the description package is looked for, in order.
/// `above` are the directories above the program, nearest first.
pub fn python_candidates(manifest_dir: Option<&str>, above: &Vec<String>) -> (r: Vec<String>)
    ensures
        texts_of(r@) == candidate_texts(
            manifest_dir,
            above@,
            if above@.len() < 6 {
                above@.len()
            } else {
                6
            },
        ),
{
    let mut out: Vec<String> = Vec::new();
    if let Some(dir) = manifest_dir {
        out.push(join_path(dir, "../python"));
    }
    assert(texts_of(out@) == candidate_texts(manifest_dir, above@, 0));
    let mut i: usize = 0;
    while i < above.len() && i < PACKAGE_SEARCH_DEPTH
        invariant
            i <= above@.len(),
            i <= PACKAGE_SEARCH_DEPTH,
            texts_of(out@) == candidate_texts(manifest_dir, above@, i as nat),
        decreases above@.len() - i,
    {
        let ghost before = out@;
        out.push(join_path(above[i].as_str(), "python"));
        i += 1;
        assert(texts_of(out@) == texts_of(before).push(
            out@.last()@,
        ));
    }
    out
}

/// The first candidate in which the package was found.
pub fn choose_package_root(candidates: &Vec<String>, found: &Vec<bool>) -> (r: Result<
    String,
    ServerError,
>)
    requires
        candidates@.len() == found@.len(),
    ensures
        match r {
            Ok(root) => exists|i: int|
                0 <= i < found@.len() && #[trigger] found@[i] && (forall|k: int|
                    0 <= k < i ==> !#[trigger] found@[k]) && root == candidates@[i],
            Err(e) => (forall|k: int| 0 <= k < found@.len() ==> !#[trigger] found@[k]) && (
            e matches ServerError::Message(message) && message@
                == "could not locate python/topology_dsl; set ServerOptions.python_path"@),
        },
{
    let mut i: usize = 0;
    while i < found.len()
        invariant
            i <= found@.len() == candidates@.len(),
            forall|k: int| 0 <= k < i ==> !#[trigger] found@[k],
        decreases found@.len() - i,
    {
        if found[i] {
            return Ok(candidates[i].clone());
        }
        i += 1;
    }
    Err(
        ServerError::Message(
            "could not locate python/topology_dsl; set ServerOptions.python_path".to_owned(),
        ),
    )
}

/// What an attempt to take the lock came back with.
#[derive(Clone, Copy, Debug, PartialEq, Eq, Structural)]
pub enum LockAttempt {
    /// The lock is ours.
    Held,
    /// It would block: another process holds it.
    Busy,
    /// Another failure of the operating system.
    Failed,
}

/// Decide on an attempt to take the lock at `path`; `what` tells of another failure.
pub fn lock_result(attempt: LockAttempt, path: &str, what: &str) -> (r: Result<(), ServerError>)
    ensures
        r is Ok <==> attempt == LockAttempt::Held,
        attempt == LockAttempt::Busy ==> (r matches Err(ServerError::AlreadyRunning(p)) && p@
            == path@),
        attempt == LockAttempt::Failed ==> (r matches Err(ServerError::Io(w)) && w@ == what@),
{
    match attempt {
        LockAttempt::Held => Ok(()),
        LockAttempt::Busy => Err(ServerError::AlreadyRunning(path.to_owned())),
        LockAttempt::Failed => Err(ServerError::Io(what.to_owned())),
    }
}

/// Exit code of the server: that of the arbiter, or one where it has none.
pub fn exit_code(arbiter: Option<i32>) -> (r: i32)
    ensures
        r == match arbiter {
            Some(code) => code,
            None => 1i32,
        },
{
    match arbiter {
        Some(code) => code,
        None => 1,
    }
}

/// Among the ASCII characters the blank and the controls from tab to carriage
/// return are white space, and no others.
pub proof fn ascii_white_space(c: char)
    requires
        c < '\u{80}',
    ensures
        white_space(c) <==> c == ' ' || c == '\t' || c == '\n' || c == '\r' || c == '\u{B}' || c
            == '\u{C}',
{
}

/// The description package is looked for beside the manifest first, where there
/// is one, and then in the directories above the program, nearest first.
pub proof fn candidates_keep_their_order(
    manifest_dir: Option<&str>,
    above: Seq<String>,
    n: nat,
    i: nat,
)
    ensures
        ({
            let texts = candidate_texts(manifest_dir, above, n);
            let first: nat = if manifest_dir is Some {
                1
            } else {
                0
            };
            &&& texts.len() == first + n
            &&& manifest_dir matches Some(dir) ==> texts[0] == path_below(dir@, "../python"@)
            &&& i < n ==> texts[(first + i) as int] == path_below(above[i as int]@, "python"@)
        }),
    decreases n,
{
    if n > 0 {
        candidates_keep_their_order(manifest_dir, above, (n - 1) as nat, i);
    }
}

/// Trimming takes white space away from both ends, all that is there, and
/// nothing else.
pub proof fn trimming_takes_only_white_space(s: Seq<char>, r: Seq<char>)
    requires
        is_trimmed(s, r),
    ensures
        r.len() > 0 ==> !white_space(r[0]) && !white_space(r.last()),
        exists|before: Seq<char>, after: Seq<char>|
            s == #[trigger] (before + r + after) && (forall|k: int|
                0 <= k < before.len() ==> white_space(#[trigger] before[k])) && (forall|k: int|
                0 <= k < after.len() ==> white_space(#[trigger] after[k])),
{
    let (i, j) = choose|i: int, j: int|
        0 <= i <= j <= s.len() && r == #[trigger] s.subrange(i, j) && (forall|k: int|
            0 <= k < i ==> white_space(#[trigger] s[k])) && (forall|k: int|
            j <= k < s.len() ==> white_space(#[trigger] s[k])) && (i < j ==> !white_space(s[i])
            && !white_space(s[j - 1]));
    let before = s.take(i);
    let after = s.skip(j);
    assert(s =~= before + r + after);
}

} // verus!
