//! Identity and root directory of a cluster instance.

use vstd::prelude::*;
use vstd::string::{StrSliceExecFns, StringExecFns};

use crate::text::{dec, push_dec};

verus! {

/// Directory name of a cluster's root, below the runtime directory.
pub fn root_dir_name(cluster_key: &str) -> (r: String)
    ensures
        r@ == "iox-"@ + cluster_key@,
{
    let mut s = "iox-".to_owned();
    s.append(cluster_key);
    s
}

/// A directory path in the form in which it is handed on: with a separator at
/// its end.
pub open spec fn with_trailing_separator(path: Seq<char>) -> Seq<char> {
    if path.len() > 0 && path.last() == '/' {
        path
    } else {
        path.push('/')
    }
}

/// The bytes of a directory path, with a separator at its end.
pub fn path_as_bytes(path: &str) -> (r: Vec<u8>)
    ensures
        r@ == vstd::utf8::encode_utf8(with_trailing_separator(path@)),
{
    let n = path.unicode_len();
    let mut owned = path.to_owned();
    if n == 0 || path.get_char(n - 1) != '/' {
        owned.push('/');
    }
    owned.as_str().as_bytes_vec()
}

/// Unique key of a cluster: the process id and the time of its start.
pub fn cluster_key(process_id: u32, nanos: u128) -> (r: String)
    ensures
        r@ == dec(process_id as nat) + "-"@ + dec(nanos as nat),
{
    let mut s = String::new();
    push_dec(&mut s, process_id as u128);
    s.append("-");
    push_dec(&mut s, nanos);
    assert(s@ == dec(process_id as nat) + "-"@ + dec(nanos as nat));
    s
}

/// A directory path is handed on with exactly one separator more where it ends
/// in none, and as it is where it ends in one.
pub proof fn handed_path_ends_in_separator(path: Seq<char>)
    ensures
        with_trailing_separator(path).len() > 0,
        with_trailing_separator(path).last() == '/',
        with_trailing_separator(path).take(path.len() as int) == path,
        with_trailing_separator(path).len() <= path.len() + 1,
        path.len() > 0 && path.last() == '/' ==> with_trailing_separator(path) == path,
{
    assert(with_trailing_separator(path).take(path.len() as int) =~= path);
}

} // verus!
