//! Deterministic board-id hashing for wire payloads.

use std::collections::HashMap;

use vstd::prelude::*;
use vstd::string::StringExecFns;

use crate::text::{hex, push_hex};

verus! {

broadcast use vstd::std_specs::hash::group_hash_axioms;

/// What `xxhash_rust::xxh3::xxh3_64` returns for these bytes.
pub uninterp spec fn xxh3(data: Seq<u8>) -> u64;

/// `xxhash_rust::xxh3::xxh3_64`: the unseeded 64-bit XXH3 hash, a function of
/// the bytes alone.
#[verifier::external_body]
fn xxh3_of(data: &[u8]) -> (r: u64)
    ensures
        r == xxh3(data@),
{
    xxhash_rust::xxh3::xxh3_64(data)
}

/// Hash of a board id: that of its UTF-8 bytes.
pub open spec fn id_hash(id: Seq<char>) -> u64 {
    xxh3(vstd::utf8::encode_utf8(id))
}

/// Stable 64-bit hash of a board id. Same input, same hash across processes.
pub fn board_id_hash(board_id: &str) -> (r: u64)
    ensures
        r == id_hash(board_id@),
{
    xxh3_of(board_id.as_bytes())
}

/// The `i`-th hash occurs before.
pub open spec fn collides(hashes: Seq<u64>, i: int) -> bool {
    exists|j: int| 0 <= j < i && #[trigger] hashes[j] == hashes[i]
}

/// `table` looks every hash up to its id and holds nothing else.
pub open spec fn is_reverse_lookup(
    ids: Seq<&str>,
    hashes: Seq<u64>,
    table: Map<u64, String>,
) -> bool {
    &&& forall|i: int|
        0 <= i < hashes.len() ==> table.contains_key(#[trigger] hashes[i]) && table[hashes[i]]@
            == ids[i]@
    &&& forall|h: u64| #[trigger]
        table.contains_key(h) ==> exists|i: int| 0 <= i < hashes.len() && #[trigger] hashes[i] == h
}

/// Report of the first hash that occurs twice.
pub open spec fn collision_text(id: Seq<char>, hash: u64) -> Seq<char> {
    "board_id hash collision for '"@ + id + "' (hash="@ + hex(hash as nat) + ")"@
}

/// `r` is the reverse lookup of `ids` by `hashes`, or the report of the first
/// of them whose hash occurs before.
pub open spec fn is_hash_table(
    ids: Seq<&str>,
    hashes: Seq<u64>,
    r: Result<HashMap<u64, String>, String>,
) -> bool {
    match r {
        Ok(table) => {
            &&& forall|i: int| 0 <= i < hashes.len() ==> !#[trigger] collides(hashes, i)
            &&& is_reverse_lookup(ids, hashes, table@)
        },
        Err(message) => exists|i: int|
            0 <= i < hashes.len() && #[trigger] collides(hashes, i) && (forall|k: int|
                0 <= k < i ==> !#[trigger] collides(hashes, k)) && message@ == collision_text(
                ids[i]@,
                hashes[i],
            ),
    }
}

/// Build the reverse lookup of ids whose hashes are known; errors if two collide.
pub fn hash_table_of(ids: &Vec<&str>, hashes: &Vec<u64>) -> (r: Result<
    HashMap<u64, String>,
    String,
>)
    requires
        ids@.len() == hashes@.len(),
    ensures
        is_hash_table(ids@, hashes@, r),
{
    let mut table: HashMap<u64, String> = HashMap::new();
    let mut i: usize = 0;
    while i < ids.len()
        invariant
            i <= ids@.len() == hashes@.len(),
            forall|k: int| 0 <= k < i ==> !#[trigger] collides(hashes@, k),
            is_reverse_lookup(ids@, hashes@.take(i as int), table@),
        decreases ids@.len() - i,
    {
        let h = hashes[i];
        let ghost before = hashes@.take(i as int);
        if table.contains_key(&h) {
            proof {
                let j = choose|j: int| 0 <= j < before.len() && #[trigger] before[j] == h;
                assert(hashes@[j] == hashes@[i as int]);
                assert(collides(hashes@, i as int));
            }
            let mut s = "board_id hash collision for '".to_owned();
            s.append(ids[i]);
            s.append("' (hash=");
            push_hex(&mut s, h);
            s.append(")");
            return Err(s);
        }
        table.insert(h, ids[i].to_owned());
        proof {
            assert forall|k: int| 0 <= k < i implies before[k] != h by {}
            assert(!collides(hashes@, i as int)) by {
                if collides(hashes@, i as int) {
                    let j = choose|j: int| 0 <= j < i && #[trigger] hashes@[j] == hashes@[i as int];
                    assert(before[j] == h);
                }
            }
            let after = hashes@.take(i + 1);
            assert(after == before.push(h));
            assert forall|g: u64| #[trigger] table@.contains_key(g) implies exists|k: int|
                0 <= k < after.len() && #[trigger] after[k] == g by {
                if g == h {
                    assert(after[i as int] == g);
                } else {
                    let k = choose|k: int| 0 <= k < before.len() && #[trigger] before[k] == g;
                    assert(after[k] == g);
                }
            }
        }
        i += 1;
    }
    proof {
        assert(hashes@.take(hashes@.len() as int) == hashes@);
    }
    Ok(table)
}

/// The hashes of these ids, in order.
pub open spec fn id_hashes(ids: Seq<&str>) -> Seq<u64> {
    ids.map_values(|id: &str| id_hash(id@))
}

/// Build the reverse lookup from hash to board id; errors if two board ids collide.
pub fn board_hash_table(board_ids: Vec<&str>) -> (r: Result<HashMap<u64, String>, String>)
    ensures
        is_hash_table(board_ids@, id_hashes(board_ids@), r),
{
    let mut hashes: Vec<u64> = Vec::new();
    let mut i: usize = 0;
    while i < board_ids.len()
        invariant
            i <= board_ids@.len(),
            hashes@ == id_hashes(board_ids@).take(i as int),
        decreases board_ids@.len() - i,
    {
        hashes.push(board_id_hash(board_ids[i]));
        i += 1;
        assert(hashes@ == id_hashes(board_ids@).take(i as int));
    }
    assert(hashes@ == id_hashes(board_ids@));
    hash_table_of(&board_ids, &hashes)
}

/// The same id twice is a collision.
pub proof fn equal_ids_collide(ids: Seq<&str>, i: int, j: int)
    requires
        0 <= j < i < ids.len(),
        ids[i]@ == ids[j]@,
    ensures
        collides(id_hashes(ids), i),
{
    assert(id_hashes(ids)[j] == id_hashes(ids)[i]);
}

/// A lookup table comes about exactly when all hashes differ. It then gives
/// each id for its hash and knows no other hash.
pub proof fn distinct_hashes_make_a_table(
    ids: Seq<&str>,
    hashes: Seq<u64>,
    r: Result<HashMap<u64, String>, String>,
)
    requires
        is_hash_table(ids, hashes, r),
    ensures
        r is Ok <==> forall|i: int, j: int|
            0 <= i < j < hashes.len() ==> #[trigger] hashes[i] != #[trigger] hashes[j],
        r matches Ok(table) ==> forall|i: int|
            0 <= i < hashes.len() ==> table@.contains_key(#[trigger] hashes[i])
                && table@[hashes[i]]@ == ids[i]@,
        r matches Ok(table) ==> forall|h: u64|
            (forall|i: int| 0 <= i < hashes.len() ==> #[trigger] hashes[i] != h)
                ==> !#[trigger] table@.contains_key(h),
{
    match r {
        Ok(table) => {
            assert forall|i: int, j: int|
                0 <= i < j < hashes.len() implies #[trigger] hashes[i] != #[trigger] hashes[j] by {
                assert(!collides(hashes, j));
            }
        },
        Err(_) => {
            let i = choose|i: int|
                0 <= i < hashes.len() && #[trigger] collides(hashes, i) && (forall|k: int|
                    0 <= k < i ==> !#[trigger] collides(hashes, k));
            let j = choose|j: int| 0 <= j < i && #[trigger] hashes[j] == hashes[i];
            assert(hashes[j] == hashes[i]);
        },
    }
}

/// The hash of a board id is that of its UTF-8 bytes, all of them and no others.
pub proof fn id_hash_is_of_utf8_bytes(ids: Seq<&str>, i: int)
    requires
        0 <= i < ids.len(),
    ensures
        id_hash(ids[i]@) == xxh3(vstd::utf8::encode_utf8(ids[i]@)),
        id_hashes(ids).len() == ids.len(),
        id_hashes(ids)[i] == xxh3(vstd::utf8::encode_utf8(ids[i]@)),
{
}

/// A collision is told with the id and the hash that collide.
pub proof fn collision_is_told(id: Seq<char>, hash: u64)
    ensures
        collision_text(id, hash).len() == 29 + id.len() + 8 + hex(hash as nat).len() + 1,
        collision_text(id, hash).subrange(29, 29int + id.len()) == id,
        collision_text(id, hash).subrange(
            37int + id.len(),
            37int + id.len() + hex(hash as nat).len(),
        ) == hex(hash as nat),
{
    reveal_strlit("board_id hash collision for '");
    reveal_strlit("' (hash=");
    reveal_strlit(")");
    let text = collision_text(id, hash);
    assert(text.subrange(29, 29int + id.len()) =~= id);
    assert(text.subrange(37int + id.len(), 37int + id.len() + hex(hash as nat).len()) =~= hex(
        hash as nat,
    ));
}

} // verus!
