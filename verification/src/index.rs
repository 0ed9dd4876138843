//! Construction of the sorted index tables: (key, identifier) pairs held in
//! strictly ascending key order so that lookup is a binary search. Each key
//! is inserted at its sorted position; a key equal to one already present
//! means the source data broke its uniqueness guarantee, which is fatal.
use vstd::prelude::*;

use crate::text::{
    chars_eq, chars_lt, lemma_lex_asym, lemma_lex_total, lemma_lex_trans, lex_lt,
};

verus! {

/// Strict ascent of index keys by lexicographic order: what binary search
/// relies on, and what rules duplicate keys out.
pub open spec fn strictly_ascending(idx: Seq<(Vec<char>, u8)>) -> bool {
    forall|i: int, j: int|
        0 <= i < j < idx.len() ==> lex_lt((#[trigger] idx[i]).0@, (#[trigger] idx[j]).0@)
}

/// Each entry pairs a key with the identifier whose key it is.
pub open spec fn entries_match(idx: Seq<(Vec<char>, u8)>, keys: Seq<Seq<char>>) -> bool {
    forall|j: int|
        0 <= j < idx.len() ==> (#[trigger] idx[j]).1 < keys.len() && idx[j].0@ == keys[idx[j].1 as int]
}

/// Some entry carries the identifier `id`.
pub open spec fn has_entry(idx: Seq<(Vec<char>, u8)>, id: int) -> bool {
    exists|j: int| 0 <= j < idx.len() && (#[trigger] idx[j]).1 == id
}

/// Every identifier has an entry.
pub open spec fn entries_complete(idx: Seq<(Vec<char>, u8)>, n: int) -> bool {
    forall|id: int| 0 <= id < n ==> #[trigger] has_entry(idx, id)
}

fn copy_chars(v: &Vec<char>) -> (r: Vec<char>)
    ensures
        r@ == v@,
{
    let mut r: Vec<char> = Vec::new();
    let mut i: usize = 0;
    while i < v.len()
        invariant
            i <= v@.len(),
            r@ == v@.take(i as int),
        decreases v@.len() - i,
    {
        r.push(v[i]);
        assert(r@ =~= v@.take(i + 1 as int));
        i = i + 1;
    }
    assert(r@ =~= v@);
    r
}

/// Builds one sorted index table over the given keys, identifier `id`
/// keyed by `keys[id]`; fails exactly when two keys are equal, since then
/// no strictly ascending table exists.
#[verifier::loop_isolation(false)]
pub fn build_sorted_index(keys: &Vec<Vec<char>>) -> (r: Option<Vec<(Vec<char>, u8)>>)
    requires
        keys@.len() <= 255,
    ensures
        match r {
            Some(idx) => {
                &&& idx@.len() == keys@.len()
                &&& strictly_ascending(idx@)
                &&& entries_match(idx@, keys.deep_view())
                &&& entries_complete(idx@, keys@.len() as int)
                &&& forall|i: int, j: int|
                    0 <= i < j < keys@.len() ==> keys.deep_view()[i] != keys.deep_view()[j]
            },
            None => exists|i: int, j: int|
                0 <= i < j < keys@.len() && keys.deep_view()[i] == keys.deep_view()[j],
        },
{
    let n = keys.len();
    let ghost kv = keys.deep_view();
    let mut idx: Vec<(Vec<char>, u8)> = Vec::new();
    let mut id: usize = 0;
    while id < n
        invariant
            id <= n,
            idx@.len() == id,
            strictly_ascending(idx@),
            entries_match(idx@, kv),
            forall|j: int| 0 <= j < idx@.len() ==> (#[trigger] idx@[j]).1 < id,
            entries_complete(idx@, id as int),
        decreases n - id,
    {
        let key = copy_chars(&keys[id]);
        proof {
            assert(key@ == kv[id as int]);
        }
        let mut pos: usize = 0;
        while pos < idx.len() && chars_lt(&idx[pos].0, &key)
            invariant
                pos <= idx@.len(),
                forall|j: int| 0 <= j < pos ==> lex_lt((#[trigger] idx@[j]).0@, key@),
            decreases idx@.len() - pos,
        {
            pos = pos + 1;
        }
        if pos < idx.len() {
            if chars_eq(&idx[pos].0, &key) {
                proof {
                    let j0 = idx@[pos as int].1 as int;
                    assert(0 <= j0 < id);
                    assert(kv[j0] == kv[id as int]);
                }
                return None;
            }
            proof {
                lemma_lex_total(idx@[pos as int].0@, key@);
                assert(lex_lt(key@, idx@[pos as int].0@));
            }
        }
        let ghost old_idx = idx@;
        idx.insert(pos, (key, id as u8));
        proof {
            old_idx.insert_ensures(pos as int, (key, id as u8));
            assert(idx@ == old_idx.insert(pos as int, (key, id as u8)));
            // strict ascent is preserved around the insertion point
            assert forall|a: int, b: int| 0 <= a < b < idx@.len() implies lex_lt(
                (#[trigger] idx@[a]).0@,
                (#[trigger] idx@[b]).0@,
            ) by {
                let p = pos as int;
                if a < p && b < p {
                } else if a < p && b == p {
                } else if a < p && b > p {
                    if p < b - 1 {
                        lemma_lex_trans(idx@[a].0@, key@, old_idx[p].0@);
                        lemma_lex_trans(idx@[a].0@, old_idx[p].0@, old_idx[b - 1].0@);
                    } else {
                        lemma_lex_trans(idx@[a].0@, key@, old_idx[b - 1].0@);
                    }
                } else if a == p {
                    if p < b - 1 {
                        lemma_lex_trans(key@, old_idx[p].0@, old_idx[b - 1].0@);
                    }
                } else {
                }
            }
            // every previously placed identifier keeps an entry, one slot on
            assert forall|d: int| 0 <= d < id + 1 implies #[trigger] has_entry(idx@, d) by {
                if d == id {
                    assert(idx@[pos as int].1 == d);
                } else {
                    assert(has_entry(old_idx, d));
                    let j0 = choose|j: int| 0 <= j < old_idx.len() && (#[trigger] old_idx[j]).1 == d;
                    if j0 < pos {
                        assert(idx@[j0].1 == d);
                    } else {
                        assert(idx@[j0 + 1].1 == d);
                    }
                }
            }
        }
        id = id + 1;
    }
    proof {
        // a strictly ascending, complete table exists, so the keys are
        // pairwise distinct
        assert forall|i: int, j: int| 0 <= i < j < kv.len() implies kv[i] != kv[j] by {
            assert(has_entry(idx@, i));
            assert(has_entry(idx@, j));
            let pi = choose|p: int| 0 <= p < idx@.len() && (#[trigger] idx@[p]).1 == i;
            let pj = choose|p: int| 0 <= p < idx@.len() && (#[trigger] idx@[p]).1 == j;
            assert(idx@[pi].0@ == kv[i]);
            assert(idx@[pj].0@ == kv[j]);
            if kv[i] == kv[j] {
                if pi < pj {
                    lemma_lex_asym(idx@[pi].0@, idx@[pj].0@);
                } else {
                    assert(pi != pj);
                    lemma_lex_asym(idx@[pj].0@, idx@[pi].0@);
                }
            }
        }
    }
    Some(idx)
}

} // verus!
