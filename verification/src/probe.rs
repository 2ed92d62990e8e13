//! The collision-suffix probe shared by artists and albums. Entries are
//! `(unique key, display name)` pairs; probing a display name tries the keys
//! `slug`, `slug-1`, `slug-2`, ... and stops at the first key that is free or
//! is held by an entry with the same display name.
use vstd::prelude::*;

use crate::slug::key_at;
use crate::slug::lemma_key_at_injective;
use crate::slug::slug_of;
use vstd::set_lib::lemma_int_range;
use vstd::set_lib::lemma_len_subset;
use vstd::set_lib::set_int_range;

verus! {

/// Some entry holds this key.
pub open spec fn has_key(es: Seq<(Seq<char>, Seq<char>)>, key: Seq<char>) -> bool {
    exists|i: int| 0 <= i < es.len() && es[i].0 == key
}

/// The position of the entry holding this key; meaningful when the keys are
/// unique and the key is held at all.
pub open spec fn idx_of(es: Seq<(Seq<char>, Seq<char>)>, key: Seq<char>) -> int {
    choose|i: int| 0 <= i < es.len() && es[i].0 == key
}

/// No two entries hold the same key.
pub open spec fn unique_keys(es: Seq<(Seq<char>, Seq<char>)>) -> bool {
    forall|i: int, j: int| 0 <= i < j < es.len() ==> es[i].0 != es[j].0
}

pub proof fn lemma_idx_of(es: Seq<(Seq<char>, Seq<char>)>, key: Seq<char>)
    requires
        has_key(es, key),
    ensures
        0 <= idx_of(es, key) < es.len(),
        es[idx_of(es, key)].0 == key,
{
}

/// Under unique keys, any position holding the key is the position.
pub proof fn lemma_idx_of_unique(es: Seq<(Seq<char>, Seq<char>)>, key: Seq<char>, i: int)
    requires
        unique_keys(es),
        0 <= i < es.len(),
        es[i].0 == key,
    ensures
        idx_of(es, key) == i,
{
    assert(has_key(es, key));
    lemma_idx_of(es, key);
}

/// Probing for `name` may stop at step `k`.
pub open spec fn probe_stop(es: Seq<(Seq<char>, Seq<char>)>, name: Seq<char>, k: nat) -> bool {
    let key = key_at(slug_of(name), k);
    !has_key(es, key) || es[idx_of(es, key)].1 == name
}

/// `k` is the first step probing for `name` stops at.
pub open spec fn probe_first(es: Seq<(Seq<char>, Seq<char>)>, name: Seq<char>, k: nat) -> bool {
    probe_stop(es, name, k) && (forall|j: nat| j < k ==> !probe_stop(es, name, j))
}

/// The step probing for `name` stops at; meaningful when some step stops.
pub open spec fn probe_k(es: Seq<(Seq<char>, Seq<char>)>, name: Seq<char>) -> nat {
    choose|k: nat| probe_first(es, name, k)
}

pub proof fn lemma_probe_first_unique(
    es: Seq<(Seq<char>, Seq<char>)>,
    name: Seq<char>,
    k1: nat,
    k2: nat,
)
    requires
        probe_first(es, name, k1),
        probe_first(es, name, k2),
    ensures
        k1 == k2,
{
    if k1 < k2 {
        assert(!probe_stop(es, name, k1));
    } else if k2 < k1 {
        assert(!probe_stop(es, name, k2));
    }
}

/// A witnessed first stop is the probe's stop.
pub proof fn lemma_probe_first_k(es: Seq<(Seq<char>, Seq<char>)>, name: Seq<char>, k: nat)
    requires
        probe_first(es, name, k),
    ensures
        probe_k(es, name) == k,
        probe_first(es, name, probe_k(es, name)),
{
    let kk = choose|kk: nat| probe_first(es, name, kk);
    lemma_probe_first_unique(es, name, k, kk);
}

/// The pigeonhole bound: distinct steps probe distinct keys, and every step
/// that does not stop names a distinct entry, so within `es.len() + 1` steps
/// one must stop.
pub proof fn lemma_probe_bound(es: Seq<(Seq<char>, Seq<char>)>, name: Seq<char>, k: nat)
    requires
        unique_keys(es),
        forall|j: nat| j <= k ==> !probe_stop(es, name, j),
    ensures
        k < es.len(),
{
    let slug = slug_of(name);
    let idxs = Seq::new(k + 1, |j: int| idx_of(es, key_at(slug, j as nat)));
    assert forall|j: int| 0 <= j <= k implies 0 <= #[trigger] idxs[j] < es.len() && es[idxs[j]].0
        == key_at(slug, j as nat) by {
        assert(!probe_stop(es, name, j as nat));
        assert(has_key(es, key_at(slug, j as nat)));
        lemma_idx_of(es, key_at(slug, j as nat));
    }
    assert(idxs.no_duplicates()) by {
        assert forall|i: int, j: int| 0 <= i < j < idxs.len() implies idxs[i] != idxs[j] by {
            if idxs[i] == idxs[j] {
                assert(es[idxs[i]].0 == key_at(slug, i as nat));
                assert(es[idxs[j]].0 == key_at(slug, j as nat));
                lemma_key_at_injective(slug, i as nat, j as nat);
            }
        }
    }
    idxs.unique_seq_to_set();
    let range = set_int_range(0, es.len() as int);
    lemma_int_range(0, es.len() as int);
    assert(idxs.to_set().subset_of(range)) by {
        assert forall|x: int| idxs.to_set().contains(x) implies range.contains(x) by {
            assert(idxs.contains(x));
            let j = choose|j: int| 0 <= j < idxs.len() && idxs[j] == x;
            assert(0 <= idxs[j] < es.len());
        }
    }
    lemma_len_subset(idxs.to_set(), range);
}

/// Probing always stops within `es.len() + 1` steps.
pub proof fn lemma_probe_exists(es: Seq<(Seq<char>, Seq<char>)>, name: Seq<char>)
    requires
        unique_keys(es),
    ensures
        exists|k: nat| #[trigger] probe_first(es, name, k) && k <= es.len(),
{
    if forall|j: nat| j <= es.len() ==> !(#[trigger] probe_stop(es, name, j)) {
        lemma_probe_bound(es, name, es.len());
        assert(false);
    }
    let k = choose|k: nat| k <= es.len() && #[trigger] probe_stop(es, name, k);
    assert(k <= es.len() && probe_stop(es, name, k));
    lemma_first_of_stop(es, name, k);
    let f = choose|f: nat| #[trigger] probe_first(es, name, f) && f <= k;
    assert(probe_first(es, name, f) && f <= es.len());
}

/// Below any stopping step lies a first stopping step.
proof fn lemma_first_of_stop(es: Seq<(Seq<char>, Seq<char>)>, name: Seq<char>, k: nat)
    requires
        probe_stop(es, name, k),
    ensures
        exists|f: nat| #[trigger] probe_first(es, name, f) && f <= k,
    decreases k,
{
    if forall|j: nat| j < k ==> !probe_stop(es, name, j) {
        assert(probe_first(es, name, k));
    } else {
        let j = choose|j: nat| j < k && #[trigger] probe_stop(es, name, j);
        lemma_first_of_stop(es, name, j);
        let f = choose|f: nat| #[trigger] probe_first(es, name, f) && f <= j;
        assert(probe_first(es, name, f) && f <= k);
    }
}

} // verus!
