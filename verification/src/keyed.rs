//! Lists of named items seen as maps from name to item.
//!
//! Databases hold their tables, and the engine its databases, in lists whose
//! names never repeat; the contracts speak of them as maps.

use vstd::prelude::*;

verus! {

/// No name occurs twice.
pub open spec fn unique_keys<V>(e: Seq<(Seq<char>, V)>) -> bool {
    forall|i: int, j: int|
        0 <= i < e.len() && 0 <= j < e.len() && i != j ==> #[trigger] e[i].0 != #[trigger] e[j].0
}

pub open spec fn has_key<V>(e: Seq<(Seq<char>, V)>, k: Seq<char>) -> bool {
    exists|i: int| 0 <= i < e.len() && #[trigger] e[i].0 == k
}

pub open spec fn key_index<V>(e: Seq<(Seq<char>, V)>, k: Seq<char>) -> int {
    choose|i: int| 0 <= i < e.len() && #[trigger] e[i].0 == k
}

/// The map from each name to its item.
pub open spec fn keyed_map<V>(e: Seq<(Seq<char>, V)>) -> Map<Seq<char>, V> {
    Map::new(|k: Seq<char>| has_key(e, k), |k: Seq<char>| e[key_index(e, k)].1)
}

/// The names, in list order.
pub open spec fn keys_of<V>(e: Seq<(Seq<char>, V)>) -> Seq<Seq<char>> {
    e.map_values(|p: (Seq<char>, V)| p.0)
}

pub proof fn lemma_keyed_map_index<V>(e: Seq<(Seq<char>, V)>, i: int)
    requires
        unique_keys(e),
        0 <= i < e.len(),
    ensures
        keyed_map(e).contains_key(e[i].0),
        keyed_map(e)[e[i].0] == e[i].1,
{
    assert(has_key(e, e[i].0));
    let j = key_index(e, e[i].0);
    assert(e[j].0 == e[i].0);
}

pub proof fn lemma_keyed_map_absent<V>(e: Seq<(Seq<char>, V)>, k: Seq<char>)
    requires
        forall|i: int| 0 <= i < e.len() ==> #[trigger] e[i].0 != k,
    ensures
        !keyed_map(e).contains_key(k),
{
}

pub proof fn lemma_keyed_map_push<V>(e: Seq<(Seq<char>, V)>, k: Seq<char>, v: V)
    requires
        unique_keys(e),
        !keyed_map(e).contains_key(k),
    ensures
        unique_keys(e.push((k, v))),
        keyed_map(e.push((k, v))) == keyed_map(e).insert(k, v),
{
    let f = e.push((k, v));
    assert forall|i: int| 0 <= i < e.len() implies #[trigger] e[i].0 != k by {
        if e[i].0 == k {
            assert(has_key(e, k));
        }
    }
    assert forall|i: int, j: int|
        0 <= i < f.len() && 0 <= j < f.len() && i != j implies #[trigger] f[i].0
        != #[trigger] f[j].0 by {
        if i < e.len() && j < e.len() {
            assert(f[i] == e[i] && f[j] == e[j]);
        } else if i < e.len() {
            assert(f[i] == e[i]);
        } else if j < e.len() {
            assert(f[j] == e[j]);
        }
    }
    assert forall|q: Seq<char>| #[trigger] keyed_map(f).contains_key(q) <==> keyed_map(
        e,
    ).insert(k, v).contains_key(q) by {
        if has_key(e, q) {
            let i = key_index(e, q);
            assert(f[i] == e[i]);
        }
        if q == k {
            assert(f[e.len() as int].0 == k);
        }
    }
    assert forall|q: Seq<char>| #[trigger] keyed_map(f).contains_key(q) implies keyed_map(f)[q]
        == keyed_map(e).insert(k, v)[q] by {
        let i = key_index(f, q);
        if q == k {
            lemma_keyed_map_index(f, e.len() as int);
        } else {
            assert(i < e.len());
            assert(f[i] == e[i]);
            lemma_keyed_map_index(e, i);
            lemma_keyed_map_index(f, i);
        }
    }
    assert(keyed_map(f) =~= keyed_map(e).insert(k, v));
}

pub proof fn lemma_keyed_map_remove<V>(e: Seq<(Seq<char>, V)>, i: int)
    requires
        unique_keys(e),
        0 <= i < e.len(),
    ensures
        unique_keys(e.remove(i)),
        keyed_map(e.remove(i)) == keyed_map(e).remove(e[i].0),
{
    let f = e.remove(i);
    let k = e[i].0;
    assert forall|a: int, b: int|
        0 <= a < f.len() && 0 <= b < f.len() && a != b implies #[trigger] f[a].0
        != #[trigger] f[b].0 by {
        let a2 = if a < i {
            a
        } else {
            a + 1
        };
        let b2 = if b < i {
            b
        } else {
            b + 1
        };
        assert(f[a] == e[a2] && f[b] == e[b2]);
    }
    assert forall|q: Seq<char>| #[trigger] keyed_map(f).contains_key(q) <==> keyed_map(
        e,
    ).remove(k).contains_key(q) by {
        if has_key(f, q) {
            let a = key_index(f, q);
            let a2 = if a < i {
                a
            } else {
                a + 1
            };
            assert(f[a] == e[a2]);
            assert(a2 != i);
        }
        if has_key(e, q) && q != k {
            let a = key_index(e, q);
            assert(a != i);
            let a1 = if a < i {
                a
            } else {
                a - 1
            };
            assert(f[a1] == e[a]);
        }
    }
    assert forall|q: Seq<char>| #[trigger] keyed_map(f).contains_key(q) implies keyed_map(f)[q]
        == keyed_map(e).remove(k)[q] by {
        let a = key_index(f, q);
        let a2 = if a < i {
            a
        } else {
            a + 1
        };
        assert(f[a] == e[a2]);
        lemma_keyed_map_index(f, a);
        lemma_keyed_map_index(e, a2);
    }
    assert(keyed_map(f) =~= keyed_map(e).remove(k));
}

pub proof fn lemma_keyed_map_update<V>(e: Seq<(Seq<char>, V)>, i: int, v: V)
    requires
        unique_keys(e),
        0 <= i < e.len(),
    ensures
        unique_keys(e.update(i, (e[i].0, v))),
        keyed_map(e.update(i, (e[i].0, v))) == keyed_map(e).insert(e[i].0, v),
        keys_of(e.update(i, (e[i].0, v))) == keys_of(e),
{
    let k = e[i].0;
    let f = e.update(i, (k, v));
    assert forall|a: int, b: int|
        0 <= a < f.len() && 0 <= b < f.len() && a != b implies #[trigger] f[a].0
        != #[trigger] f[b].0 by {
        assert(f[a].0 == e[a].0 && f[b].0 == e[b].0);
    }
    assert forall|q: Seq<char>| #[trigger] keyed_map(f).contains_key(q) <==> keyed_map(
        e,
    ).insert(k, v).contains_key(q) by {
        if has_key(f, q) {
            let a = key_index(f, q);
            assert(f[a].0 == e[a].0);
        }
        if has_key(e, q) {
            let a = key_index(e, q);
            assert(f[a].0 == e[a].0);
        }
        assert(f[i].0 == k);
    }
    assert forall|q: Seq<char>| #[trigger] keyed_map(f).contains_key(q) implies keyed_map(f)[q]
        == keyed_map(e).insert(k, v)[q] by {
        let a = key_index(f, q);
        lemma_keyed_map_index(f, a);
        if a != i {
            assert(f[a] == e[a]);
            lemma_keyed_map_index(e, a);
        }
    }
    assert(keyed_map(f) =~= keyed_map(e).insert(k, v));
    assert(keys_of(f) =~= keys_of(e));
}

} // verus!
