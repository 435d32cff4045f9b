use vstd::prelude::*;

verus! {

/// The map that an association list denotes; later entries win.
pub open spec fn to_map<K, V>(s: Seq<(K, V)>) -> Map<K, V>
    decreases s.len(),
{
    if s.len() == 0 {
        Map::empty()
    } else {
        to_map(s.drop_last()).insert(s.last().0, s.last().1)
    }
}

/// No key occurs twice.
pub open spec fn keys_unique<K, V>(s: Seq<(K, V)>) -> bool {
    forall|i: int, j: int| 0 <= i < j < s.len() ==> s[i].0 != s[j].0
}

/// Position of `k` among the keys of `s`, when present.
pub open spec fn key_at<K, V>(s: Seq<(K, V)>, k: K, i: int) -> bool {
    0 <= i < s.len() && s[i].0 == k
}

pub proof fn lemma_to_map<K, V>(s: Seq<(K, V)>)
    requires
        keys_unique(s),
    ensures
        to_map(s).dom().finite(),
        to_map(s).dom().len() == s.len(),
        forall|k: K| #[trigger]
            to_map(s).contains_key(k) <==> exists|i: int| key_at(s, k, i),
        forall|i: int| 0 <= i < s.len() ==> #[trigger] to_map(s)[s[i].0] == s[i].1,
    decreases s.len(),
{
    if s.len() > 0 {
        let p = s.drop_last();
        assert(keys_unique(p));
        lemma_to_map(p);
        let last = s.last();
        assert(!to_map(p).contains_key(last.0)) by {
            if to_map(p).contains_key(last.0) {
                let i = choose|i: int| key_at(p, last.0, i);
                assert(s[i].0 == s[s.len() - 1].0);
            }
        }
        assert forall|k: K| #[trigger]
            to_map(s).contains_key(k) <==> exists|i: int| key_at(s, k, i) by {
            assert(to_map(s).contains_key(k) == (k == last.0 || to_map(p).contains_key(k)));
            if k == last.0 {
                assert(key_at(s, k, s.len() - 1));
            }
            if to_map(s).contains_key(k) && k != last.0 {
                assert(to_map(p).contains_key(k));
                let i = choose|i: int| key_at(p, k, i);
                assert(key_at(s, k, i));
            }
            if exists|i: int| key_at(s, k, i) {
                let i = choose|i: int| key_at(s, k, i);
                if i < p.len() {
                    assert(key_at(p, k, i));
                }
            }
        }
        assert forall|i: int| 0 <= i < s.len() implies #[trigger] to_map(s)[s[i].0] == s[i].1 by {
            if i < p.len() {
                assert(p[i] == s[i]);
                assert(s[i].0 != last.0);
            }
        }
    }
}

/// Replacing the value of the entry at `i` replaces it in the map.
pub proof fn lemma_to_map_update<K, V>(s: Seq<(K, V)>, i: int, v: V)
    requires
        keys_unique(s),
        0 <= i < s.len(),
    ensures
        keys_unique(s.update(i, (s[i].0, v))),
        to_map(s.update(i, (s[i].0, v))) == to_map(s).insert(s[i].0, v),
{
    let t = s.update(i, (s[i].0, v));
    assert(keys_unique(t));
    lemma_to_map(s);
    lemma_to_map(t);
    assert forall|k: K| #[trigger] to_map(t).contains_key(k) <==> to_map(s).insert(
        s[i].0,
        v,
    ).contains_key(k) by {
        if exists|j: int| key_at(t, k, j) {
            let j = choose|j: int| key_at(t, k, j);
            assert(key_at(s, k, j));
        }
        if exists|j: int| key_at(s, k, j) {
            let j = choose|j: int| key_at(s, k, j);
            assert(key_at(t, k, j));
        }
        if k == s[i].0 {
            assert(key_at(t, k, i));
        }
    }
    assert forall|k: K| #[trigger] to_map(t).contains_key(k) implies to_map(t)[k] == to_map(
        s,
    ).insert(s[i].0, v)[k] by {
        let j = choose|j: int| key_at(t, k, j);
        assert(t[j].0 == k);
        if j != i {
            assert(t[j] == s[j]);
        }
    }
    assert(to_map(t) =~= to_map(s).insert(s[i].0, v));
}

/// Adding an entry with a fresh key at position `pos` adds it to the map.
pub proof fn lemma_to_map_insert<K, V>(s: Seq<(K, V)>, pos: int, k: K, v: V)
    requires
        keys_unique(s),
        0 <= pos <= s.len(),
        !to_map(s).contains_key(k),
    ensures
        keys_unique(s.insert(pos, (k, v))),
        to_map(s.insert(pos, (k, v))) == to_map(s).insert(k, v),
{
    let t = s.insert(pos, (k, v));
    lemma_to_map(s);
    assert forall|j: int| 0 <= j < s.len() implies s[j].0 != k by {
        if s[j].0 == k {
            assert(key_at(s, k, j));
        }
    }
    assert forall|a: int, b: int| 0 <= a < b < t.len() implies t[a].0 != t[b].0 by {
        if a < pos {
            assert(t[a] == s[a]);
        } else if a > pos {
            assert(t[a] == s[a - 1]);
        }
        if b < pos {
            assert(t[b] == s[b]);
        } else if b > pos {
            assert(t[b] == s[b - 1]);
        }
    }
    lemma_to_map(t);
    assert forall|q: K| #[trigger] to_map(t).contains_key(q) <==> to_map(s).insert(
        k,
        v,
    ).contains_key(q) by {
        if exists|j: int| key_at(t, q, j) {
            let j = choose|j: int| key_at(t, q, j);
            if j < pos {
                assert(key_at(s, q, j));
            } else if j > pos {
                assert(key_at(s, q, j - 1));
            }
        }
        if exists|j: int| key_at(s, q, j) {
            let j = choose|j: int| key_at(s, q, j);
            if j < pos {
                assert(key_at(t, q, j));
            } else {
                assert(key_at(t, q, j + 1));
            }
        }
        if q == k {
            assert(key_at(t, q, pos));
        }
    }
    assert forall|q: K| #[trigger] to_map(t).contains_key(q) implies to_map(t)[q] == to_map(
        s,
    ).insert(k, v)[q] by {
        let j = choose|j: int| key_at(t, q, j);
        if j < pos {
            assert(t[j] == s[j]);
        } else if j > pos {
            assert(t[j] == s[j - 1]);
        }
    }
    assert(to_map(t) =~= to_map(s).insert(k, v));
}

} // verus!
