//! The map model of an association list. The registry and the client's
//! player dictionary both store key-value pairs in a vector with unique
//! keys; these definitions give such a vector its `Map` view and relate
//! the vector operations to map operations.

use vstd::prelude::*;

verus! {

/// The map an association sequence stands for; later entries win.
pub open spec fn assoc_view<K, V>(s: Seq<(K, V)>) -> Map<K, V>
    decreases s.len(),
{
    if s.len() == 0 {
        Map::empty()
    } else {
        assoc_view(s.drop_last()).insert(s.last().0, s.last().1)
    }
}

/// No key appears twice.
pub open spec fn unique_keys<K, V>(s: Seq<(K, V)>) -> bool {
    forall|i: int, j: int| 0 <= i < j < s.len() ==> (#[trigger] s[i]).0 != (#[trigger] s[j]).0
}

/// A key is in the view exactly when some entry holds it.
pub proof fn lemma_assoc_contains<K, V>(s: Seq<(K, V)>, k: K)
    ensures
        assoc_view(s).contains_key(k) <==> exists|i: int| 0 <= i < s.len() && (#[trigger] s[i]).0
            == k,
    decreases s.len(),
{
    if s.len() > 0 {
        lemma_assoc_contains(s.drop_last(), k);
        if s.last().0 == k {
            assert((#[trigger] s[s.len() - 1]).0 == k);
        } else if assoc_view(s).contains_key(k) {
            let i = choose|i: int| 0 <= i < s.drop_last().len() && (#[trigger] s.drop_last()[i]).0
                == k;
            assert((#[trigger] s[i]).0 == k);
        } else if exists|i: int| 0 <= i < s.len() && (#[trigger] s[i]).0 == k {
            let i = choose|i: int| 0 <= i < s.len() && (#[trigger] s[i]).0 == k;
            assert(i < s.len() - 1);
            assert((#[trigger] s.drop_last()[i]).0 == k);
        }
    }
}

/// With unique keys, the entry holding a key gives its view value.
pub proof fn lemma_assoc_value<K, V>(s: Seq<(K, V)>, i: int)
    requires
        unique_keys(s),
        0 <= i < s.len(),
    ensures
        assoc_view(s).contains_key(s[i].0),
        assoc_view(s)[s[i].0] == s[i].1,
    decreases s.len(),
{
    lemma_assoc_contains(s, s[i].0);
    if i == s.len() - 1 {
    } else {
        assert(unique_keys(s.drop_last())) by {
            assert forall|a: int, b: int| 0 <= a < b < s.drop_last().len() implies (
            #[trigger] s.drop_last()[a]).0 != (#[trigger] s.drop_last()[b]).0 by {
                assert(s.drop_last()[a] == s[a] && s.drop_last()[b] == s[b]);
            }
        }
        assert(s.drop_last()[i] == s[i]);
        lemma_assoc_value(s.drop_last(), i);
        assert(s[i].0 != s.last().0);
    }
}

/// Unique keys carry over to the sequence without its last entry.
pub proof fn lemma_unique_drop_last<K, V>(s: Seq<(K, V)>)
    requires
        unique_keys(s),
        s.len() > 0,
    ensures
        unique_keys(s.drop_last()),
{
    assert forall|a: int, b: int| 0 <= a < b < s.drop_last().len() implies (
    #[trigger] s.drop_last()[a]).0 != (#[trigger] s.drop_last()[b]).0 by {
        assert(s.drop_last()[a] == s[a] && s.drop_last()[b] == s[b]);
    }
}

/// Appending an entry with a fresh key is a map insert that keeps the
/// keys unique.
pub proof fn lemma_assoc_push<K, V>(s: Seq<(K, V)>, k: K, v: V)
    requires
        unique_keys(s),
        forall|i: int| 0 <= i < s.len() ==> (#[trigger] s[i]).0 != k,
    ensures
        assoc_view(s.push((k, v))) == assoc_view(s).insert(k, v),
        unique_keys(s.push((k, v))),
{
    let t = s.push((k, v));
    assert(t.drop_last() =~= s);
    assert(t.last() == (k, v));
    assert forall|a: int, b: int| 0 <= a < b < t.len() implies (#[trigger] t[a]).0 != (
    #[trigger] t[b]).0 by {
        if b < s.len() {
            assert(t[a] == s[a] && t[b] == s[b]);
        } else {
            assert(t[a] == s[a] && t[b] == (k, v));
        }
    }
}

/// Overwriting the entry that holds a key is a map insert that keeps the
/// keys unique.
pub proof fn lemma_assoc_update<K, V>(s: Seq<(K, V)>, i: int, k: K, v: V)
    requires
        unique_keys(s),
        0 <= i < s.len(),
        s[i].0 == k,
    ensures
        assoc_view(s.update(i, (k, v))) == assoc_view(s).insert(k, v),
        unique_keys(s.update(i, (k, v))),
    decreases s.len(),
{
    let t = s.update(i, (k, v));
    assert forall|a: int, b: int| 0 <= a < b < t.len() implies (#[trigger] t[a]).0 != (
    #[trigger] t[b]).0 by {
        assert((#[trigger] s[a]).0 != (#[trigger] s[b]).0);
        assert(t[a].0 == s[a].0 && t[b].0 == s[b].0);
    }
    lemma_unique_drop_last(s);
    if i == s.len() - 1 {
        assert(t.drop_last() =~= s.drop_last());
        assert(assoc_view(t) =~= assoc_view(s).insert(k, v));
    } else {
        assert(t.drop_last() =~= s.drop_last().update(i, (k, v)));
        assert(s.drop_last()[i] == s[i]);
        lemma_assoc_update(s.drop_last(), i, k, v);
        assert(t.last() == s.last());
        assert(k != s.last().0);
        assert(assoc_view(t) =~= assoc_view(s).insert(k, v));
    }
}

/// Removing the entry that holds a key is a map remove that keeps the
/// keys unique.
pub proof fn lemma_assoc_remove<K, V>(s: Seq<(K, V)>, i: int)
    requires
        unique_keys(s),
        0 <= i < s.len(),
    ensures
        assoc_view(s.remove(i)) == assoc_view(s).remove(s[i].0),
        unique_keys(s.remove(i)),
    decreases s.len(),
{
    let k = s[i].0;
    let t = s.remove(i);
    assert forall|a: int, b: int| 0 <= a < b < t.len() implies (#[trigger] t[a]).0 != (
    #[trigger] t[b]).0 by {
        let a0: int = if a < i {
            a
        } else {
            a + 1
        };
        let b0: int = if b < i {
            b
        } else {
            b + 1
        };
        assert(t[a] == s[a0] && t[b] == s[b0]);
        assert((#[trigger] s[a0]).0 != (#[trigger] s[b0]).0);
    }
    lemma_unique_drop_last(s);
    if i == s.len() - 1 {
        assert(t =~= s.drop_last());
        lemma_assoc_contains(s.drop_last(), k);
        assert(forall|j: int|
            0 <= j < s.drop_last().len() ==> (#[trigger] s.drop_last()[j]).0 != k);
        assert(!assoc_view(s.drop_last()).contains_key(k));
        assert(assoc_view(t) =~= assoc_view(s).remove(k));
    } else {
        assert(t.drop_last() =~= s.drop_last().remove(i));
        assert(s.drop_last()[i] == s[i]);
        lemma_assoc_remove(s.drop_last(), i);
        assert(t.last() == s.last());
        assert(k != s.last().0);
        assert(assoc_view(t) =~= assoc_view(s).remove(k));
    }
}

/// With unique keys, the view is a finite map with one entry per pair.
pub proof fn lemma_assoc_len<K, V>(s: Seq<(K, V)>)
    requires
        unique_keys(s),
    ensures
        assoc_view(s).dom().finite(),
        assoc_view(s).len() == s.len(),
    decreases s.len(),
{
    if s.len() > 0 {
        lemma_unique_drop_last(s);
        lemma_assoc_len(s.drop_last());
        lemma_assoc_contains(s.drop_last(), s.last().0);
        assert(forall|j: int|
            0 <= j < s.drop_last().len() ==> (#[trigger] s.drop_last()[j]).0 != s.last().0);
        assert(!assoc_view(s.drop_last()).contains_key(s.last().0));
    }
}

} // verus!
