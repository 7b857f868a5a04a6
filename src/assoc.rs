use vstd::prelude::*;

verus! {

/// The map denoted by an association list: later entries override earlier ones.
pub open spec fn map_of<K, V>(s: Seq<(K, V)>) -> Map<K, V>
    decreases s.len(),
{
    if s.len() == 0 {
        Map::empty()
    } else {
        map_of(s.drop_last()).insert(s.last().0, s.last().1)
    }
}

/// The association list with every entry for `k` taken out.
pub open spec fn without_key<K, V>(s: Seq<(K, V)>, k: K) -> Seq<(K, V)>
    decreases s.len(),
{
    if s.len() == 0 {
        s
    } else if s.last().0 == k {
        without_key(s.drop_last(), k)
    } else {
        without_key(s.drop_last(), k).push(s.last())
    }
}

pub proof fn lemma_push<K, V>(s: Seq<(K, V)>, e: (K, V))
    ensures
        map_of(s.push(e)) == map_of(s).insert(e.0, e.1),
{
    assert(s.push(e).drop_last() =~= s);
}

/// Entry `j` is the one the map reports for its key when no later entry
/// has that key.
pub proof fn lemma_last_entry<K, V>(s: Seq<(K, V)>, j: int)
    requires
        0 <= j < s.len(),
        forall|l: int| j < l < s.len() ==> s[l].0 != s[j].0,
    ensures
        map_of(s).contains_key(s[j].0),
        map_of(s)[s[j].0] == s[j].1,
    decreases s.len(),
{
    if j < s.len() - 1 {
        lemma_last_entry(s.drop_last(), j);
    }
}

/// A key that no entry carries is absent from the map.
pub proof fn lemma_absent<K, V>(s: Seq<(K, V)>, k: K)
    requires
        forall|l: int| 0 <= l < s.len() ==> s[l].0 != k,
    ensures
        !map_of(s).contains_key(k),
    decreases s.len(),
{
    if s.len() > 0 {
        lemma_absent(s.drop_last(), k);
    }
}

pub proof fn lemma_without_key<K, V>(s: Seq<(K, V)>, k: K)
    ensures
        map_of(without_key(s, k)) == map_of(s).remove(k),
    decreases s.len(),
{
    if s.len() > 0 {
        let p = s.drop_last();
        let e = s.last();
        lemma_without_key(p, k);
        if e.0 != k {
            lemma_push(without_key(p, k), e);
        }
        assert(map_of(without_key(s, k)) =~= map_of(s).remove(k));
    } else {
        assert(map_of(s).remove(k) =~= map_of(s));
    }
}

} // verus!
