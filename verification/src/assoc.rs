//! Small maps keyed by workspace characters, kept as lists of pairs.

use vstd::prelude::*;

verus! {

/// No key appears twice.
pub open spec fn keys_unique<A>(m: Seq<(char, A)>) -> bool {
    forall|i: int, j: int| 0 <= i < j < m.len() ==> (#[trigger] m[i]).0 != (#[trigger] m[j]).0
}

/// The map a list of pairs stands for: later pairs win.
pub open spec fn assoc_map<A>(m: Seq<(char, A)>) -> Map<char, A>
    decreases m.len(),
{
    if m.len() == 0 {
        Map::empty()
    } else {
        assoc_map(m.drop_last()).insert(m.last().0, m.last().1)
    }
}

proof fn lemma_assoc_map_domain<A>(m: Seq<(char, A)>, k: char)
    ensures
        assoc_map(m).dom().contains(k) <==> exists|i: int| 0 <= i < m.len() && (#[trigger] m[i]).0 == k,
    decreases m.len(),
{
    if m.len() > 0 {
        lemma_assoc_map_domain(m.drop_last(), k);
        if exists|i: int| 0 <= i < m.drop_last().len() && (#[trigger] m.drop_last()[i]).0 == k {
            let i = choose|i: int| 0 <= i < m.drop_last().len() && (#[trigger] m.drop_last()[i]).0 == k;
            assert(m[i].0 == k);
        }
        if exists|i: int| 0 <= i < m.len() && (#[trigger] m[i]).0 == k {
            let i = choose|i: int| 0 <= i < m.len() && (#[trigger] m[i]).0 == k;
            if i < m.len() - 1 {
                assert(m.drop_last()[i].0 == k);
            }
        }
    }
}

/// Replacing the value of a key held once updates the map at that key.
proof fn lemma_assoc_map_update<A>(m: Seq<(char, A)>, idx: int, v: A)
    requires
        keys_unique(m),
        0 <= idx < m.len(),
    ensures
        assoc_map(m.update(idx, (m[idx].0, v))) == assoc_map(m).insert(m[idx].0, v),
    decreases m.len(),
{
    let k = m[idx].0;
    let m2 = m.update(idx, (k, v));
    if idx == m.len() - 1 {
        assert(m2.drop_last() =~= m.drop_last());
        assert(assoc_map(m2) =~= assoc_map(m).insert(k, v));
    } else {
        assert(m2.drop_last() =~= m.drop_last().update(idx, (k, v)));
        lemma_assoc_map_update(m.drop_last(), idx, v);
        assert(m.last().0 != k);
        assert(assoc_map(m2) =~= assoc_map(m).insert(k, v));
    }
}

/// Set `k` to `v` in `m`: replace the pair holding `k`, or add one.
pub fn assoc_insert<A>(m: &mut Vec<(char, A)>, k: char, v: A)
    requires
        keys_unique(old(m)@),
    ensures
        keys_unique(final(m)@),
        assoc_map(final(m)@) == assoc_map(old(m)@).insert(k, v),
{
    let mut i: usize = 0;
    while i < m.len()
        invariant
            m@ == old(m)@,
            keys_unique(m@),
            i <= m@.len(),
            forall|j: int| 0 <= j < i ==> (#[trigger] m@[j]).0 != k,
        decreases m@.len() - i,
    {
        if m[i].0 == k {
            proof {
                lemma_assoc_map_update(m@, i as int, v);
            }
            let ghost before = m@;
            m.set(i, (k, v));
            assert(m@ == before.update(i as int, (k, v)));
            assert(keys_unique(m@)) by {
                assert forall|a: int, b: int| 0 <= a < b < m@.len() implies (#[trigger] m@[a]).0 != (
                #[trigger] m@[b]).0 by {
                    assert(before[a].0 == m@[a].0);
                    assert(before[b].0 == m@[b].0);
                }
            }
            return;
        }
        i = i + 1;
    }
    let ghost before = m@;
    m.push((k, v));
    assert(m@.drop_last() =~= before);
    assert(keys_unique(m@)) by {
        assert forall|a: int, b: int| 0 <= a < b < m@.len() implies (#[trigger] m@[a]).0 != (
        #[trigger] m@[b]).0 by {
            assert(before[a] == m@[a]);
            if b < before.len() {
                assert(before[b] == m@[b]);
            } else {
                assert(m@[b].0 == k);
            }
        }
    }
}

/// The value held for `k`.
pub fn assoc_get<A>(m: &Vec<(char, A)>, k: char) -> (r: Option<&A>)
    requires
        keys_unique(m@),
    ensures
        match r {
            Some(v) => assoc_map(m@).dom().contains(k) && assoc_map(m@)[k] == *v,
            None => !assoc_map(m@).dom().contains(k),
        },
{
    let mut i: usize = 0;
    while i < m.len()
        invariant
            keys_unique(m@),
            i <= m@.len(),
            forall|j: int| 0 <= j < i ==> (#[trigger] m@[j]).0 != k,
        decreases m@.len() - i,
    {
        if m[i].0 == k {
            proof {
                lemma_assoc_map_value(m@, i as int);
            }
            return Some(&m[i].1);
        }
        i = i + 1;
    }
    proof {
        lemma_assoc_map_domain(m@, k);
    }
    None
}

/// The pair at `idx`, its key held once, gives the map's value there.
proof fn lemma_assoc_map_value<A>(m: Seq<(char, A)>, idx: int)
    requires
        keys_unique(m),
        0 <= idx < m.len(),
    ensures
        assoc_map(m).dom().contains(m[idx].0),
        assoc_map(m)[m[idx].0] == m[idx].1,
    decreases m.len(),
{
    if idx < m.len() - 1 {
        lemma_assoc_map_value(m.drop_last(), idx);
        assert(m.last().0 != m[idx].0);
    }
}

} // verus!
