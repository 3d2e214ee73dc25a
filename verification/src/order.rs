//! Lexicographic order on strings and on pairs of strings, and a selection
//! sort that puts a list of name/value pairs in that order.

use vstd::prelude::*;

verus! {

/// `a` sorts before `b`: Rust's `Ord` for `str`, which compares code points
/// in order and puts a proper prefix first.
pub open spec fn seq_lt(a: Seq<char>, b: Seq<char>) -> bool
    decreases a.len(),
{
    if a.len() == 0 {
        b.len() > 0
    } else if b.len() == 0 {
        false
    } else if a[0] != b[0] {
        (a[0] as u32) < (b[0] as u32)
    } else {
        seq_lt(a.drop_first(), b.drop_first())
    }
}

/// `p` sorts before `q` as a tuple: by the first string, then the second.
pub open spec fn pair_lt(p: (Seq<char>, Seq<char>), q: (Seq<char>, Seq<char>)) -> bool {
    seq_lt(p.0, q.0) || (p.0 == q.0 && seq_lt(p.1, q.1))
}

/// The views of a list of string pairs.
pub open spec fn pairs_view(v: Seq<(String, String)>) -> Seq<(Seq<char>, Seq<char>)> {
    v.map_values(|p: (String, String)| (p.0@, p.1@))
}

/// No pair comes after a pair that sorts before it.
pub open spec fn pairs_sorted(s: Seq<(Seq<char>, Seq<char>)>) -> bool {
    forall|i: int, j: int| 0 <= i < j < s.len() ==> !pair_lt(#[trigger] s[j], #[trigger] s[i])
}

pub proof fn lemma_seq_lt_irreflexive(a: Seq<char>)
    ensures
        !seq_lt(a, a),
    decreases a.len(),
{
    if a.len() > 0 {
        lemma_seq_lt_irreflexive(a.drop_first());
    }
}

pub proof fn lemma_seq_lt_transitive(a: Seq<char>, b: Seq<char>, c: Seq<char>)
    requires
        seq_lt(a, b),
        seq_lt(b, c),
    ensures
        seq_lt(a, c),
    decreases a.len(),
{
    if a.len() > 0 && b.len() > 0 && c.len() > 0 {
        if a[0] == b[0] && b[0] == c[0] {
            lemma_seq_lt_transitive(a.drop_first(), b.drop_first(), c.drop_first());
        }
    }
}

pub proof fn lemma_pair_lt_transitive(
    p: (Seq<char>, Seq<char>),
    q: (Seq<char>, Seq<char>),
    r: (Seq<char>, Seq<char>),
)
    requires
        pair_lt(p, q),
        pair_lt(q, r),
    ensures
        pair_lt(p, r),
{
    if seq_lt(p.0, q.0) && seq_lt(q.0, r.0) {
        lemma_seq_lt_transitive(p.0, q.0, r.0);
    } else if seq_lt(p.1, q.1) && seq_lt(q.1, r.1) && p.0 == q.0 && q.0 == r.0 {
        lemma_seq_lt_transitive(p.1, q.1, r.1);
    }
}

pub proof fn lemma_pair_lt_irreflexive(p: (Seq<char>, Seq<char>))
    ensures
        !pair_lt(p, p),
{
    lemma_seq_lt_irreflexive(p.0);
    lemma_seq_lt_irreflexive(p.1);
}

/// Whether `a` sorts before `b`.
pub fn str_lt(a: &str, b: &str) -> (r: bool)
    ensures
        r == seq_lt(a@, b@),
{
    let n = a.unicode_len();
    let m = b.unicode_len();
    let mut i: usize = 0;
    assert(a@.skip(0) =~= a@);
    assert(b@.skip(0) =~= b@);
    while i < n && i < m
        invariant
            n == a@.len(),
            m == b@.len(),
            i <= n,
            i <= m,
            seq_lt(a@, b@) == seq_lt(a@.skip(i as int), b@.skip(i as int)),
        decreases n - i,
    {
        let x = a.get_char(i);
        let y = b.get_char(i);
        assert(a@.skip(i as int)[0] == x && b@.skip(i as int)[0] == y);
        if x != y {
            return (x as u32) < (y as u32);
        }
        assert(a@.skip(i as int).drop_first() =~= a@.skip(i + 1));
        assert(b@.skip(i as int).drop_first() =~= b@.skip(i + 1));
        i = i + 1;
    }
    i < m && i == n
}

/// Whether pair `p` sorts before pair `q`.
pub fn pair_less(p: &(String, String), q: &(String, String)) -> (r: bool)
    ensures
        r == pair_lt((p.0@, p.1@), (q.0@, q.1@)),
{
    if str_lt(p.0.as_str(), q.0.as_str()) {
        true
    } else if p.0 == q.0 {
        str_lt(p.1.as_str(), q.1.as_str())
    } else {
        false
    }
}

/// The pairs of `v`, sorted as tuples.
pub fn sort_pairs(v: &Vec<(String, String)>) -> (r: Vec<(String, String)>)
    ensures
        pairs_view(r@).to_multiset() == pairs_view(v@).to_multiset(),
        pairs_sorted(pairs_view(r@)),
{
    broadcast use vstd::seq_lib::group_to_multiset_ensures, vstd::multiset::group_multiset_axioms;

    let mut rest: Vec<(String, String)> = Vec::new();
    let mut k: usize = 0;
    while k < v.len()
        invariant
            k <= v.len(),
            rest@.len() == k,
            forall|t: int| 0 <= t < k ==> (#[trigger] rest@[t]).0@ == v@[t].0@ && rest@[t].1@ == v@[t].1@,
        decreases v.len() - k,
    {
        let p = (v[k].0.clone(), v[k].1.clone());
        rest.push(p);
        k = k + 1;
    }
    assert(pairs_view(rest@) =~= pairs_view(v@));
    let mut out: Vec<(String, String)> = Vec::new();
    assert(pairs_view(out@) =~= Seq::<(Seq<char>, Seq<char>)>::empty());
    while rest.len() > 0
        invariant
            pairs_view(out@).to_multiset().add(pairs_view(rest@).to_multiset())
                == pairs_view(v@).to_multiset(),
            pairs_sorted(pairs_view(out@)),
            forall|i: int, j: int|
                0 <= i < out@.len() && 0 <= j < rest@.len() ==> !pair_lt(
                    #[trigger] pairs_view(rest@)[j],
                    #[trigger] pairs_view(out@)[i],
                ),
        decreases rest.len(),
    {
        let ghost rv = pairs_view(rest@);
        let mut m: usize = 0;
        let mut j: usize = 1;
        proof {
            lemma_pair_lt_irreflexive(rv[0]);
        }
        while j < rest.len()
            invariant
                rv == pairs_view(rest@),
                m < j <= rest.len(),
                forall|t: int| 0 <= t < j ==> !pair_lt(#[trigger] rv[t], rv[m as int]),
            decreases rest.len() - j,
        {
            if pair_less(&rest[j], &rest[m]) {
                proof {
                    assert forall|t: int| 0 <= t < j + 1 implies !pair_lt(
                        #[trigger] rv[t],
                        rv[j as int],
                    ) by {
                        if t < j && pair_lt(rv[t], rv[j as int]) {
                            lemma_pair_lt_transitive(rv[t], rv[j as int], rv[m as int]);
                        }
                        if t == j {
                            lemma_pair_lt_irreflexive(rv[t]);
                        }
                    }
                }
                m = j;
            }
            j = j + 1;
        }
        let ghost old_out = pairs_view(out@);
        let picked = rest.remove(m);
        let ghost pv = (picked.0@, picked.1@);
        assert(pv == rv[m as int]);
        proof {
            assert(rv =~= pairs_view(rest@).insert(m as int, pv));
            vstd::seq_lib::to_multiset_insert(pairs_view(rest@), m as int, pv);
        }
        out.push(picked);
        proof {
            assert(pairs_view(out@) =~= old_out.push(pv));
            vstd::seq_lib::to_multiset_build(old_out, pv);
            broadcast use vstd::multiset::group_multiset_axioms;
            assert forall|a: int, b: int| 0 <= a < b < pairs_view(out@).len() implies !pair_lt(
                #[trigger] pairs_view(out@)[b],
                #[trigger] pairs_view(out@)[a],
            ) by {
                if b == old_out.len() {
                    assert(pairs_view(out@)[a] == old_out[a]);
                    assert(rv[m as int] == pv);
                } else {
                    assert(pairs_view(out@)[a] == old_out[a]);
                    assert(pairs_view(out@)[b] == old_out[b]);
                }
            }
            assert forall|a: int, b: int|
                0 <= a < out@.len() && 0 <= b < rest@.len() implies !pair_lt(
                #[trigger] pairs_view(rest@)[b],
                #[trigger] pairs_view(out@)[a],
            ) by {
                let orig_b = if b < m { b } else { b + 1 };
                assert(pairs_view(rest@)[b] == rv[orig_b]);
                if a < old_out.len() {
                    assert(pairs_view(out@)[a] == old_out[a]);
                } else {
                    assert(pairs_view(out@)[a] == pv);
                }
            }
        }
    }
    proof {
        assert(pairs_view(rest@) =~= Seq::<(Seq<char>, Seq<char>)>::empty());
    }
    out
}

} // verus!
