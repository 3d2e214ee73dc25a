//! Template strings: `{{name}}` placeholders, their substitution, argument
//! vectors for programs, and the environment handed to hooks.

use vstd::prelude::*;

use crate::config::{Select, TemplateVariable, VariableType};
use crate::order::{pairs_sorted, pairs_view, sort_pairs};
use crate::text::{
    chars_of, is_alnum, is_alnum_spec, is_digit_spec, is_upper_spec, is_whitespace, is_whitespace_spec, push_char, str_eq,
    string_of, string_of_range, to_upper, upper_spec,
};

verus! {

// --- Finding `{{` and `}}` ---

/// Two `c` in a row start at index `j` of `s`.
pub open spec fn pair_at(s: Seq<char>, c: char, j: int) -> bool {
    0 <= j && j + 1 < s.len() && s[j] == c && s[j + 1] == c
}

/// `j` is the first index at or after `from` where two `c` in a row start.
pub open spec fn first_pair_from(s: Seq<char>, c: char, from: int, j: int) -> bool {
    &&& from <= j
    &&& pair_at(s, c, j)
    &&& forall|k: int| from <= k < j ==> !#[trigger] pair_at(s, c, k)
}

/// The first index at or after `from` where two `c` in a row start, or -1.
pub open spec fn find_pair(s: Seq<char>, c: char, from: int) -> int {
    if exists|j: int| first_pair_from(s, c, from, j) {
        choose|j: int| first_pair_from(s, c, from, j)
    } else {
        -1
    }
}

/// Where two `c` in a row first start in `v` at or after `from`.
fn find_pair_exec(v: &Vec<char>, c: char, from: usize) -> (r: Option<usize>)
    requires
        from <= v@.len(),
    ensures
        r matches Some(j) ==> j == find_pair(v@, c, from as int) && first_pair_from(
            v@,
            c,
            from as int,
            j as int,
        ),
        r is None ==> find_pair(v@, c, from as int) == -1,
{
    let n = v.len();
    let mut j: usize = from;
    while n > 0 && j < n - 1
        invariant
            n == v@.len(),
            from <= j <= n,
            forall|k: int| from <= k < j ==> !#[trigger] pair_at(v@, c, k),
        decreases n - j,
    {
        if v[j] == c && v[j + 1] == c {
            assert(first_pair_from(v@, c, from as int, j as int));
            proof {
                let j2 = choose|j2: int| first_pair_from(v@, c, from as int, j2);
                if j2 < j {
                    assert(!pair_at(v@, c, j2));
                } else if j2 > j {
                    assert(!pair_at(v@, c, j as int));
                }
            }
            return Some(j);
        }
        j = j + 1;
    }
    proof {
        if exists|j2: int| first_pair_from(v@, c, from as int, j2) {
            let j2 = choose|j2: int| first_pair_from(v@, c, from as int, j2);
            assert(pair_at(v@, c, j2));
        }
    }
    None
}

// --- Trimming ---

/// `s` without its leading whitespace.
pub open spec fn trim_start(s: Seq<char>) -> Seq<char>
    decreases s.len(),
{
    if s.len() > 0 && is_whitespace_spec(s[0]) {
        trim_start(s.drop_first())
    } else {
        s
    }
}

/// `s` without its trailing whitespace.
pub open spec fn trim_end(s: Seq<char>) -> Seq<char>
    decreases s.len(),
{
    if s.len() > 0 && is_whitespace_spec(s.last()) {
        trim_end(s.drop_last())
    } else {
        s
    }
}

/// `s` without leading and trailing whitespace (`str::trim`).
pub open spec fn trim(s: Seq<char>) -> Seq<char> {
    trim_end(trim_start(s))
}

proof fn lemma_trim_start(s: Seq<char>, lo: int, a: int, hi: int)
    requires
        0 <= lo <= a <= hi <= s.len(),
        forall|k: int| lo <= k < a ==> is_whitespace_spec(#[trigger] s[k]),
        a == hi || !is_whitespace_spec(s[a]),
    ensures
        trim_start(s.subrange(lo, hi)) == s.subrange(a, hi),
    decreases a - lo,
{
    if lo < a {
        assert(s.subrange(lo, hi).drop_first() =~= s.subrange(lo + 1, hi));
        lemma_trim_start(s, lo + 1, a, hi);
    } else if a < hi {
        assert(s.subrange(lo, hi)[0] == s[a]);
    }
}

proof fn lemma_trim_end(s: Seq<char>, lo: int, b: int, hi: int)
    requires
        0 <= lo <= b <= hi <= s.len(),
        forall|k: int| b <= k < hi ==> is_whitespace_spec(#[trigger] s[k]),
        b == lo || !is_whitespace_spec(s[b - 1]),
    ensures
        trim_end(s.subrange(lo, hi)) == s.subrange(lo, b),
    decreases hi - b,
{
    if b < hi {
        assert(s.subrange(lo, hi).drop_last() =~= s.subrange(lo, hi - 1));
        assert(s.subrange(lo, hi).last() == s[hi - 1]);
        lemma_trim_end(s, lo, b, hi - 1);
    } else if lo < b {
        assert(s.subrange(lo, hi).last() == s[b - 1]);
    }
}

/// The bounds of `v[lo..hi]` with surrounding whitespace removed.
pub fn trim_bounds(v: &Vec<char>, lo: usize, hi: usize) -> (r: (usize, usize))
    requires
        lo <= hi <= v@.len(),
    ensures
        lo <= r.0 <= r.1 <= hi,
        v@.subrange(r.0 as int, r.1 as int) == trim(v@.subrange(lo as int, hi as int)),
{
    let mut a = lo;
    while a < hi && is_whitespace(v[a])
        invariant
            lo <= a <= hi,
            hi <= v@.len(),
            forall|k: int| lo <= k < a ==> is_whitespace_spec(#[trigger] v@[k]),
        decreases hi - a,
    {
        a = a + 1;
    }
    proof {
        lemma_trim_start(v@, lo as int, a as int, hi as int);
    }
    let mut b = hi;
    while b > a && is_whitespace(v[b - 1])
        invariant
            a <= b <= hi,
            hi <= v@.len(),
            forall|k: int| b <= k < hi ==> is_whitespace_spec(#[trigger] v@[k]),
        decreases b - a,
    {
        b = b - 1;
    }
    proof {
        lemma_trim_end(v@, a as int, b as int, hi as int);
    }
    (a, b)
}

// --- Segments ---

/// A piece of a template string, as a value.
pub enum SegmentView {
    Literal(Seq<char>),
    Placeholder { raw: Seq<char>, name: Seq<char>, basename: bool },
}

/// A piece of a template string: literal text or a `{{name}}` placeholder.
pub enum Segment {
    Literal(String),
    /// `raw` is the full `{{ name }}` text, `name` the trimmed variable name;
    /// `basename` is set by the `{{name|basename}}` filter.
    Placeholder { raw: String, name: String, basename: bool },
}

impl View for Segment {
    type V = SegmentView;

    open spec fn view(&self) -> SegmentView {
        match self {
            Segment::Literal(t) => SegmentView::Literal(t@),
            Segment::Placeholder { raw, name, basename } => SegmentView::Placeholder {
                raw: raw@,
                name: name@,
                basename: *basename,
            },
        }
    }
}

/// The views of a list of segments.
pub open spec fn segs_view(v: Seq<Segment>) -> Seq<SegmentView> {
    v.map_values(|s: Segment| s@)
}

/// The index of the first `|` in `s` at or after `from`, or -1.
pub open spec fn bar_from(s: Seq<char>, from: int) -> int
    decreases s.len() - from,
{
    if from < 0 || from >= s.len() {
        -1
    } else if s[from] == '|' {
        from
    } else {
        bar_from(s, from + 1)
    }
}

/// The variable name written between `{{` and `}}` as `inner`, and whether
/// the `basename` filter follows it (`{{ name | basename }}`). Any other text
/// after a `|` makes the whole trimmed text the name.
pub open spec fn placeholder_parts(inner: Seq<char>) -> (Seq<char>, bool) {
    let p = bar_from(inner, 0);
    if p >= 0 && trim(inner.subrange(p + 1, inner.len() as int)) == "basename"@ {
        (trim(inner.subrange(0, p)), true)
    } else {
        (trim(inner), false)
    }
}

/// Where the first `|` of `v[lo..hi]` is.
fn find_bar(v: &Vec<char>, lo: usize, hi: usize) -> (r: Option<usize>)
    requires
        lo <= hi <= v@.len(),
    ensures
        match r {
            Some(j) => lo <= j < hi && bar_from(v@.subrange(lo as int, hi as int), 0) == j - lo,
            None => bar_from(v@.subrange(lo as int, hi as int), 0) == -1,
        },
{
    let ghost sub = v@.subrange(lo as int, hi as int);
    let mut j = lo;
    while j < hi
        invariant
            lo <= j <= hi,
            hi <= v@.len(),
            sub == v@.subrange(lo as int, hi as int),
            bar_from(sub, 0) == bar_from(sub, j - lo),
        decreases hi - j,
    {
        assert(sub[j - lo] == v@[j as int]);
        if v[j] == '|' {
            return Some(j);
        }
        j = j + 1;
    }
    None
}

/// The segments of `s[from..]`: literal text up to each `{{`, then the
/// placeholder up to the next `}}`; an unterminated `{{` is literal text.
pub open spec fn segs_from(s: Seq<char>, from: int) -> Seq<SegmentView>
    decreases s.len() - from,
    when 0 <= from <= s.len()
{
    let o = find_pair(s, '{', from);
    if o < 0 {
        if from == s.len() {
            Seq::empty()
        } else {
            seq![SegmentView::Literal(s.subrange(from, s.len() as int))]
        }
    } else {
        let c = find_pair(s, '}', o + 2);
        if c < 0 {
            seq![SegmentView::Literal(s.subrange(from, s.len() as int))]
        } else {
            let lit = if o > from {
                seq![SegmentView::Literal(s.subrange(from, o))]
            } else {
                Seq::empty()
            };
            let parts = placeholder_parts(s.subrange(o + 2, c));
            lit + seq![
                SegmentView::Placeholder {
                    raw: s.subrange(o, c + 2),
                    name: parts.0,
                    basename: parts.1,
                },
            ] + segs_from(s, c + 2)
        }
    }
}

/// The segments of template string `s`.
pub open spec fn segments_spec(s: Seq<char>) -> Seq<SegmentView> {
    segs_from(s, 0)
}

/// The variable name and filter of the placeholder text `v[lo..hi]`.
fn placeholder_name(v: &Vec<char>, lo: usize, hi: usize) -> (r: (String, bool))
    requires
        lo <= hi <= v@.len(),
    ensures
        (r.0@, r.1) == placeholder_parts(v@.subrange(lo as int, hi as int)),
{
    let ghost inner = v@.subrange(lo as int, hi as int);
    proof {
        reveal_strlit("basename");
    }
    match find_bar(v, lo, hi) {
        Some(p) => {
            let (fa, fb) = trim_bounds(v, p + 1, hi);
            let filter = string_of_range(v, fa, fb);
            assert(inner.subrange(p - lo + 1, inner.len() as int) =~= v@.subrange(p + 1, hi as int));
            if str_eq(filter.as_str(), "basename") {
                let (a, b) = trim_bounds(v, lo, p);
                assert(inner.subrange(0, p - lo) =~= v@.subrange(lo as int, p as int));
                (string_of_range(v, a, b), true)
            } else {
                let (a, b) = trim_bounds(v, lo, hi);
                (string_of_range(v, a, b), false)
            }
        },
        None => {
            let (a, b) = trim_bounds(v, lo, hi);
            (string_of_range(v, a, b), false)
        },
    }
}

/// Split a template string into literal and `{{name}}` placeholder segments.
///
/// An unterminated `{{` is literal text.
pub fn segments(template: &str) -> (r: Vec<Segment>)
    ensures
        segs_view(r@) == segments_spec(template@),
{
    let v = chars_of(template);
    let n = v.len();
    let mut out: Vec<Segment> = Vec::new();
    let mut pos: usize = 0;
    loop
        invariant
            n == v@.len(),
            v@ == template@,
            pos <= n,
            segs_from(v@, 0) == segs_view(out@) + segs_from(v@, pos as int),
        decreases n - pos,
    {
        let ghost before = out@;
        match find_pair_exec(&v, '{', pos) {
            None => {
                if pos < n {
                    out.push(Segment::Literal(string_of_range(&v, pos, n)));
                }
                assert(segs_view(out@) =~= segs_view(before) + segs_from(v@, pos as int));
                assert(segs_view(out@) =~= segs_from(v@, 0));
                return out;
            },
            Some(o) => {
                match find_pair_exec(&v, '}', o + 2) {
                    None => {
                        out.push(Segment::Literal(string_of_range(&v, pos, n)));
                        assert(segs_view(out@) =~= segs_view(before) + segs_from(v@, pos as int));
                        return out;
                    },
                    Some(c) => {
                        if o > pos {
                            out.push(Segment::Literal(string_of_range(&v, pos, o)));
                        }
                        let raw = string_of_range(&v, o, c + 2);
                        let (name, basename) = placeholder_name(&v, o + 2, c);
                        out.push(Segment::Placeholder { raw, name, basename });
                        assert(segs_view(out@) + segs_from(v@, c + 2) =~= segs_view(before)
                            + segs_from(v@, pos as int));
                        pos = c + 2;
                    },
                }
            },
        }
    }
}

// --- Variable references ---

/// The non-empty placeholder names of `segs`, each once, in order of first
/// occurrence.
pub open spec fn refs_spec(segs: Seq<SegmentView>) -> Seq<Seq<char>>
    decreases segs.len(),
{
    if segs.len() == 0 {
        Seq::empty()
    } else {
        let acc = refs_spec(segs.drop_last());
        match segs.last() {
            SegmentView::Placeholder { name, .. } if name.len() > 0 && !acc.contains(name) => acc.push(
                name,
            ),
            _ => acc,
        }
    }
}

/// `sv` is a placeholder for the variable named `n`.
pub open spec fn names_variable(sv: SegmentView, n: Seq<char>) -> bool {
    sv matches SegmentView::Placeholder { name, .. } && name == n
}

/// Some segment of `segs` is a placeholder for the variable named `n`.
pub open spec fn mentions_variable(segs: Seq<SegmentView>, n: Seq<char>) -> bool {
    exists|i: int| 0 <= i < segs.len() && names_variable(#[trigger] segs[i], n)
}

/// The names `refs_spec` gives: each once, none empty, and a name is among
/// them exactly when it is not empty and some placeholder of `segs` names it.
pub proof fn lemma_refs(segs: Seq<SegmentView>)
    ensures
        forall|i: int, j: int|
            0 <= i < j < refs_spec(segs).len() ==> #[trigger] refs_spec(segs)[i] != #[trigger] refs_spec(
                segs,
            )[j],
        forall|i: int| 0 <= i < refs_spec(segs).len() ==> (#[trigger] refs_spec(segs)[i]).len() > 0,
        forall|n: Seq<char>|
            #[trigger] refs_spec(segs).contains(n) <==> n.len() > 0 && mentions_variable(segs, n),
    decreases segs.len(),
{
    if segs.len() > 0 {
        let init = segs.drop_last();
        lemma_refs(init);
        let acc = refs_spec(init);
        assert forall|n: Seq<char>| mentions_variable(init, n) implies mentions_variable(segs, n) by {
            let i = choose|i: int| 0 <= i < init.len() && names_variable(#[trigger] init[i], n);
            assert(segs[i] == init[i]);
        }
        assert forall|n: Seq<char>|
            mentions_variable(segs, n) implies mentions_variable(init, n) || names_variable(segs.last(), n) by {
            let i = choose|i: int| 0 <= i < segs.len() && names_variable(#[trigger] segs[i], n);
            if i < init.len() {
                assert(init[i] == segs[i]);
            }
        }
        assert forall|n: Seq<char>| names_variable(segs.last(), n) implies mentions_variable(segs, n) by {
            assert(names_variable(segs[segs.len() - 1], n));
        }
        let r = refs_spec(segs);
        let last = segs.last();
        if last matches SegmentView::Placeholder { name, .. } && name.len() > 0 && !acc.contains(name) {
            let name = last->name;
            assert(r == acc.push(name));
            assert forall|n: Seq<char>| #[trigger] r.contains(n) <==> acc.contains(n) || n == name by {
                if r.contains(n) {
                    let k = choose|k: int| 0 <= k < r.len() && r[k] == n;
                    if k < acc.len() {
                        assert(acc[k] == r[k]);
                    }
                }
                if acc.contains(n) {
                    let k = choose|k: int| 0 <= k < acc.len() && acc[k] == n;
                    assert(r[k] == acc[k]);
                }
                if n == name {
                    assert(r[acc.len() as int] == name);
                }
            }
            assert forall|i: int, j: int| 0 <= i < j < r.len() implies #[trigger] r[i] != #[trigger] r[j] by {
                if j == acc.len() {
                    assert(r[i] == acc[i]);
                } else {
                    assert(r[i] == acc[i]);
                    assert(r[j] == acc[j]);
                }
            }
            assert forall|i: int| 0 <= i < r.len() implies (#[trigger] r[i]).len() > 0 by {
                if i < acc.len() {
                    assert(r[i] == acc[i]);
                }
            }
        } else {
            assert(r == acc);
        }
    }
}

/// Substituting text in which no placeholder has a value leaves the text
/// exactly as it was: the segments of a string read back to it.
pub proof fn lemma_substitute_without_values(t: Seq<char>, vals: Seq<(Seq<char>, Seq<char>)>)
    requires
        forall|k: int|
            0 <= k < vals.len() ==> (#[trigger] vals[k]).0.len() > 0 && !refs_spec(segments_spec(t)).contains(
                vals[k].0,
            ),
    ensures
        substitute_spec(t, vals) == t,
{
    let segs = segments_spec(t);
    lemma_refs(segs);
    lemma_segs_text(t, 0);
    assert forall|i: int| 0 <= i < segs.len() && (#[trigger] segs[i]) is Placeholder implies lookup(
        vals,
        segs[i]->name,
    ) is None by {
        let n = segs[i]->name;
        assert(names_variable(segs[i], n));
        assert forall|k: int| 0 <= k < vals.len() implies (#[trigger] vals[k]).0 != n by {
            if vals[k].0 == n {
                assert(mentions_variable(segs, n));
                assert(refs_spec(segs).contains(n));
            }
        }
        lemma_lookup_none(vals, n);
    }
    lemma_subst_raw(segs, vals);
    assert(t.subrange(0, t.len() as int) =~= t);
}

proof fn lemma_lookup_none(vals: Seq<(Seq<char>, Seq<char>)>, n: Seq<char>)
    requires
        forall|k: int| 0 <= k < vals.len() ==> (#[trigger] vals[k]).0 != n,
    ensures
        lookup(vals, n) is None,
    decreases vals.len(),
{
    if vals.len() > 0 {
        assert forall|k: int| 0 <= k < vals.drop_first().len() implies (#[trigger] vals.drop_first()[k]).0 != n by {
            assert(vals.drop_first()[k] == vals[k + 1]);
        }
        lemma_lookup_none(vals.drop_first(), n);
    }
}

/// The text a list of segments was read from: each literal, and each
/// placeholder as written.
pub open spec fn raw_text(segs: Seq<SegmentView>) -> Seq<char>
    decreases segs.len(),
{
    if segs.len() == 0 {
        Seq::empty()
    } else {
        raw_text(segs.drop_last()) + match segs.last() {
            SegmentView::Literal(t) => t,
            SegmentView::Placeholder { raw, .. } => raw,
        }
    }
}

proof fn lemma_raw_text_concat(a: Seq<SegmentView>, b: Seq<SegmentView>)
    ensures
        raw_text(a + b) == raw_text(a) + raw_text(b),
    decreases b.len(),
{
    if b.len() == 0 {
        assert(a + b =~= a);
        assert(raw_text(a) + raw_text(b) =~= raw_text(a));
    } else {
        lemma_raw_text_concat(a, b.drop_last());
        assert((a + b).drop_last() =~= a + b.drop_last());
        assert((a + b).last() == b.last());
    }
}

proof fn lemma_raw_text_one(x: SegmentView)
    ensures
        raw_text(seq![x]) == match x {
            SegmentView::Literal(t) => t,
            SegmentView::Placeholder { raw, .. } => raw,
        },
{
    assert(seq![x].drop_last() =~= Seq::<SegmentView>::empty());
    assert(seq![x].last() == x);
    assert(raw_text(Seq::<SegmentView>::empty()) + match x {
        SegmentView::Literal(t) => t,
        SegmentView::Placeholder { raw, .. } => raw,
    } =~= match x {
        SegmentView::Literal(t) => t,
        SegmentView::Placeholder { raw, .. } => raw,
    });
}

proof fn lemma_find_pair(s: Seq<char>, c: char, from: int)
    requires
        find_pair(s, c, from) >= 0,
    ensures
        first_pair_from(s, c, from, find_pair(s, c, from)),
{
}

/// The segments of `s[from..]` read back to `s[from..]`.
proof fn lemma_segs_text(s: Seq<char>, from: int)
    requires
        0 <= from <= s.len(),
    ensures
        raw_text(segs_from(s, from)) == s.subrange(from, s.len() as int),
    decreases s.len() - from,
{
    let o = find_pair(s, '{', from);
    if o < 0 {
        if from == s.len() {
            assert(s.subrange(from, s.len() as int) =~= Seq::<char>::empty());
        } else {
            lemma_raw_text_one(SegmentView::Literal(s.subrange(from, s.len() as int)));
        }
    } else {
        lemma_find_pair(s, '{', from);
        let c = find_pair(s, '}', o + 2);
        if c < 0 {
            lemma_raw_text_one(SegmentView::Literal(s.subrange(from, s.len() as int)));
        } else {
            lemma_find_pair(s, '}', o + 2);
            let parts = placeholder_parts(s.subrange(o + 2, c));
            let ph = SegmentView::Placeholder { raw: s.subrange(o, c + 2), name: parts.0, basename: parts.1 };
            let lit = if o > from {
                seq![SegmentView::Literal(s.subrange(from, o))]
            } else {
                Seq::empty()
            };
            lemma_segs_text(s, c + 2);
            lemma_raw_text_concat(lit + seq![ph], segs_from(s, c + 2));
            lemma_raw_text_concat(lit, seq![ph]);
            lemma_raw_text_one(ph);
            if o > from {
                lemma_raw_text_one(SegmentView::Literal(s.subrange(from, o)));
            }
            assert(raw_text(lit) =~= s.subrange(from, o));
            assert(s.subrange(from, o) + s.subrange(o, c + 2) + s.subrange(c + 2, s.len() as int) =~= s.subrange(
                from,
                s.len() as int,
            ));
        }
    }
}

/// Where no placeholder of `segs` has a value, substituting gives the text
/// the segments were read from.
proof fn lemma_subst_raw(segs: Seq<SegmentView>, vals: Seq<(Seq<char>, Seq<char>)>)
    requires
        forall|i: int| 0 <= i < segs.len() && (#[trigger] segs[i]) is Placeholder ==> lookup(vals, segs[i]->name) is None,
    ensures
        subst_segs(segs, vals) == raw_text(segs),
    decreases segs.len(),
{
    if segs.len() > 0 {
        let init = segs.drop_last();
        assert forall|i: int| 0 <= i < init.len() && (#[trigger] init[i]) is Placeholder implies lookup(
            vals,
            init[i]->name,
        ) is None by {
            assert(init[i] == segs[i]);
        }
        lemma_subst_raw(init, vals);
        assert(segs[segs.len() - 1] == segs.last());
    }
}

proof fn lemma_trim_start_first(s: Seq<char>)
    ensures
        trim_start(s).len() > 0 ==> !is_whitespace_spec(trim_start(s)[0]),
    decreases s.len(),
{
    if s.len() > 0 && is_whitespace_spec(s[0]) {
        lemma_trim_start_first(s.drop_first());
    }
}

proof fn lemma_trim_end_prefix(s: Seq<char>)
    ensures
        trim_end(s).len() <= s.len(),
        trim_end(s) == s.take(trim_end(s).len() as int),
        trim_end(s).len() > 0 ==> !is_whitespace_spec(trim_end(s).last()),
    decreases s.len(),
{
    if s.len() > 0 && is_whitespace_spec(s.last()) {
        lemma_trim_end_prefix(s.drop_last());
        assert(s.drop_last().take(trim_end(s).len() as int) =~= s.take(trim_end(s).len() as int));
    } else {
        assert(s.take(s.len() as int) =~= s);
    }
}

/// Trimming twice trims no more than once.
pub proof fn lemma_trim_idempotent(s: Seq<char>)
    ensures
        trim(trim(s)) == trim(s),
{
    let u = trim_start(s);
    let t = trim_end(u);
    lemma_trim_start_first(s);
    lemma_trim_end_prefix(u);
    if t.len() > 0 {
        assert(t[0] == u[0]);
        assert(trim_start(t) == t);
        assert(trim_end(t) == t);
    } else {
        assert(trim_start(t) == t);
        assert(trim_end(t) == t);
    }
}

/// Every placeholder of `s[from..]` names its variable without surrounding
/// whitespace.
proof fn lemma_segs_names_trimmed(s: Seq<char>, from: int)
    requires
        0 <= from <= s.len(),
    ensures
        forall|i: int|
            0 <= i < segs_from(s, from).len() && (#[trigger] segs_from(s, from)[i]) is Placeholder ==> trim(
                segs_from(s, from)[i]->name,
            ) == segs_from(s, from)[i]->name,
    decreases s.len() - from,
{
    let o = find_pair(s, '{', from);
    if o >= 0 {
        lemma_find_pair(s, '{', from);
        let c = find_pair(s, '}', o + 2);
        if c >= 0 {
            lemma_find_pair(s, '}', o + 2);
            lemma_segs_names_trimmed(s, c + 2);
            let inner = s.subrange(o + 2, c);
            let p = bar_from(inner, 0);
            lemma_trim_idempotent(inner);
            if p >= 0 {
                lemma_trim_idempotent(inner.subrange(0, p));
            }
            let segs = segs_from(s, from);
            let lit = if o > from {
                seq![SegmentView::Literal(s.subrange(from, o))]
            } else {
                Seq::empty()
            };
            let rest = segs_from(s, c + 2);
            assert forall|i: int| 0 <= i < segs.len() && (#[trigger] segs[i]) is Placeholder implies trim(
                segs[i]->name,
            ) == segs[i]->name by {
                if i > lit.len() {
                    assert(segs[i] == rest[i - lit.len() - 1]);
                }
            }
        }
    }
}

/// The variable names extracted from `t` are written without surrounding
/// whitespace.
pub proof fn lemma_references_trimmed(t: Seq<char>)
    ensures
        forall|i: int|
            0 <= i < refs_spec(segments_spec(t)).len() ==> trim(#[trigger] refs_spec(segments_spec(t))[i])
                == refs_spec(segments_spec(t))[i],
{
    let segs = segments_spec(t);
    let r = refs_spec(segs);
    lemma_refs(segs);
    lemma_segs_names_trimmed(t, 0);
    assert forall|i: int| 0 <= i < r.len() implies trim(#[trigger] r[i]) == r[i] by {
        assert(r.contains(r[i]));
        let k = choose|k: int| 0 <= k < segs.len() && names_variable(#[trigger] segs[k], r[i]);
        assert(segs[k] is Placeholder);
    }
}

/// Whether `v` holds a string equal to `s`.
pub fn contains_string(v: &Vec<String>, s: &str) -> (r: bool)
    ensures
        r == v.deep_view().contains(s@),
{
    let mut i: usize = 0;
    while i < v.len()
        invariant
            i <= v.len(),
            forall|j: int| 0 <= j < i ==> v@[j]@ != s@,
        decreases v.len() - i,
    {
        if str_eq(v[i].as_str(), s) {
            assert(v.deep_view()[i as int] == s@);
            return true;
        }
        i = i + 1;
    }
    proof {
        if v.deep_view().contains(s@) {
            let j = choose|j: int| 0 <= j < v.deep_view().len() && v.deep_view()[j] == s@;
            assert(v@[j]@ == s@);
        }
    }
    false
}

/// Extract all `{{name}}` variable references from a program string.
///
/// Returns a deduplicated list of variable names in order of first occurrence.
pub fn extract_variable_references(program: &str) -> (r: Vec<String>)
    ensures
        r.deep_view() == refs_spec(segments_spec(program@)),
{
    let segs = segments(program);
    let ghost sv = segs_view(segs@);
    let mut refs: Vec<String> = Vec::new();
    let mut i: usize = 0;
    while i < segs.len()
        invariant
            sv == segs_view(segs@),
            i <= segs.len(),
            refs.deep_view() == refs_spec(sv.take(i as int)),
        decreases segs.len() - i,
    {
        assert(sv.take(i + 1).drop_last() =~= sv.take(i as int));
        assert(sv.take(i + 1).last() == segs@[i as int]@);
        let ghost before = refs.deep_view();
        match &segs[i] {
            Segment::Placeholder { name, .. } => {
                if name.unicode_len() > 0 && !contains_string(&refs, name.as_str()) {
                    refs.push(name.clone());
                    assert(refs.deep_view() =~= before.push(name@));
                }
            },
            Segment::Literal(_) => {},
        }
        i = i + 1;
    }
    assert(sv.take(segs.len() as int) =~= sv);
    refs
}

// --- Substitution ---

/// The value of the first pair named `k` in `vals`.
pub open spec fn lookup(vals: Seq<(Seq<char>, Seq<char>)>, k: Seq<char>) -> Option<Seq<char>>
    decreases vals.len(),
{
    if vals.len() == 0 {
        None
    } else if vals[0].0 == k {
        Some(vals[0].1)
    } else {
        lookup(vals.drop_first(), k)
    }
}

/// The value of the first pair of `values` named `name`.
pub fn lookup_value<'a>(values: &'a Vec<(String, String)>, name: &str) -> (r: Option<&'a String>)
    ensures
        match r {
            Some(v) => lookup(pairs_view(values@), name@) == Some(v@),
            None => lookup(pairs_view(values@), name@) is None,
        },
{
    let ghost pv = pairs_view(values@);
    let mut i: usize = 0;
    assert(pv.skip(0) =~= pv);
    while i < values.len()
        invariant
            pv == pairs_view(values@),
            i <= values.len(),
            lookup(pv, name@) == lookup(pv.skip(i as int), name@),
        decreases values.len() - i,
    {
        assert(pv.skip(i as int)[0] == pv[i as int]);
        if str_eq(values[i].0.as_str(), name) {
            return Some(&values[i].1);
        }
        assert(pv.skip(i as int).drop_first() =~= pv.skip(i + 1));
        i = i + 1;
    }
    None
}

/// The text of `segs` with each placeholder replaced by its value, or kept
/// as written when it has none.
pub open spec fn subst_segs(segs: Seq<SegmentView>, vals: Seq<(Seq<char>, Seq<char>)>) -> Seq<char>
    decreases segs.len(),
{
    if segs.len() == 0 {
        Seq::empty()
    } else {
        subst_segs(segs.drop_last(), vals) + match segs.last() {
            SegmentView::Literal(t) => t,
            SegmentView::Placeholder { raw, name, basename } => match lookup(vals, name) {
                Some(v) => if basename {
                    basename_value(v)
                } else {
                    v
                },
                None => raw,
            },
        }
    }
}

/// What the `basename` filter makes of value `v`: its last path component,
/// or `v` itself when it has none (such as `/`).
pub open spec fn basename_value(v: Seq<char>) -> Seq<char> {
    match path_file_name(v) {
        Some(n) => n,
        None => v,
    }
}

/// `template` with its placeholders substituted from `vals`.
pub open spec fn substitute_spec(template: Seq<char>, vals: Seq<(Seq<char>, Seq<char>)>) -> Seq<
    char,
> {
    subst_segs(segments_spec(template), vals)
}

/// Substitute `{{name}}` placeholders with their values in a single pass;
/// `{{name|basename}}` inserts the last path component of the value.
///
/// Inserted values are never rescanned, so a value containing `{{other}}`
/// stays verbatim. Placeholders with no matching name are left as-is.
/// `values` pairs a name with its value; a name listed twice takes its first value.
pub fn substitute(template: &str, values: &Vec<(String, String)>) -> (r: String)
    ensures
        r@ == substitute_spec(template@, pairs_view(values@)),
{
    let segs = segments(template);
    let ghost sv = segs_view(segs@);
    let ghost vals = pairs_view(values@);
    let mut out = String::new();
    let mut i: usize = 0;
    while i < segs.len()
        invariant
            sv == segs_view(segs@),
            vals == pairs_view(values@),
            i <= segs.len(),
            out@ == subst_segs(sv.take(i as int), vals),
        decreases segs.len() - i,
    {
        assert(sv.take(i + 1).drop_last() =~= sv.take(i as int));
        assert(sv.take(i + 1).last() == segs@[i as int]@);
        match &segs[i] {
            Segment::Literal(t) => {
                out.append(t.as_str());
            },
            Segment::Placeholder { raw, name, basename } => {
                match lookup_value(values, name.as_str()) {
                    Some(v) => {
                        if *basename {
                            match file_name(v.as_str()) {
                                Some(n) => out.append(n.as_str()),
                                None => out.append(v.as_str()),
                            }
                        } else {
                            out.append(v.as_str())
                        }
                    },
                    None => out.append(raw.as_str()),
                }
            },
        }
        i = i + 1;
    }
    assert(sv.take(segs.len() as int) =~= sv);
    out
}

/// Each word of `words` with its placeholders substituted from `values`.
pub fn substitute_words(words: &Vec<String>, values: &Vec<(String, String)>) -> (r: Vec<String>)
    ensures
        r.deep_view() == words.deep_view().map_values(
            |w: Seq<char>| substitute_spec(w, pairs_view(values@)),
        ),
{
    let mut r: Vec<String> = Vec::new();
    let mut i: usize = 0;
    while i < words.len()
        invariant
            i <= words.len(),
            r@.len() == i,
            forall|j: int|
                0 <= j < i ==> #[trigger] r@[j]@ == substitute_spec(
                    words@[j]@,
                    pairs_view(values@),
                ),
        decreases words.len() - i,
    {
        r.push(substitute(words[i].as_str(), values));
        i = i + 1;
    }
    assert(r.deep_view() =~= words.deep_view().map_values(
        |w: Seq<char>| substitute_spec(w, pairs_view(values@)),
    ));
    r
}

// --- Argument vectors ---

#[verifier::external_type_specification]
#[verifier::external_body]
pub struct ExShellParseError(shell_words::ParseError);

/// The words that `shell_words::split` makes of `s`, or `None` where it
/// reports unbalanced quotes.
pub uninterp spec fn shell_split_spec(s: Seq<char>) -> Option<Seq<Seq<char>>>;

/// `shell_words::split`: splits `s` into words by POSIX shell quoting rules.
/// Its contract names the result and claims nothing else of the algorithm.
#[verifier::external_body]
fn shell_split(s: &str) -> (r: Result<Vec<String>, shell_words::ParseError>)
    ensures
        match r {
            Ok(words) => shell_split_spec(s@) == Some(words.deep_view()),
            Err(_) => shell_split_spec(s@) is None,
        },
{
    shell_words::split(s)
}

/// The text of `segs` with each placeholder rewritten as `{{name}}`, so that
/// `{{ name }}` does not split into several words.
pub open spec fn normalize_segs(segs: Seq<SegmentView>) -> Seq<char>
    decreases segs.len(),
{
    if segs.len() == 0 {
        Seq::empty()
    } else {
        normalize_segs(segs.drop_last()) + match segs.last() {
            SegmentView::Literal(t) => t,
            SegmentView::Placeholder { name, basename, .. } => if basename {
                "{{"@ + name + "|basename}}"@
            } else {
                "{{"@ + name + "}}"@
            },
        }
    }
}

/// The argument vector of `program`: the words of its normalized text,
/// each with its placeholders substituted.
pub open spec fn build_argv_spec(program: Seq<char>, vals: Seq<(Seq<char>, Seq<char>)>) -> Option<
    Seq<Seq<char>>,
> {
    match shell_split_spec(normalize_segs(segments_spec(program))) {
        Some(words) => Some(words.map_values(|w: Seq<char>| substitute_spec(w, vals))),
        None => None,
    }
}

/// `program` with every placeholder written as `{{name}}` (or
/// `{{name|basename}}`).
pub fn normalize_placeholders(program: &str) -> (r: String)
    ensures
        r@ == normalize_segs(segments_spec(program@)),
{
    let segs = segments(program);
    let ghost sv = segs_view(segs@);
    let mut out = String::new();
    let mut i: usize = 0;
    while i < segs.len()
        invariant
            sv == segs_view(segs@),
            i <= segs.len(),
            out@ == normalize_segs(sv.take(i as int)),
        decreases segs.len() - i,
    {
        assert(sv.take(i + 1).drop_last() =~= sv.take(i as int));
        assert(sv.take(i + 1).last() == segs@[i as int]@);
        match &segs[i] {
            Segment::Literal(t) => {
                out.append(t.as_str());
            },
            Segment::Placeholder { name, basename, .. } => {
                out.append("{{");
                out.append(name.as_str());
                if *basename {
                    out.append("|basename}}");
                } else {
                    out.append("}}");
                }
                proof {
                    reveal_strlit("{{");
                    reveal_strlit("}}");
                    reveal_strlit("|basename}}");
                }
            },
        }
        i = i + 1;
    }
    assert(sv.take(segs.len() as int) =~= sv);
    out
}

/// Turn a program string into an argument vector: split with shell quoting
/// rules (no shell is invoked), then substitute placeholders in each word.
///
/// Splitting first keeps every value inside the argument its placeholder was
/// written in, whatever spaces or quotes the value contains. Fails when the
/// program string has unbalanced quotes.
pub fn build_argv(program: &str, values: &Vec<(String, String)>) -> (r: Result<
    Vec<String>,
    shell_words::ParseError,
>)
    ensures
        match r {
            Ok(argv) => build_argv_spec(program@, pairs_view(values@)) == Some(argv.deep_view()),
            Err(_) => build_argv_spec(program@, pairs_view(values@)) is None,
        },
{
    let normalized = normalize_placeholders(program);
    match shell_split(normalized.as_str()) {
        Ok(words) => Ok(substitute_words(&words, values)),
        Err(e) => Err(e),
    }
}

// --- Hook environment ---

/// The hook variable name for template variable `name`.
pub open spec fn hook_env_var_spec(name: Seq<char>) -> Seq<char> {
    "NDW_VAR_"@ + name.map_values(|c: char| if is_alnum_spec(c) { upper_spec(c) } else { '_' })
}

/// A hook variable name is safe to use in a shell: `NDW_VAR_` and then only
/// ASCII upper-case letters, digits and `_`, one for each character of the
/// template variable's name.
pub proof fn lemma_hook_env_var_shell_safe(name: Seq<char>)
    ensures
        hook_env_var_spec(name).len() == 8 + name.len(),
        hook_env_var_spec(name).take(8) == "NDW_VAR_"@,
        forall|i: int|
            0 <= i < hook_env_var_spec(name).len() ==> {
                let c = #[trigger] hook_env_var_spec(name)[i];
                is_upper_spec(c) || is_digit_spec(c) || c == '_'
            },
{
    reveal_strlit("NDW_VAR_");
    let v = hook_env_var_spec(name);
    assert(v.take(8) =~= "NDW_VAR_"@);
    assert forall|i: int| 0 <= i < v.len() implies {
        let c = #[trigger] v[i];
        is_upper_spec(c) || is_digit_spec(c) || c == '_'
    } by {
        if i >= 8 {
            let c = name[i - 8];
            assert(v[i] == (if is_alnum_spec(c) { upper_spec(c) } else { '_' }));
        }
    }
}

/// The hook environment variable for template variable `name`: `NDW_VAR_`
/// followed by `name` uppercased, with every character other than an ASCII
/// letter or digit replaced by `_`.
pub fn hook_env_var(name: &str) -> (r: String)
    ensures
        r@ == hook_env_var_spec(name@),
{
    let v = chars_of(name);
    let mut r = "NDW_VAR_".to_string();
    proof {
        reveal_strlit("NDW_VAR_");
    }
    let mut i: usize = 0;
    while i < v.len()
        invariant
            v@ == name@,
            i <= v.len(),
            r@ == "NDW_VAR_"@ + v@.take(i as int).map_values(
                |c: char| if is_alnum_spec(c) { upper_spec(c) } else { '_' },
            ),
        decreases v.len() - i,
    {
        let c = v[i];
        let d = if is_alnum(c) {
            to_upper(c)
        } else {
            '_'
        };
        push_char(&mut r, d);
        i = i + 1;
        assert(v@.take(i as int).map_values(
            |c: char| if is_alnum_spec(c) { upper_spec(c) } else { '_' },
        ) =~= v@.take(i - 1).map_values(
            |c: char| if is_alnum_spec(c) { upper_spec(c) } else { '_' },
        ).push(d));
    }
    assert(v@.take(v.len() as int) =~= v@);
    r
}

/// The fixed entries of the hook environment.
pub open spec fn hook_env_fixed(ws_name: Seq<char>, key: char, template: Option<Seq<char>>) -> Seq<
    (Seq<char>, Seq<char>),
> {
    seq![
        ("NDW_WORKSPACE_NAME"@, ws_name),
        ("NDW_WORKSPACE_KEY"@, seq![key]),
        (
            "NDW_TEMPLATE"@,
            match template {
                Some(t) => t,
                None => Seq::empty(),
            },
        ),
    ]
}

/// The entries of sorted variables under their hook variable names.
pub open spec fn hook_env_vars(sorted: Seq<(Seq<char>, Seq<char>)>) -> Seq<(Seq<char>, Seq<char>)> {
    sorted.map_values(|p: (Seq<char>, Seq<char>)| (hook_env_var_spec(p.0), p.1))
}

/// Build the environment variable pairs for hook execution.
///
/// Variables follow the fixed entries under their [`hook_env_var`] names,
/// ordered by variable name (then value).
pub fn build_hook_env(
    workspace_name: &str,
    workspace_key: char,
    template_name: Option<&str>,
    variables: &Vec<(String, String)>,
) -> (r: Vec<(String, String)>)
    ensures
        exists|sorted: Seq<(Seq<char>, Seq<char>)>|
            #![trigger pairs_sorted(sorted)]
            pairs_sorted(sorted) && sorted.to_multiset() == pairs_view(variables@).to_multiset()
                && pairs_view(r@) == hook_env_fixed(
                workspace_name@,
                workspace_key,
                match template_name {
                    Some(t) => Some(t@),
                    None => None,
                },
            ) + hook_env_vars(sorted),
{
    let mut key = String::new();
    push_char(&mut key, workspace_key);
    let template = match template_name {
        Some(t) => t.to_string(),
        None => String::new(),
    };
    let mut env: Vec<(String, String)> = Vec::new();
    env.push(("NDW_WORKSPACE_NAME".to_string(), workspace_name.to_string()));
    env.push(("NDW_WORKSPACE_KEY".to_string(), key));
    env.push(("NDW_TEMPLATE".to_string(), template));
    let sorted = sort_pairs(variables);
    let ghost sv = pairs_view(sorted@);
    let ghost fixed = pairs_view(env@);
    let mut i: usize = 0;
    while i < sorted.len()
        invariant
            sv == pairs_view(sorted@),
            i <= sorted.len(),
            pairs_view(env@) == fixed + hook_env_vars(sv.take(i as int)),
        decreases sorted.len() - i,
    {
        let name = hook_env_var(sorted[i].0.as_str());
        let value = sorted[i].1.clone();
        let ghost before = env@;
        env.push((name, value));
        proof {
            assert(sv[i as int] == (sorted@[i as int].0@, sorted@[i as int].1@));
            assert(sv.take(i + 1) =~= sv.take(i as int).push(sv[i as int]));
            assert(hook_env_vars(sv.take(i + 1)) =~= hook_env_vars(sv.take(i as int)).push(
                (hook_env_var_spec(sv[i as int].0), sv[i as int].1),
            ));
            assert(pairs_view(env@) =~= pairs_view(before).push((name@, value@)));
        }
        i = i + 1;
        assert(pairs_view(env@) =~= fixed + hook_env_vars(sv.take(i as int)));
    }
    assert(sv.take(sorted.len() as int) =~= sv);
    proof {
        reveal_strlit("NDW_WORKSPACE_NAME");
        reveal_strlit("NDW_WORKSPACE_KEY");
        reveal_strlit("NDW_TEMPLATE");
        assert(fixed =~= hook_env_fixed(
            workspace_name@,
            workspace_key,
            match template_name {
                Some(t) => Some(t@),
                None => None,
            },
        ));
        assert(pairs_sorted(sv));
    }
    env
}

// --- Hook commands that read a variable ---

/// A character that continues a shell word: an ASCII letter, digit or `_`.
pub open spec fn is_word_char(c: char) -> bool {
    is_alnum_spec(c) || c == '_'
}

/// The match of `var` at `i` in `cmd` is a whole word.
pub open spec fn whole_word_at(cmd: Seq<char>, var: Seq<char>, i: int) -> bool {
    &&& !(i > 0 && is_word_char(cmd[i - 1]))
    &&& !(i + var.len() < cmd.len() && is_word_char(cmd[i + var.len()]))
}

/// Some non-overlapping match of `var` in `cmd` at or after `i`, taken from
/// left to right as `str::match_indices` takes them, is a whole word.
pub open spec fn mentions_from(cmd: Seq<char>, var: Seq<char>, i: int) -> bool
    decreases cmd.len() + 1 - i,
    when i >= 0
{
    if i + var.len() > cmd.len() {
        false
    } else if cmd.subrange(i, i + var.len()) == var {
        whole_word_at(cmd, var, i) || mentions_from(
            cmd,
            var,
            i + if var.len() > 0 {
                var.len() as int
            } else {
                1
            },
        )
    } else {
        mentions_from(cmd, var, i + 1)
    }
}

/// Whether `var` occurs at index `i` of `cmd`.
fn occurs_at_exec(cmd: &Vec<char>, var: &Vec<char>, i: usize) -> (r: bool)
    requires
        i + var@.len() <= cmd@.len(),
    ensures
        r == (cmd@.subrange(i as int, i + var@.len()) == var@),
{
    let mut k: usize = 0;
    while k < var.len()
        invariant
            i + var@.len() <= cmd@.len(),
            cmd@.len() == cmd.len(),
            k <= var.len(),
            forall|t: int| 0 <= t < k ==> cmd@[i + t] == var@[t],
        decreases var.len() - k,
    {
        if cmd[i + k] != var[k] {
            assert(cmd@.subrange(i as int, i + var@.len())[k as int] != var@[k as int]);
            return false;
        }
        k = k + 1;
    }
    assert(cmd@.subrange(i as int, i + var@.len()) =~= var@);
    true
}

fn is_word_char_exec(c: char) -> (r: bool)
    ensures
        r == is_word_char(c),
{
    is_alnum(c) || c == '_'
}

/// Whether shell `command` contains `var` as a whole word, as in
/// `"$NDW_VAR_PATH"` but not `$NDW_VAR_PATHS`.
pub fn mentions_env_var(command: &str, var: &str) -> (r: bool)
    ensures
        r == mentions_from(command@, var@, 0),
{
    let cmd = chars_of(command);
    let pat = chars_of(var);
    let n = cmd.len();
    let m = pat.len();
    let mut i: usize = 0;
    while i <= n && m <= n - i
        invariant
            i <= n,
            cmd@ == command@,
            pat@ == var@,
            n == cmd@.len(),
            m == pat@.len(),
            mentions_from(command@, var@, 0) == mentions_from(command@, var@, i as int),
        decreases n + 1 - i,
    {
        if occurs_at_exec(&cmd, &pat, i) {
            let before_ok = !(i > 0 && is_word_char_exec(cmd[i - 1]));
            let after_ok = !(i + m < n && is_word_char_exec(cmd[i + m]));
            if before_ok && after_ok {
                return true;
            }
            if m > 0 {
                i = i + m;
            } else if i == n {
                assert(!mentions_from(command@, var@, n + 1));
                return false;
            } else {
                i = i + 1;
            }
        } else if i == n {
            assert(command@.subrange(n as int, n as int) =~= var@);
            return false;
        } else {
            i = i + 1;
        }
    }
    false
}

// --- Workspace titles ---

/// The component `s` ends with as a path, as `Path::file_name` reads it:
/// components are separated by `/`, empty and `.` components are dropped,
/// and a last component `..` (or none at all) gives `None`.
pub open spec fn path_file_name(s: Seq<char>) -> Option<Seq<char>> {
    match last_component(s) {
        Some(c) if c != ".."@ => Some(c),
        _ => None,
    }
}

/// The state of reading `s` component by component: the component being
/// read and the last complete one that counts.
pub open spec fn components_state(s: Seq<char>) -> (Seq<char>, Option<Seq<char>>)
    decreases s.len(),
{
    if s.len() == 0 {
        (Seq::empty(), None)
    } else {
        let (cur, last) = components_state(s.drop_last());
        if s.last() == '/' {
            (Seq::empty(), finish_component(cur, last))
        } else {
            (cur.push(s.last()), last)
        }
    }
}

/// The last component that counts once `cur` ends.
pub open spec fn finish_component(cur: Seq<char>, last: Option<Seq<char>>) -> Option<Seq<char>> {
    if cur.len() == 0 || cur == "."@ {
        last
    } else {
        Some(cur)
    }
}

/// The last component of `s` that counts.
pub open spec fn last_component(s: Seq<char>) -> Option<Seq<char>> {
    let (cur, last) = components_state(s);
    finish_component(cur, last)
}

/// The last component of path `s` (`Path::file_name`).
pub fn file_name(s: &str) -> (r: Option<String>)
    ensures
        match r {
            Some(n) => path_file_name(s@) == Some(n@),
            None => path_file_name(s@) is None,
        },
{
    proof {
        reveal_strlit(".");
        reveal_strlit("..");
    }
    let v = chars_of(s);
    let mut cur: Vec<char> = Vec::new();
    let mut last: Option<Vec<char>> = None;
    let mut i: usize = 0;
    while i < v.len()
        invariant
            v@ == s@,
            i <= v.len(),
            components_state(v@.take(i as int)) == (
                cur@,
                match last {
                    Some(l) => Some(l@),
                    None => None,
                },
            ),
        decreases v.len() - i,
    {
        assert(v@.take(i + 1).drop_last() =~= v@.take(i as int));
        assert(v@.take(i + 1).last() == v@[i as int]);
        let c = v[i];
        proof {
            reveal_strlit(".");
        }
        if c == '/' {
            let is_dot = cur.len() == 1 && cur[0] == '.';
            proof {
                if cur@.len() == 1 {
                    assert(is_dot <==> cur@ =~= "."@);
                } else {
                    assert(cur@ != "."@);
                }
            }
            if !(cur.len() == 0 || is_dot) {
                last = Some(cur);
            }
            cur = Vec::new();
        } else {
            cur.push(c);
        }
        i = i + 1;
    }
    assert(v@.take(v.len() as int) =~= v@);
    let is_dot = cur.len() == 1 && cur[0] == '.';
    proof {
        if cur@.len() == 1 {
            assert(is_dot <==> cur@ =~= "."@);
        } else {
            assert(cur@ != "."@);
        }
    }
    let fin = if cur.len() == 0 || is_dot {
        last
    } else {
        Some(cur)
    };
    match fin {
        Some(c) => {
            let is_dotdot = c.len() == 2 && c[0] == '.' && c[1] == '.';
            proof {
                if c@.len() == 2 {
                    assert(is_dotdot <==> c@ =~= ".."@);
                } else {
                    assert(c@ != ".."@);
                }
            }
            if is_dotdot {
                None
            } else {
                Some(string_of(&c))
            }
        },
        None => None,
    }
}

/// The title a workspace created from a template gets.
pub open spec fn workspace_title_spec(
    title_template: Option<Seq<char>>,
    first: Option<(Seq<char>, bool)>,
    vals: Seq<(Seq<char>, Seq<char>)>,
) -> Option<Seq<char>> {
    match title_template {
        Some(t) => {
            let result = substitute_spec(t, vals);
            if result.len() == 0 {
                None
            } else {
                Some(result)
            }
        },
        None => match first {
            None => None,
            Some((name, is_dir)) => match lookup(vals, name) {
                None => None,
                Some(v) => if v.len() == 0 {
                    None
                } else if is_dir {
                    path_file_name(v)
                } else {
                    Some(v)
                },
            },
        },
    }
}

/// The name of a variable and whether its choices are directories.
pub open spec fn var_title_source(v: TemplateVariable) -> (Seq<char>, bool) {
    (v.name@, v.var_type matches VariableType::Select(Select::Dirs { .. }))
}

/// Resolve a workspace title from template config and variable values.
///
/// - If `title_template` is `Some`, substitutes `{{var}}` placeholders.
/// - If `None` and variables are non-empty, uses the first variable's value
///   (its last path component for directory variables).
/// - Returns `None` if no variables exist or the title would be empty.
pub fn resolve_workspace_title(
    title_template: Option<&str>,
    variables: &Vec<TemplateVariable>,
    values: &Vec<(String, String)>,
) -> (r: Option<String>)
    ensures
        match r {
            Some(t) => workspace_title_spec(
                match title_template {
                    Some(t) => Some(t@),
                    None => None,
                },
                if variables@.len() > 0 {
                    Some(var_title_source(variables@[0]))
                } else {
                    None
                },
                pairs_view(values@),
            ) == Some(t@),
            None => workspace_title_spec(
                match title_template {
                    Some(t) => Some(t@),
                    None => None,
                },
                if variables@.len() > 0 {
                    Some(var_title_source(variables@[0]))
                } else {
                    None
                },
                pairs_view(values@),
            ) is None,
        },
{
    match title_template {
        Some(template) => {
            let result = substitute(template, values);
            if result.unicode_len() == 0 {
                None
            } else {
                Some(result)
            }
        },
        None => {
            if variables.len() == 0 {
                return None;
            }
            let first = &variables[0];
            let value = match lookup_value(values, first.name.as_str()) {
                Some(v) => v,
                None => return None,
            };
            if value.unicode_len() == 0 {
                return None;
            }
            let is_dir = match &first.var_type {
                VariableType::Select(Select::Dirs { .. }) => true,
                _ => false,
            };
            if is_dir {
                file_name(value.as_str())
            } else {
                Some(value.clone())
            }
        },
    }
}

} // verus!
