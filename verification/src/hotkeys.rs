//! What the template hotkeys that resolving a config hands out always
//! satisfy: no key is given twice, `1` (the picker's Empty option) is never
//! given, every key is a workspace character, a template's own key is kept
//! when no earlier template kept it, and with at most 34 templates every
//! template gets one.

use vstd::prelude::*;

use crate::naming::{is_workspace_char_spec, parse_workspace_char_spec};
use crate::resolve::{
    auto_candidates, auto_keys, free_candidates, key_spec, resolve_templates_spec, templates_spec,
    tmpl_step, RawTemplate, TemplateSpec, TemplatesAcc,
};

verus! {

/// How many of `ts` have no hotkey.
pub open spec fn keyless_count(ts: Seq<TemplateSpec>) -> nat
    decreases ts.len(),
{
    if ts.len() == 0 {
        0
    } else {
        (if ts[0].key is None { 1nat } else { 0nat }) + keyless_count(ts.drop_first())
    }
}

/// The hotkeys of `ts` are pairwise different.
pub open spec fn keys_distinct(ts: Seq<TemplateSpec>) -> bool {
    forall|i: int, j: int| 0 <= i < j < ts.len() && (#[trigger] ts[i]).key is Some ==> ts[i].key != (#[trigger] ts[j]).key
}

/// Every hotkey of `ts` is a workspace character other than `1`.
pub open spec fn keys_allowed(ts: Seq<TemplateSpec>) -> bool {
    forall|i: int|
        0 <= i < ts.len() ==> match (#[trigger] ts[i]).key {
            Some(c) => c != '1' && is_workspace_char_spec(c),
            None => true,
        }
}

/// The hotkeys templates get when a config is resolved never repeat, are
/// never `1`, and are workspace characters; with at most 34 templates, every
/// template gets one.
pub proof fn lemma_template_keys(entries: Seq<(String, RawTemplate)>, global: Seq<Seq<char>>)
    ensures
        keys_distinct(resolve_templates_spec(entries, global).0),
        keys_allowed(resolve_templates_spec(entries, global).0),
        resolve_templates_spec(entries, global).0.len() <= 34 ==> forall|i: int|
            0 <= i < resolve_templates_spec(entries, global).0.len() ==> (#[trigger] resolve_templates_spec(
                entries,
                global,
            ).0[i]).key is Some,
{
    let acc = templates_spec(entries, global);
    lemma_templates_acc(entries, global);
    let used = acc.used;
    let avail = free_candidates(used);
    lemma_candidates();
    let cands = auto_candidates();
    assert forall|j: int| 0 <= j < avail.len() implies {
        let c = #[trigger] avail[j];
        c != '1' && is_workspace_char_spec(c) && !used.contains(c)
    } by {
        reveal(Seq::filter);
        let p = |c: char| !used.contains(c);
        cands.lemma_filter_pred(p, j);
        assert(cands.filter(p).contains(avail[j]));
        cands.lemma_filter_contains_rev(p, avail[j]);
    }
    lemma_filter_no_dups(cands, |c: char| !used.contains(c));
    assert forall|i: int, j: int| 0 <= i < acc.templates.len() && 0 <= j < avail.len() implies (#[trigger] acc.templates[i]).key
        != Some(#[trigger] avail[j]) by {
        if acc.templates[i].key == Some(avail[j]) {
            assert(used.contains(avail[j]));
        }
    }
    lemma_auto_keys(acc.templates, avail);
    let r = auto_keys(acc.templates, avail);
    assert forall|i: int| 0 <= i < r.len() implies match (#[trigger] r[i]).key {
        Some(c) => c != '1' && is_workspace_char_spec(c),
        None => true,
    } by {
        if r[i].key is Some {
            let c = r[i].key->Some_0;
            if !avail.contains(c) {
                let j = choose|j: int| 0 <= j < acc.templates.len() && acc.templates[j].key == Some(c);
                assert(match acc.templates[j].key {
                    Some(c) => c != '1' && is_workspace_char_spec(c),
                    None => true,
                });
            } else {
                let j = choose|j: int| 0 <= j < avail.len() && avail[j] == c;
                assert(avail[j] == c);
            }
        }
    }
    if r.len() <= 34 {
        lemma_free_count(used);
    }
}

/// The candidates for automatic keys are 34 different workspace characters,
/// none of them `1`.
proof fn lemma_candidates()
    ensures
        auto_candidates().len() == 34,
        auto_candidates().no_duplicates(),
        forall|j: int| 0 <= j < auto_candidates().len() ==> (#[trigger] auto_candidates()[j]) != '1' && is_workspace_char_spec(
            auto_candidates()[j],
        ),
{
    reveal_strlit("23456789abcdefghijklmnopqrstuvwxyz");
    let cands = auto_candidates();
    assert forall|i: int, j: int| 0 <= i < j < cands.len() implies (cands[i] as u32) < (cands[j] as u32) by {
        reveal_strlit("23456789abcdefghijklmnopqrstuvwxyz");
    }
}

/// Keeping some items of a list without repeats gives a list without repeats.
proof fn lemma_filter_no_dups(s: Seq<char>, p: spec_fn(char) -> bool)
    requires
        s.no_duplicates(),
    ensures
        s.filter(p).no_duplicates(),
    decreases s.len(),
{
    reveal(Seq::filter);
    if s.len() > 0 {
        let rest = s.drop_last();
        assert(rest.no_duplicates());
        lemma_filter_no_dups(rest, p);
        if p(s.last()) {
            let f = rest.filter(p);
            assert forall|k: int| 0 <= k < f.len() implies f[k] != s.last() by {
                if f[k] == s.last() {
                    assert(f.contains(s.last()));
                    rest.lemma_filter_contains_rev(p, s.last());
                    let m = choose|m: int| 0 <= m < rest.len() && rest[m] == s.last();
                    assert(s[m] == s[s.len() - 1]);
                }
            }
        }
    }
}

/// Two tests that agree on every item of `s` keep the same items.
proof fn lemma_filter_agree(s: Seq<char>, p: spec_fn(char) -> bool, q: spec_fn(char) -> bool)
    requires
        forall|k: int| 0 <= k < s.len() ==> p(#[trigger] s[k]) == q(s[k]),
    ensures
        s.filter(p) == s.filter(q),
    decreases s.len(),
{
    reveal(Seq::filter);
    if s.len() > 0 {
        let rest = s.drop_last();
        assert forall|k: int| 0 <= k < rest.len() implies p(#[trigger] rest[k]) == q(rest[k]) by {
            assert(rest[k] == s[k]);
        }
        lemma_filter_agree(rest, p, q);
        assert(p(s[s.len() - 1]) == q(s[s.len() - 1]));
    }
}

/// Dropping the items of a finite set `u` from a list without repeats keeps
/// all but at most `u.len()` of them.
proof fn lemma_filter_out_set(s: Seq<char>, u: Set<char>)
    requires
        s.no_duplicates(),
        u.finite(),
    ensures
        s.filter(|c: char| !u.contains(c)).len() + u.len() >= s.len(),
    decreases s.len(),
{
    reveal(Seq::filter);
    if s.len() > 0 {
        let rest = s.drop_last();
        let x = s.last();
        assert(rest.no_duplicates());
        if u.contains(x) {
            let u2 = u.remove(x);
            lemma_filter_out_set(rest, u2);
            assert forall|k: int| 0 <= k < rest.len() implies (|c: char| !u.contains(c))(#[trigger] rest[k])
                == (|c: char| !u2.contains(c))(rest[k]) by {
                assert(rest[k] == s[k]);
                assert(s[k] != s[s.len() - 1]);
            }
            lemma_filter_agree(rest, |c: char| !u.contains(c), |c: char| !u2.contains(c));
        } else {
            lemma_filter_out_set(rest, u);
        }
    }
}

/// There are enough free candidates for automatic keys: at least 34 less
/// the keys taken besides `1`.
proof fn lemma_free_count(used: Seq<char>)
    requires
        used.len() >= 1,
        used[0] == '1',
        used.no_duplicates(),
    ensures
        free_candidates(used).len() + used.len() >= 35,
{
    lemma_candidates();
    let cands = auto_candidates();
    let u = used.to_set().remove('1');
    used.unique_seq_to_set();
    assert(used.to_set().contains('1'));
    vstd::seq_lib::seq_to_set_is_finite(used);
    lemma_filter_out_set(cands, u);
    assert forall|k: int| 0 <= k < cands.len() implies (|c: char| !u.contains(c))(#[trigger] cands[k])
        == (|c: char| !used.contains(c))(cands[k]) by {
        assert(cands[k] != '1');
    }
    lemma_filter_agree(cands, |c: char| !u.contains(c), |c: char| !used.contains(c));
}

/// What resolving templates in order always keeps: `1` is taken first, no
/// key is taken twice, every taken key is a workspace character, each
/// template's key is a taken key other than `1`, no two templates share a
/// key, and every key taken besides `1` belongs to a template.
proof fn lemma_templates_acc(entries: Seq<(String, RawTemplate)>, global: Seq<Seq<char>>)
    ensures
        templates_spec(entries, global).used.len() >= 1,
        templates_spec(entries, global).used[0] == '1',
        templates_spec(entries, global).used.no_duplicates(),
        forall|k: int|
            0 <= k < templates_spec(entries, global).used.len() ==> is_workspace_char_spec(
                #[trigger] templates_spec(entries, global).used[k],
            ),
        forall|i: int|
            0 <= i < templates_spec(entries, global).templates.len() ==> match (#[trigger] templates_spec(
                entries,
                global,
            ).templates[i]).key {
                Some(c) => c != '1' && templates_spec(entries, global).used.contains(c),
                None => true,
            },
        keys_distinct(templates_spec(entries, global).templates),
        keyless_count(templates_spec(entries, global).templates) + templates_spec(entries, global).used.len()
            == templates_spec(entries, global).templates.len() + 1,
        forall|k: int|
            1 <= k < templates_spec(entries, global).used.len() ==> exists|i: int|
                0 <= i < templates_spec(entries, global).templates.len() && templates_spec(entries, global).templates[i].key
                    == Some(#[trigger] templates_spec(entries, global).used[k]),
    decreases entries.len(),
{
    if entries.len() == 0 {
        assert(is_workspace_char_spec('1'));
        assert(seq!['1'].no_duplicates());
    } else {
        let init = entries.drop_last();
        lemma_templates_acc(init, global);
        let acc = templates_spec(init, global);
        let name = entries.last().0;
        let e = entries.last().1;
        let next = tmpl_step(acc, name, e, global);
        assert(templates_spec(entries, global) == next);
        if e.programs@.len() > 0 {
            let (key, used, wk) = key_spec(name@, e.key, acc.used);
            let t = next.templates.last();
            assert(next.templates == acc.templates.push(t));
            assert(t.key == key);
            lemma_keyless_push(acc.templates, t);
            assert(forall|i: int| 0 <= i < acc.templates.len() ==> next.templates[i] == acc.templates[i]);
            if key is Some {
                let ch = key->Some_0;
                assert(used == acc.used.push(ch));
                assert(!acc.used.contains(ch));
                assert(parse_workspace_char_spec(e.key->Some_0@) == Some(ch));
                assert forall|k: int| 0 <= k < used.len() implies is_workspace_char_spec(#[trigger] used[k]) by {
                    if k < acc.used.len() {
                        assert(used[k] == acc.used[k]);
                    }
                }
                assert forall|i: int, j: int| 0 <= i < used.len() && 0 <= j < used.len() && i != j implies used[i]
                    != used[j] by {
                    if i < acc.used.len() && j < acc.used.len() {
                        assert(used[i] == acc.used[i] && used[j] == acc.used[j]);
                    } else if i < acc.used.len() {
                        assert(used[i] == acc.used[i]);
                        assert(acc.used.contains(used[i]));
                    } else {
                        assert(used[j] == acc.used[j]);
                        assert(acc.used.contains(used[j]));
                    }
                }
                assert forall|c: char| acc.used.contains(c) implies used.contains(c) by {
                    let k = choose|k: int| 0 <= k < acc.used.len() && acc.used[k] == c;
                    assert(used[k] == c);
                }
                assert(used[acc.used.len() as int] == ch);
                assert forall|k: int| 1 <= k < used.len() implies exists|i: int|
                    0 <= i < next.templates.len() && next.templates[i].key == Some(#[trigger] used[k]) by {
                    if k < acc.used.len() {
                        assert(used[k] == acc.used[k]);
                        let i = choose|i: int| 0 <= i < acc.templates.len() && acc.templates[i].key == Some(acc.used[k]);
                        assert(next.templates[i] == acc.templates[i]);
                    } else {
                        assert(next.templates[acc.templates.len() as int] == t);
                    }
                }
            } else {
                assert(used == acc.used);
                assert forall|k: int| 1 <= k < used.len() implies exists|i: int|
                    0 <= i < next.templates.len() && next.templates[i].key == Some(#[trigger] used[k]) by {
                    let i = choose|i: int| 0 <= i < acc.templates.len() && acc.templates[i].key == Some(acc.used[k]);
                    assert(next.templates[i] == acc.templates[i]);
                }
            }
            let ts = next.templates;
            assert forall|i: int| 0 <= i < ts.len() implies match (#[trigger] ts[i]).key {
                Some(c) => c != '1' && used.contains(c),
                None => true,
            } by {
                if i < acc.templates.len() {
                    assert(ts[i] == acc.templates[i]);
                    assert(match acc.templates[i].key {
                        Some(c) => c != '1' && acc.used.contains(c),
                        None => true,
                    });
                }
            }
            assert forall|i: int, j: int| 0 <= i < j < ts.len() && (#[trigger] ts[i]).key is Some implies ts[i].key
                != (#[trigger] ts[j]).key by {
                assert(ts[i] == acc.templates[i]);
                assert(match acc.templates[i].key {
                    Some(c) => c != '1' && acc.used.contains(c),
                    None => true,
                });
                if j < acc.templates.len() {
                    assert(ts[j] == acc.templates[j]);
                }
            }
        }
    }
}

/// A template whose own `key` names a workspace character other than `1`
/// that no earlier template kept as its key keeps that key: after resolving
/// `entries`, the template that entry `j` makes has key `c`.
pub proof fn lemma_explicit_key_kept(entries: Seq<(String, RawTemplate)>, global: Seq<Seq<char>>, j: int, c: char)
    requires
        0 <= j < entries.len(),
        entries[j].1.programs@.len() > 0,
        entries[j].1.key matches Some(k) && parse_workspace_char_spec(k@) == Some(c),
        c != '1',
        forall|i: int|
            0 <= i < templates_spec(entries.take(j), global).templates.len() ==> (#[trigger] templates_spec(
                entries.take(j),
                global,
            ).templates[i]).key != Some(c),
    ensures
        templates_spec(entries.take(j), global).templates.len() < resolve_templates_spec(entries, global).0.len(),
        resolve_templates_spec(entries, global).0[templates_spec(entries.take(j), global).templates.len() as int].name
            == entries[j].0,
        resolve_templates_spec(entries, global).0[templates_spec(entries.take(j), global).templates.len() as int].key
            == Some(c),
{
    let before = entries.take(j);
    let upto = entries.take(j + 1);
    let acc = templates_spec(before, global);
    let n = acc.templates.len() as int;
    lemma_templates_acc(before, global);
    assert(upto.drop_last() =~= before);
    assert(upto.last() == entries[j]);
    if acc.used.contains(c) {
        let k = choose|k: int| 0 <= k < acc.used.len() && acc.used[k] == c;
        assert(k != 0);
        let i = choose|i: int| 0 <= i < acc.templates.len() && acc.templates[i].key == Some(#[trigger] acc.used[k]);
        assert(acc.templates[i].key != Some(c));
    }
    let mid = templates_spec(upto, global);
    assert(mid.templates == acc.templates.push(mid.templates.last()));
    assert(mid.templates[n] == mid.templates.last());
    assert(mid.templates[n].key == Some(c));
    assert(mid.templates[n].name == entries[j].0);
    lemma_templates_prefix(entries, j + 1, global);
    let all = templates_spec(entries, global);
    assert(all.templates[n] == mid.templates[n]);
    lemma_auto_keys_keep(all.templates, free_candidates(all.used));
}

/// Resolving a prefix of `entries` gives a prefix of their templates.
proof fn lemma_templates_prefix(entries: Seq<(String, RawTemplate)>, m: int, global: Seq<Seq<char>>)
    requires
        0 <= m <= entries.len(),
    ensures
        templates_spec(entries.take(m), global).templates.len() <= templates_spec(entries, global).templates.len(),
        forall|i: int|
            0 <= i < templates_spec(entries.take(m), global).templates.len() ==> (#[trigger] templates_spec(
                entries.take(m),
                global,
            ).templates[i]) == templates_spec(entries, global).templates[i],
    decreases entries.len(),
{
    if m == entries.len() {
        assert(entries.take(m) =~= entries);
    } else {
        let init = entries.drop_last();
        assert(init.take(m) =~= entries.take(m));
        lemma_templates_prefix(init, m, global);
        let a = templates_spec(init, global);
        let b = templates_spec(entries, global);
        assert(b == tmpl_step(a, entries.last().0, entries.last().1, global));
        assert forall|i: int| 0 <= i < a.templates.len() implies b.templates[i] == a.templates[i] by {
            if entries.last().1.programs@.len() > 0 {
                assert(b.templates == a.templates.push(b.templates.last()));
            }
        }
    }
}

/// Handing out keys leaves every template's name, and every key already
/// set, as it was.
proof fn lemma_auto_keys_keep(ts: Seq<TemplateSpec>, avail: Seq<char>)
    ensures
        auto_keys(ts, avail).len() == ts.len(),
        forall|i: int|
            0 <= i < ts.len() ==> (#[trigger] auto_keys(ts, avail)[i]).name == ts[i].name && (ts[i].key is Some
                ==> auto_keys(ts, avail)[i].key == ts[i].key),
    decreases ts.len(),
{
    if ts.len() > 0 {
        let avail2 = if ts[0].key is None && avail.len() > 0 { avail.drop_first() } else { avail };
        lemma_auto_keys_keep(ts.drop_first(), avail2);
        let r = auto_keys(ts, avail);
        let tail = auto_keys(ts.drop_first(), avail2);
        assert forall|i: int| 0 <= i < ts.len() implies (#[trigger] r[i]).name == ts[i].name && (ts[i].key is Some
            ==> r[i].key == ts[i].key) by {
            if i > 0 {
                assert(r[i] == tail[i - 1]);
                assert(ts.drop_first()[i - 1] == ts[i]);
            }
        }
    }
}

proof fn lemma_keyless_push(ts: Seq<TemplateSpec>, t: TemplateSpec)
    ensures
        keyless_count(ts.push(t)) == keyless_count(ts) + (if t.key is None { 1nat } else { 0nat }),
    decreases ts.len(),
{
    if ts.len() > 0 {
        lemma_keyless_push(ts.drop_first(), t);
        assert(ts.push(t).drop_first() =~= ts.drop_first().push(t));
        assert(ts.push(t)[0] == ts[0]);
    } else {
        assert(ts.push(t).drop_first() =~= Seq::<TemplateSpec>::empty());
        assert(ts.push(t)[0] == t);
        assert(keyless_count(Seq::<TemplateSpec>::empty()) == 0);
    }
}

/// Handing out `avail` to the keyless templates of `ts` keeps keys
/// different, takes each key from `ts` or `avail`, and gives every template
/// a key when `avail` has enough.
proof fn lemma_auto_keys(ts: Seq<TemplateSpec>, avail: Seq<char>)
    requires
        keys_distinct(ts),
        avail.no_duplicates(),
        forall|i: int, j: int| 0 <= i < ts.len() && 0 <= j < avail.len() ==> (#[trigger] ts[i]).key != Some(#[trigger] avail[j]),
    ensures
        auto_keys(ts, avail).len() == ts.len(),
        keys_distinct(auto_keys(ts, avail)),
        forall|i: int|
            0 <= i < auto_keys(ts, avail).len() && (#[trigger] auto_keys(ts, avail)[i]).key is Some ==> avail.contains(
                auto_keys(ts, avail)[i].key->Some_0,
            ) || exists|j: int| 0 <= j < ts.len() && ts[j].key == auto_keys(ts, avail)[i].key,
        keyless_count(ts) <= avail.len() ==> forall|i: int|
            0 <= i < auto_keys(ts, avail).len() ==> (#[trigger] auto_keys(ts, avail)[i]).key is Some,
    decreases ts.len(),
{
    if ts.len() > 0 {
        let t0 = ts[0];
        let rest = ts.drop_first();
        let take = t0.key is None && avail.len() > 0;
        let avail2 = if t0.key is None && avail.len() > 0 { avail.drop_first() } else { avail };
        assert forall|i: int, j: int| 0 <= i < j < rest.len() && (#[trigger] rest[i]).key is Some implies rest[i].key
            != (#[trigger] rest[j]).key by {
            assert(rest[i] == ts[i + 1] && rest[j] == ts[j + 1]);
        }
        assert(avail2.no_duplicates());
        assert forall|i: int, j: int| 0 <= i < rest.len() && 0 <= j < avail2.len() implies (#[trigger] rest[i]).key
            != Some(#[trigger] avail2[j]) by {
            assert(rest[i] == ts[i + 1]);
            if take {
                assert(avail2[j] == avail[j + 1]);
            }
        }
        lemma_auto_keys(rest, avail2);
        let tail = auto_keys(rest, avail2);
        let k0 = if t0.key is None {
            if avail.len() > 0 { Some(avail[0]) } else { None }
        } else {
            t0.key
        };
        let head = TemplateSpec { key: k0, ..t0 };
        let r = auto_keys(ts, avail);
        assert(r == seq![head] + tail);
        assert(r[0] == head);
        assert forall|i: int| 0 <= i < tail.len() implies r[i + 1] == tail[i] by {}
        // where the keys of the tail come from
        assert forall|i: int| 0 <= i < tail.len() && (#[trigger] tail[i]).key is Some implies avail.contains(
            tail[i].key->Some_0,
        ) || exists|j: int| 0 <= j < ts.len() && ts[j].key == tail[i].key by {
            if avail2.contains(tail[i].key->Some_0) {
                let m = choose|m: int| 0 <= m < avail2.len() && avail2[m] == tail[i].key->Some_0;
                if take {
                    assert(avail[m + 1] == avail2[m]);
                }
            } else {
                let j = choose|j: int| 0 <= j < rest.len() && rest[j].key == tail[i].key;
                assert(ts[j + 1] == rest[j]);
            }
        }
        // the head's key differs from every key of the tail
        if k0 is Some {
            assert forall|i: int| 0 <= i < tail.len() implies tail[i].key != k0 by {
                if tail[i].key == k0 {
                    if t0.key is None {
                        // k0 is avail[0]; the tail's keys come from rest or avail2
                        if avail2.contains(tail[i].key->Some_0) {
                            let m = choose|m: int| 0 <= m < avail2.len() && avail2[m] == tail[i].key->Some_0;
                            assert(avail[m + 1] == avail2[m]);
                            assert(avail[0] != avail[m + 1]);
                        } else {
                            let j = choose|j: int| 0 <= j < rest.len() && rest[j].key == tail[i].key;
                            assert(ts[j + 1] == rest[j]);
                        }
                    } else {
                        if avail2.contains(tail[i].key->Some_0) {
                            let m = choose|m: int| 0 <= m < avail2.len() && avail2[m] == tail[i].key->Some_0;
                            assert(ts[0].key != Some(avail[m]));
                        } else {
                            let j = choose|j: int| 0 <= j < rest.len() && rest[j].key == tail[i].key;
                            assert(ts[j + 1] == rest[j]);
                        }
                    }
                }
            }
        }
        assert forall|i: int, j: int| 0 <= i < j < r.len() && (#[trigger] r[i]).key is Some implies r[i].key
            != (#[trigger] r[j]).key by {
            if i == 0 {
                assert(r[j] == tail[j - 1]);
            } else {
                assert(r[i] == tail[i - 1] && r[j] == tail[j - 1]);
            }
        }
        assert forall|i: int| 0 <= i < r.len() && (#[trigger] r[i]).key is Some implies avail.contains(
            r[i].key->Some_0,
        ) || exists|j: int| 0 <= j < ts.len() && ts[j].key == r[i].key by {
            if i == 0 {
                if t0.key is None {
                    assert(avail[0] == r[0].key->Some_0);
                } else {
                    assert(ts[0].key == r[0].key);
                }
            } else {
                assert(r[i] == tail[i - 1]);
            }
        }
        if keyless_count(ts) <= avail.len() {
            assert(keyless_count(rest) <= avail2.len());
            assert forall|i: int| 0 <= i < r.len() implies (#[trigger] r[i]).key is Some by {
                if i > 0 {
                    assert(r[i] == tail[i - 1]);
                }
            }
        }
    }
}

} // verus!
