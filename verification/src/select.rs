//! The choice of a select variable: ranking its options against what was
//! typed, what Enter submits, and the text shown under the list.

use nucleo_matcher::pattern::{AtomKind, CaseMatching, Normalization, Pattern};
use nucleo_matcher::{Config as MatcherConfig, Matcher, Utf32Str};
use vstd::prelude::*;

use crate::config::Select;
use crate::loading::{decimal, decimal_string};
use crate::template::{trim, trim_bounds};
use crate::text::{chars_of, opt_view, split_char, split_char_spec, starts_with, string_of_range};
use crate::theme::{expand_tilde_spec, expand_tilde_with, home_dir};

verus! {

/// The score `nucleo_matcher` gives `option` for the fuzzy pattern `query`.
pub uninterp spec fn fuzzy_score_of(query: Seq<char>, option: Seq<char>) -> Option<u32>;

/// Scores `option` against `query` with `nucleo_matcher`: the query is split
/// into words, matched fuzzily, ignoring case, with smart normalization, by a
/// matcher with the default configuration. The contract only names the
/// result: `None` when some word does not match, else the summed score.
#[verifier::external_body]
fn fuzzy_score(query: &str, option: &str) -> (r: Option<u32>)
    ensures
        r == fuzzy_score_of(query@, option@),
{
    let pattern = Pattern::new(query, CaseMatching::Ignore, Normalization::Smart, AtomKind::Fuzzy);
    let mut matcher = Matcher::new(MatcherConfig::DEFAULT);
    let mut buf = Vec::new();
    pattern.score(Utf32Str::new(option, &mut buf), &mut matcher)
}

/// The scores of `options` for `query`.
pub open spec fn scores_for(query: Seq<char>, options: Seq<String>) -> Seq<Option<u32>> {
    options.map_values(|o: String| fuzzy_score_of(query, o@))
}

/// Option `a` ranks before option `b`: a higher score, or the same score and an earlier place.
pub open spec fn ranked_before(scores: Seq<Option<u32>>, a: int, b: int) -> bool {
    ||| scores[a]->0 > scores[b]->0
    ||| (scores[a]->0 == scores[b]->0 && a < b)
}

/// Scored entry `x` goes before scored entry `y`.
spec fn entry_before(x: (usize, u32), y: (usize, u32)) -> bool {
    x.1 > y.1 || (x.1 == y.1 && x.0 < y.0)
}

/// Where `(i, s)` goes among `scored`: after every entry that scores at least `s`.
fn insert_position(scored: &Vec<(usize, u32)>, s: u32) -> (p: usize)
    requires
        forall|a: int, b: int| 0 <= a < b < scored@.len() ==> entry_before(#[trigger] scored@[a], #[trigger] scored@[b]),
    ensures
        p <= scored@.len(),
        forall|k: int| 0 <= k < p ==> (#[trigger] scored@[k]).1 >= s,
        forall|k: int| p <= k < scored@.len() ==> (#[trigger] scored@[k]).1 < s,
{
    let mut p: usize = 0;
    while p < scored.len() && scored[p].1 >= s
        invariant
            p <= scored@.len(),
            forall|k: int| 0 <= k < p ==> (#[trigger] scored@[k]).1 >= s,
        decreases scored@.len() - p,
    {
        p = p + 1;
    }
    proof {
        assert forall|k: int| p <= k < scored@.len() implies (#[trigger] scored@[k]).1 < s by {
            if k > p {
                assert(entry_before(scored@[p as int], scored@[k]));
            }
        }
    }
    p
}

/// The places of `options` that match `query`, best first; equal scores keep
/// their order. An empty query keeps every option, in order.
pub fn fuzzy_filter(query: &str, options: &Vec<String>) -> (r: Vec<usize>)
    ensures
        query@.len() == 0 ==> r@ == Seq::new(options@.len(), |i: int| i as usize),
        query@.len() > 0 ==> {
            let scores = scores_for(query@, options@);
            &&& forall|k: int| 0 <= k < r@.len() ==> (#[trigger] r@[k]) < options@.len() && scores[r@[k] as int] is Some
            &&& forall|i: int| 0 <= i < options@.len() && (#[trigger] scores[i]) is Some ==> r@.contains(i as usize)
            &&& forall|a: int, b: int| 0 <= a < b < r@.len() ==> ranked_before(scores, #[trigger] r@[a] as int, #[trigger] r@[b] as int)
        },
{
    if query.unicode_len() == 0 {
        let mut all: Vec<usize> = Vec::new();
        let mut i: usize = 0;
        while i < options.len()
            invariant
                i <= options@.len(),
                all@ == Seq::new(i as nat, |j: int| j as usize),
            decreases options@.len() - i,
        {
            all.push(i);
            assert(all@ =~= Seq::new((i + 1) as nat, |j: int| j as usize));
            i = i + 1;
        }
        return all;
    }
    let ghost scores = scores_for(query@, options@);
    let mut scored: Vec<(usize, u32)> = Vec::new();
    let mut i: usize = 0;
    while i < options.len()
        invariant
            i <= options@.len(),
            scores == scores_for(query@, options@),
            forall|k: int| 0 <= k < scored@.len() ==> (#[trigger] scored@[k]).0 < i && scores[scored@[k].0 as int] == Some(scored@[k].1),
            forall|j: int| 0 <= j < i && (#[trigger] scores[j]) is Some ==> exists|k: int| 0 <= k < scored@.len() && scored@[k].0 == j,
            forall|a: int, b: int| 0 <= a < b < scored@.len() ==> entry_before(#[trigger] scored@[a], #[trigger] scored@[b]),
        decreases options@.len() - i,
    {
        let score = fuzzy_score(query, options[i].as_str());
        assert(scores[i as int] == score);
        match score {
            Some(s) => {
                let p = insert_position(&scored, s);
                let ghost old_scored = scored@;
                scored.insert(p, (i, s));
                proof {
                    old_scored.insert_ensures(p as int, (i, s));
                    assert forall|k: int| 0 <= k < scored@.len() implies (#[trigger] scored@[k]).0 < i + 1 && scores[scored@[k].0 as int] == Some(scored@[k].1) by {
                        if k > p {
                            assert(scored@[k] == old_scored[k - 1]);
                        }
                    }
                    assert forall|j: int| 0 <= j < i + 1 && (#[trigger] scores[j]) is Some implies exists|k: int| 0 <= k < scored@.len() && scored@[k].0 == j by {
                        if j == i {
                            assert(scored@[p as int].0 == j);
                        } else {
                            let k = choose|k: int| 0 <= k < old_scored.len() && old_scored[k].0 == j;
                            if k < p {
                                assert(scored@[k].0 == j);
                            } else {
                                assert(scored@[k + 1].0 == j);
                            }
                        }
                    }
                    assert forall|a: int, b: int| 0 <= a < b < scored@.len() implies entry_before(#[trigger] scored@[a], #[trigger] scored@[b]) by {
                        if a < p && b < p {
                            assert(entry_before(old_scored[a], old_scored[b]));
                        } else if a < p && b == p {
                            assert(old_scored[a].1 >= s);
                            assert(old_scored[a].0 < i);
                        } else if a < p && b > p {
                            assert(scored@[b] == old_scored[b - 1]);
                            assert(entry_before(old_scored[a], old_scored[b - 1]));
                        } else if a == p {
                            assert(scored@[b] == old_scored[b - 1]);
                            assert(old_scored[b - 1].1 < s);
                        } else {
                            assert(scored@[a] == old_scored[a - 1]);
                            assert(scored@[b] == old_scored[b - 1]);
                            assert(entry_before(old_scored[a - 1], old_scored[b - 1]));
                        }
                    }
                }
            },
            None => {},
        }
        i = i + 1;
    }
    let mut r: Vec<usize> = Vec::new();
    let mut k: usize = 0;
    while k < scored.len()
        invariant
            k <= scored@.len(),
            r@.len() == k,
            forall|m: int| 0 <= m < k ==> r@[m] == (#[trigger] scored@[m]).0,
        decreases scored@.len() - k,
    {
        r.push(scored[k].0);
        k = k + 1;
    }
    proof {
        assert forall|m: int| 0 <= m < r@.len() implies (#[trigger] r@[m]) < options@.len() && scores[r@[m] as int] is Some by {
            assert(r@[m] == scored@[m].0);
        }
        assert forall|j: int| 0 <= j < options@.len() && (#[trigger] scores[j]) is Some implies r@.contains(j as usize) by {
            let m = choose|m: int| 0 <= m < scored@.len() && scored@[m].0 == j;
            assert(r@[m] == j as usize);
        }
        assert forall|a: int, b: int| 0 <= a < b < r@.len() implies ranked_before(scores, #[trigger] r@[a] as int, #[trigger] r@[b] as int) by {
            assert(r@[a] == scored@[a].0);
            assert(r@[b] == scored@[b].0);
            assert(entry_before(scored@[a], scored@[b]));
        }
    }
    r
}

/// What Enter does with typed text that matches no option.
#[derive(Clone, Copy, Debug, PartialEq, Eq, Structural)]
pub enum Unmatched {
    /// A closed list: nothing is submitted.
    Reject,
    /// The list only helps finding a value: the typed text is submitted.
    UseText,
    /// The typed path is submitted if it is an existing absolute directory.
    UseDir,
}

impl Unmatched {
    pub open spec fn for_source_spec(source: Select) -> Unmatched {
        match source {
            Select::Options(_) => Unmatched::Reject,
            Select::Command(_) => Unmatched::UseText,
            Select::Dirs { .. } => Unmatched::UseDir,
        }
    }

    /// What typed text that matches nothing does, for options from `source`.
    pub fn for_source(source: &Select) -> (r: Unmatched)
        ensures
            r == Self::for_source_spec(*source),
    {
        match source {
            Select::Options(_) => Unmatched::Reject,
            Select::Command(_) => Unmatched::UseText,
            Select::Dirs { .. } => Unmatched::UseDir,
        }
    }
}

/// What pressing Enter in a select submits.
#[derive(Debug)]
pub enum Submission {
    /// This value.
    Value(String),
    /// Nothing, for this reason.
    Refused(String),
    /// The directory at `path` if there is one there; `text` is what was typed.
    CheckDir { path: String, text: String },
}

/// The message when typed text matches no option.
pub open spec fn no_option_message(text: Seq<char>) -> Seq<char> {
    "no option matches \""@ + text + "\""@
}

/// The message when typed text names no directory.
pub open spec fn no_directory_message(text: Seq<char>) -> Seq<char> {
    "no directory at \""@ + text + "\""@
}

/// `r` is what Enter submits: the highlighted option `best`; else the typed
/// text, trimmed, as `unmatched` allows, a path after `~/` expands against `home`.
pub open spec fn submits(
    r: Submission,
    best: Option<Seq<char>>,
    typed: Seq<char>,
    unmatched: Unmatched,
    home: Option<Seq<char>>,
) -> bool {
    let text = trim(typed);
    match best {
        Some(b) => r matches Submission::Value(v) && v@ == b,
        None => match unmatched {
            Unmatched::UseText if text.len() > 0 => r matches Submission::Value(v) && v@ == text,
            Unmatched::UseDir => r matches Submission::CheckDir { path, text: t } && path@ == expand_tilde_spec(
                text,
                home,
            ) && t@ == text,
            _ => r matches Submission::Refused(e) && e@ == no_option_message(text),
        },
    }
}

/// `s` without leading and trailing whitespace.
fn trimmed(s: &str) -> (r: String)
    ensures
        r@ == trim(s@),
{
    let v = chars_of(s);
    let (a, b) = trim_bounds(&v, 0, v.len());
    assert(v@.subrange(0, v@.len() as int) =~= v@);
    string_of_range(&v, a, b)
}

/// What Enter submits, with `~/` expanding against `home`.
pub fn select_value_with_home(best: Option<&str>, typed: &str, unmatched: Unmatched, home: Option<&str>) -> (r: Submission)
    ensures
        submits(r, opt_view(best), typed@, unmatched, opt_view(home)),
{
    match best {
        Some(b) => Submission::Value(b.to_string()),
        None => {
            let text = trimmed(typed);
            match unmatched {
                Unmatched::UseText => {
                    if text.unicode_len() > 0 {
                        Submission::Value(text)
                    } else {
                        let mut e = "no option matches \"".to_string();
                        e.append(text.as_str());
                        e.append("\"");
                        Submission::Refused(e)
                    }
                },
                Unmatched::UseDir => {
                    let path = expand_tilde_with(text.as_str(), home);
                    Submission::CheckDir { path, text }
                },
                Unmatched::Reject => {
                    let mut e = "no option matches \"".to_string();
                    e.append(text.as_str());
                    e.append("\"");
                    Submission::Refused(e)
                },
            }
        },
    }
}

/// What Enter submits, with `~/` expanding against the user's home directory.
pub fn select_value(best: Option<&str>, typed: &str, unmatched: Unmatched) -> (r: Submission)
    ensures
        exists|home: Option<Seq<char>>|
            #[trigger] submits(r, opt_view(best), typed@, unmatched, home),
{
    let home = home_dir();
    match &home {
        Some(h) => select_value_with_home(best, typed, unmatched, Some(h.as_str())),
        None => select_value_with_home(best, typed, unmatched, None),
    }
}

/// The directory a `CheckDir` submission gives: `path` when it is absolute
/// and `is_dir` says a directory is there (a relative path would resolve
/// against the daemon's directory, not the user's).
pub fn dir_selection(path: &str, text: &str, is_dir: bool) -> (r: Result<String, String>)
    ensures
        match r {
            Ok(p) => starts_with(path@, "/"@) && is_dir && p@ == path@,
            Err(e) => !(starts_with(path@, "/"@) && is_dir) && e@ == no_directory_message(text@),
        },
{
    if path.unicode_len() > 0 && path.get_char(0) == '/' && is_dir {
        proof {
            reveal_strlit("/");
            assert(path@.take(1) =~= "/"@);
        }
        Ok(path.to_string())
    } else {
        proof {
            reveal_strlit("/");
            if path@.len() > 0 && starts_with(path@, "/"@) {
                assert(path@.take(1)[0] == path@[0]);
            }
        }
        let mut e = "no directory at \"".to_string();
        e.append(text);
        e.append("\"");
        Err(e)
    }
}

/// Rows a select shows; more matches are reached by typing.
pub const MAX_VISIBLE_OPTIONS: usize = 50;

pub open spec fn fuzzy_hint_spec(match_count: nat, unmatched: Unmatched) -> Option<Seq<char>> {
    if match_count == 0 {
        Some(
            match unmatched {
                Unmatched::Reject => "no match"@,
                Unmatched::UseText => "no match, Enter uses the typed text"@,
                Unmatched::UseDir => "no match, Enter uses the typed path if it is a directory"@,
            },
        )
    } else if match_count > MAX_VISIBLE_OPTIONS {
        Some("\u{2026} and "@ + decimal((match_count - MAX_VISIBLE_OPTIONS) as nat) + " more, keep typing to narrow"@)
    } else {
        None
    }
}

/// The line under the list: what Enter does when nothing matches, or how
/// many matches are not shown.
pub fn fuzzy_hint(match_count: usize, unmatched: Unmatched) -> (r: Option<String>)
    ensures
        match r {
            Some(s) => fuzzy_hint_spec(match_count as nat, unmatched) == Some(s@),
            None => fuzzy_hint_spec(match_count as nat, unmatched) is None,
        },
{
    if match_count == 0 {
        let text = match unmatched {
            Unmatched::Reject => "no match",
            Unmatched::UseText => "no match, Enter uses the typed text",
            Unmatched::UseDir => "no match, Enter uses the typed path if it is a directory",
        };
        return Some(text.to_string());
    }
    if match_count <= MAX_VISIBLE_OPTIONS {
        return None;
    }
    let mut r = "\u{2026} and ".to_string();
    let hidden = decimal_string((match_count - MAX_VISIBLE_OPTIONS) as u128);
    r.append(hidden.as_str());
    r.append(" more, keep typing to narrow");
    Some(r)
}

/// The text of `bytes` as `String::from_utf8_lossy` decodes it.
pub uninterp spec fn utf8_lossy(bytes: Seq<u8>) -> Seq<char>;

/// Decodes `bytes` with `String::from_utf8_lossy`, which replaces each
/// invalid sequence with U+FFFD. The contract only names the result.
#[verifier::external_body]
fn text_of_bytes(bytes: &[u8]) -> (r: String)
    ensures
        r@ == utf8_lossy(bytes@),
{
    String::from_utf8_lossy(bytes).into_owned()
}

/// The non-empty ones of `lines`.
pub open spec fn non_empty(lines: Seq<Seq<char>>) -> Seq<Seq<char>>
    decreases lines.len(),
{
    if lines.len() == 0 {
        Seq::empty()
    } else if lines.last().len() > 0 {
        non_empty(lines.drop_last()).push(lines.last())
    } else {
        non_empty(lines.drop_last())
    }
}

/// The lines of `text`, trimmed, without the empty ones.
pub open spec fn option_lines(text: Seq<char>) -> Seq<Seq<char>> {
    non_empty(split_char_spec(text, '\n').map_values(|l: Seq<char>| trim(l)))
}

/// The trimmed non-empty lines of `text`.
fn text_lines(text: &str) -> (r: Vec<String>)
    ensures
        r.deep_view() == option_lines(text@),
{
    let pieces = split_char(text, '\n');
    let ghost trimmed_all = split_char_spec(text@, '\n').map_values(|l: Seq<char>| trim(l));
    let mut r: Vec<String> = Vec::new();
    let mut i: usize = 0;
    assert(trimmed_all.take(0) =~= Seq::<Seq<char>>::empty());
    while i < pieces.len()
        invariant
            i <= pieces@.len(),
            pieces.deep_view() == split_char_spec(text@, '\n'),
            trimmed_all == split_char_spec(text@, '\n').map_values(|l: Seq<char>| trim(l)),
            r.deep_view() == non_empty(trimmed_all.take(i as int)),
        decreases pieces@.len() - i,
    {
        assert(pieces.deep_view()[i as int] == pieces@[i as int]@);
        let line = trimmed(pieces[i].as_str());
        assert(trimmed_all.take(i + 1).drop_last() =~= trimmed_all.take(i as int));
        assert(trimmed_all.take(i + 1).last() == line@);
        if line.unicode_len() > 0 {
            let ghost before = r.deep_view();
            r.push(line);
            assert(r.deep_view() =~= before.push(line@));
        }
        i = i + 1;
    }
    assert(trimmed_all.take(pieces@.len() as int) =~= trimmed_all);
    r
}

/// The options a command printed: each non-empty line of `stdout`, trimmed.
pub fn parse_option_lines(stdout: &[u8]) -> (r: Vec<String>)
    ensures
        r.deep_view() == option_lines(utf8_lossy(stdout@)),
{
    let text = text_of_bytes(stdout);
    text_lines(text.as_str())
}

/// An exit code as text.
pub open spec fn code_text(c: int) -> Seq<char> {
    if c < 0 {
        "-"@ + decimal((-c) as nat)
    } else {
        decimal(c as nat)
    }
}

/// How a failed command ended: its exit code, or a signal.
pub open spec fn status_text(code: Option<i32>) -> Seq<char> {
    match code {
        Some(c) => "exit "@ + code_text(c as int),
        None => "killed by a signal"@,
    }
}

pub open spec fn failure_message_spec(code: Option<i32>, stderr: Seq<char>) -> Seq<char> {
    let lines = option_lines(stderr);
    if lines.len() > 0 {
        "command failed ("@ + status_text(code) + "): "@ + lines[0]
    } else {
        "command failed ("@ + status_text(code) + ")"@
    }
}

/// Why a command that failed gives no options: how it ended, and the first
/// non-empty line of its error output.
pub fn failure_message(code: Option<i32>, stderr: &[u8]) -> (r: String)
    ensures
        r@ == failure_message_spec(code, utf8_lossy(stderr@)),
{
    let mut r = "command failed (".to_string();
    match code {
        Some(c) => {
            r.append("exit ");
            if c < 0 {
                r.append("-");
                let n = decimal_string((0i64 - (c as i64)) as u128);
                r.append(n.as_str());
            } else {
                let n = decimal_string(c as u128);
                r.append(n.as_str());
            }
        },
        None => r.append("killed by a signal"),
    }
    let text = text_of_bytes(stderr);
    let lines = text_lines(text.as_str());
    if lines.len() > 0 {
        assert(lines.deep_view()[0] == lines@[0]@);
        r.append("): ");
        r.append(lines[0].as_str());
    } else {
        r.append(")");
    }
    r
}

} // verus!

