//! How dynamic workspaces are named: `{prefix}{key}` or `{prefix}{key} {title}`.

use vstd::prelude::*;

use crate::text::{
    eq_ignore_case, is_digit, is_digit_spec, is_lower, is_lower_spec, push_char,
    starts_with, str_eq_ignore_case, str_starts_with,
};

verus! {

/// A key that can name a workspace: `a`–`z` or `0`–`9`.
pub open spec fn is_workspace_char_spec(c: char) -> bool {
    is_lower_spec(c) || is_digit_spec(c)
}

/// The workspace key written by `s`: exactly one workspace character.
pub open spec fn parse_workspace_char_spec(s: Seq<char>) -> Option<char> {
    if s.len() == 1 && is_workspace_char_spec(s[0]) {
        Some(s[0])
    } else {
        None
    }
}

/// `{prefix}{ch}`.
pub open spec fn workspace_name_spec(prefix: Seq<char>, ch: char) -> Seq<char> {
    prefix.push(ch)
}

/// `{prefix}{ch} {title}`, or `{prefix}{ch}` when the title is absent or empty.
pub open spec fn workspace_name_with_title_spec(
    prefix: Seq<char>,
    ch: char,
    title: Option<Seq<char>>,
) -> Seq<char> {
    match title {
        Some(t) if t.len() > 0 => prefix.push(ch).push(' ') + t,
        _ => workspace_name_spec(prefix, ch),
    }
}

/// The key and title of dynamic workspace name `name` under `prefix`: the
/// name is the prefix, one workspace character, and then nothing or a space
/// and the title (an empty title counts as none).
pub open spec fn parse_dynamic_name_spec(name: Seq<char>, prefix: Seq<char>) -> Option<
    (char, Option<Seq<char>>),
> {
    if !starts_with(name, prefix) {
        None
    } else {
        let rest = name.skip(prefix.len() as int);
        if rest.len() == 0 || !is_workspace_char_spec(rest[0]) {
            None
        } else if rest.len() == 1 {
            Some((rest[0], None))
        } else if rest[1] != ' ' {
            None
        } else if rest.len() == 2 {
            Some((rest[0], None))
        } else {
            Some((rest[0], Some(rest.skip(2))))
        }
    }
}

/// Returns `true` if `ch` is a valid workspace key character.
///
/// Accepts lowercase letters (a–z) and digits (0–9).
pub fn is_workspace_char(ch: char) -> (r: bool)
    ensures
        r == is_workspace_char_spec(ch),
{
    is_lower(ch) || is_digit(ch)
}

/// Parse a string as a single valid workspace-key character.
pub fn parse_workspace_char(s: &str) -> (r: Option<char>)
    ensures
        r == parse_workspace_char_spec(s@),
{
    if s.unicode_len() != 1 {
        return None;
    }
    let ch = s.get_char(0);
    if is_workspace_char(ch) {
        Some(ch)
    } else {
        None
    }
}

/// Parse a workspace key given on the command line; the error says what a key is.
pub fn parse_key_arg(s: &str) -> (r: Result<char, String>)
    ensures
        match (r, parse_workspace_char_spec(s@)) {
            (Ok(c), Some(k)) => c == k,
            (Err(e), None) => e@ == "must be a single key, a-z or 0-9"@,
            _ => false,
        },
{
    match parse_workspace_char(s) {
        Some(c) => Ok(c),
        None => Err("must be a single key, a-z or 0-9".to_string()),
    }
}

/// Format a workspace name from a prefix and a single-character key.
pub fn workspace_name(prefix: &str, ch: char) -> (r: String)
    ensures
        r@ == workspace_name_spec(prefix@, ch),
{
    let mut r = prefix.to_string();
    push_char(&mut r, ch);
    r
}

/// Format a workspace name with an optional title suffix.
pub fn workspace_name_with_title(prefix: &str, ch: char, title: Option<&str>) -> (r: String)
    ensures
        r@ == workspace_name_with_title_spec(
            prefix@,
            ch,
            match title {
                Some(t) => Some(t@),
                None => None,
            },
        ),
{
    match title {
        Some(t) if t.unicode_len() > 0 => {
            let mut r = workspace_name(prefix, ch);
            push_char(&mut r, ' ');
            r.append(t);
            r
        },
        _ => workspace_name(prefix, ch),
    }
}

/// Parse a dynamic workspace name into its key and optional title.
///
/// Accepts `{prefix}{key}` and `{prefix}{key} {title}`; anything else after
/// the key (as in `dyn-alpha`) is not a dynamic workspace. An empty title
/// yields `None`.
pub fn parse_dynamic_name<'a>(ws_name: &'a str, prefix: &str) -> (r: Option<(char, Option<&'a str>)>)
    ensures
        r matches Some((ch, title)) ==> parse_dynamic_name_spec(ws_name@, prefix@) == Some(
            (
                ch,
                match title {
                    Some(t) => Some(t@),
                    None => None,
                },
            ),
        ),
        r is None <==> parse_dynamic_name_spec(ws_name@, prefix@) is None,
{
    if !str_starts_with(ws_name, prefix) {
        return None;
    }
    let n = ws_name.unicode_len();
    let p = prefix.unicode_len();
    let ghost rest = ws_name@.skip(p as int);
    if n == p {
        return None;
    }
    let ch = ws_name.get_char(p);
    assert(rest[0] == ws_name@[p as int]);
    if !is_workspace_char(ch) {
        return None;
    }
    if n == p + 1 {
        return Some((ch, None));
    }
    assert(rest[1] == ws_name@[p + 1]);
    if ws_name.get_char(p + 1) != ' ' {
        return None;
    }
    if n == p + 2 {
        return Some((ch, None));
    }
    let title = ws_name.substring_char(p + 2, n);
    assert(title@ =~= rest.skip(2));
    Some((ch, Some(title)))
}

/// Whether two workspace names match the way niri matches them: ASCII case-insensitively.
pub fn same_workspace_name(a: &str, b: &str) -> (r: bool)
    ensures
        r == eq_ignore_case(a@, b@),
{
    str_eq_ignore_case(a, b)
}

/// A workspace named from a key and a title reads back as that key and title.
pub proof fn lemma_name_round_trip(prefix: Seq<char>, ch: char, title: Option<Seq<char>>)
    requires
        is_workspace_char_spec(ch),
    ensures
        parse_dynamic_name_spec(workspace_name_with_title_spec(prefix, ch, title), prefix)
            == Some(
            (
                ch,
                match title {
                    Some(t) if t.len() > 0 => Some(t),
                    _ => None,
                },
            ),
        ),
{
    let name = workspace_name_with_title_spec(prefix, ch, title);
    assert(name.take(prefix.len() as int) =~= prefix);
    match title {
        Some(t) if t.len() > 0 => {
            let rest = name.skip(prefix.len() as int);
            assert(rest.skip(2) =~= t);
            assert(rest[0] == ch);
            assert(rest[1] == ' ');
        },
        _ => {
            assert(name.skip(prefix.len() as int) =~= seq![ch]);
        },
    }
}

} // verus!
