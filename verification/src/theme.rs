//! The overlay's colour palette: a built-in theme by name, or a CSS file.

use vstd::prelude::*;

use crate::text::{
    eq_ignore_case, has_char, starts_with, str_eq_ignore_case, str_has_char, str_starts_with,
};

verus! {

/// Colour palette for the overlay, from `general.theme`.
#[derive(Clone, Debug, PartialEq, Eq)]
pub enum Theme {
    /// A built-in palette, by its name.
    Builtin(String),
    /// CSS file layered over the GTK primaries.
    File(String),
}

/// The built-in palettes, sorted by name; `gtk` follows the GTK theme.
pub open spec fn builtin_theme_names_spec() -> Seq<Seq<char>> {
    seq![
        "catppuccin-latte"@,
        "catppuccin-mocha"@,
        "dark"@,
        "dracula"@,
        "everforest"@,
        "fireproof"@,
        "flexoki-dark"@,
        "flexoki-light"@,
        "gruvbox-dark"@,
        "gruvbox-light"@,
        "gtk"@,
        "kanagawa"@,
        "light"@,
        "nord"@,
        "rose-pine"@,
        "solarized-dark"@,
        "solarized-light"@,
        "tokyo-night"@,
    ]
}

/// The names of the built-in palettes, sorted.
pub fn builtin_theme_names() -> (v: Vec<&'static str>)
    ensures
        v@.map_values(|s: &str| s@) == builtin_theme_names_spec(),
{
    let v = vec![
        "catppuccin-latte",
        "catppuccin-mocha",
        "dark",
        "dracula",
        "everforest",
        "fireproof",
        "flexoki-dark",
        "flexoki-light",
        "gruvbox-dark",
        "gruvbox-light",
        "gtk",
        "kanagawa",
        "light",
        "nord",
        "rose-pine",
        "solarized-dark",
        "solarized-light",
        "tokyo-night",
    ];
    assert(v@.map_values(|s: &str| s@) =~= builtin_theme_names_spec());
    v
}

/// The first built-in name equal to `name` ignoring ASCII case.
pub open spec fn builtin_spec_from(names: Seq<Seq<char>>, name: Seq<char>) -> Option<Seq<char>>
    decreases names.len(),
{
    if names.len() == 0 {
        None
    } else if eq_ignore_case(names[0], name) {
        Some(names[0])
    } else {
        builtin_spec_from(names.drop_first(), name)
    }
}

/// A value is a file path when it holds `/` or ends in `.css` (any case)
/// after a non-empty stem, as `Path::extension` reads it.
pub open spec fn is_theme_path(value: Seq<char>) -> bool {
    has_char(value, '/') || (value.len() >= 5 && eq_ignore_case(
        value.skip(value.len() - 4),
        ".css"@,
    ))
}

/// `path` with a leading `~/` replaced by `home` and `/`, when there is a home.
pub open spec fn expand_tilde_spec(path: Seq<char>, home: Option<Seq<char>>) -> Seq<char> {
    match home {
        Some(h) if starts_with(path, "~/"@) => h + "/"@ + path.skip(2),
        _ => path,
    }
}

/// The message for an unknown theme name.
pub open spec fn unknown_theme_message(value: Seq<char>) -> Seq<char> {
    "unknown theme '"@ + value + "' (expected a .css path or one of: "@ + join_names(
        builtin_theme_names_spec(),
    ) + "), defaulting to gtk"@
}

/// `names` joined by `, `.
pub open spec fn join_names(names: Seq<Seq<char>>) -> Seq<char>
    decreases names.len(),
{
    if names.len() == 0 {
        Seq::empty()
    } else if names.len() == 1 {
        names[0]
    } else {
        join_names(names.drop_last()) + ", "@ + names.last()
    }
}

/// What `general.theme = value` selects, with `home` as the home directory.
pub open spec fn parse_theme_spec(value: Seq<char>, home: Option<Seq<char>>) -> Result<
    (bool, Seq<char>),
    Seq<char>,
> {
    if is_theme_path(value) {
        Ok((false, expand_tilde_spec(value, home)))
    } else {
        match builtin_spec_from(builtin_theme_names_spec(), value) {
            Some(n) => Ok((true, n)),
            None => Err(unknown_theme_message(value)),
        }
    }
}

impl Theme {
    /// Whether this is built-in palette (`true`) or file (`false`) `name`.
    pub open spec fn is(&self, builtin: bool, name: Seq<char>) -> bool {
        match self {
            Theme::Builtin(n) => builtin && n@ == name,
            Theme::File(p) => !builtin && p@ == name,
        }
    }

    /// The built-in palette named `name`, ignoring ASCII case.
    pub fn builtin(name: &str) -> (r: Option<Theme>)
        ensures
            match r {
                Some(t) => builtin_spec_from(builtin_theme_names_spec(), name@) matches Some(n)
                    && t.is(true, n),
                None => builtin_spec_from(builtin_theme_names_spec(), name@) is None,
            },
    {
        let names = builtin_theme_names();
        let ghost all = builtin_theme_names_spec();
        let mut i: usize = 0;
        assert(all.skip(0) =~= all);
        while i < names.len()
            invariant
                names@.map_values(|s: &str| s@) == all,
                all == builtin_theme_names_spec(),
                i <= names@.len(),
                builtin_spec_from(all, name@) == builtin_spec_from(all.skip(i as int), name@),
            decreases names@.len() - i,
        {
            assert(all.skip(i as int)[0] == names@[i as int]@);
            if str_eq_ignore_case(names[i], name) {
                return Some(Theme::Builtin(names[i].to_string()));
            }
            assert(all.skip(i as int).drop_first() =~= all.skip(i + 1));
            i = i + 1;
        }
        None
    }

    /// `gtk`, the palette that follows the GTK theme.
    pub fn gtk() -> (t: Theme)
        ensures
            t.is(true, "gtk"@),
    {
        Theme::Builtin("gtk".to_string())
    }

    /// A value containing `/` or ending in `.css` is a file, with a leading
    /// `~/` expanded against `home`; anything else must be a built-in name.
    pub fn parse_with_home(value: &str, home: Option<&str>) -> (r: Result<Theme, String>)
        ensures
            match r {
                Ok(t) => parse_theme_spec(
                    value@,
                    match home {
                        Some(h) => Some(h@),
                        None => None,
                    },
                ) matches Ok((b, n)) && t.is(b, n),
                Err(e) => parse_theme_spec(
                    value@,
                    match home {
                        Some(h) => Some(h@),
                        None => None,
                    },
                ) == Err::<(bool, Seq<char>), Seq<char>>(e@),
            },
    {
        proof {
            reveal_strlit(".css");
        }
        let n = value.unicode_len();
        let mut is_path = str_has_char(value, '/');
        if !is_path && n >= 5 {
            let ext = value.substring_char(n - 4, n);
            assert(ext@ =~= value@.skip(n - 4));
            is_path = str_eq_ignore_case(ext, ".css");
        }
        if is_path {
            return Ok(Theme::File(expand_tilde_with(value, home)));
        }
        match Theme::builtin(value) {
            Some(t) => Ok(t),
            None => Err(unknown_theme_message_exec(value)),
        }
    }

    /// [`Theme::parse_with_home`] with the user's home directory.
    pub fn parse(value: &str) -> (r: Result<Theme, String>)
        ensures
            exists|home: Option<Seq<char>>|
                #![trigger parse_theme_spec(value@, home)]
                match r {
                    Ok(t) => parse_theme_spec(value@, home) matches Ok((b, n)) && t.is(b, n),
                    Err(e) => parse_theme_spec(value@, home) == Err::<(bool, Seq<char>), Seq<char>>(
                        e@,
                    ),
                },
    {
        let home = home_dir();
        let r = match &home {
            Some(h) => Theme::parse_with_home(value, Some(h.as_str())),
            None => Theme::parse_with_home(value, None),
        };
        proof {
            let hv = match home {
                Some(h) => Some(h@),
                None => None,
            };
            assert(match r {
                Ok(t) => parse_theme_spec(value@, hv) matches Ok((b, n)) && t.is(b, n),
                Err(e) => parse_theme_spec(value@, hv) == Err::<(bool, Seq<char>), Seq<char>>(e@),
            });
        }
        r
    }
}

/// The message naming an unknown theme and the built-in ones.
fn unknown_theme_message_exec(value: &str) -> (r: String)
    ensures
        r@ == unknown_theme_message(value@),
{
    let names = builtin_theme_names();
    let mut joined = String::new();
    let mut i: usize = 0;
    while i < names.len()
        invariant
            names@.map_values(|s: &str| s@) == builtin_theme_names_spec(),
            i <= names@.len(),
            joined@ == join_names(builtin_theme_names_spec().take(i as int)),
        decreases names@.len() - i,
    {
        let ghost all = builtin_theme_names_spec();
        assert(all.take(i + 1).drop_last() =~= all.take(i as int));
        assert(all.take(i + 1).last() == names@[i as int]@);
        if i > 0 {
            joined.append(", ");
        }
        joined.append(names[i]);
        i = i + 1;
    }
    assert(builtin_theme_names_spec().take(names@.len() as int) =~= builtin_theme_names_spec());
    let mut r = "unknown theme '".to_string();
    r.append(value);
    r.append("' (expected a .css path or one of: ");
    r.append(joined.as_str());
    r.append("), defaulting to gtk");
    r
}

/// The user's home directory as `dirs::home_dir` finds it, shown as text.
/// Nothing is claimed of the result: it comes from the environment.
#[verifier::external_body]
pub(crate) fn home_dir() -> Option<String> {
    dirs::home_dir().map(|h| h.display().to_string())
}

/// Expand a leading `~/` in `path` against `home`.
pub fn expand_tilde_with(path: &str, home: Option<&str>) -> (r: String)
    ensures
        r@ == expand_tilde_spec(
            path@,
            match home {
                Some(h) => Some(h@),
                None => None,
            },
        ),
{
    proof {
        reveal_strlit("~/");
        reveal_strlit("/");
    }
    match home {
        Some(h) => {
            if str_starts_with(path, "~/") {
                let n = path.unicode_len();
                let rest = path.substring_char(2, n);
                let mut r = h.to_string();
                r.append("/");
                r.append(rest);
                assert(rest@ =~= path@.skip(2));
                r
            } else {
                path.to_string()
            }
        },
        None => path.to_string(),
    }
}

/// Expand a leading `~/` in a path to the user's home directory.
pub fn expand_tilde(path: &str) -> (r: String)
    ensures
        exists|home: Option<Seq<char>>| r@ == #[trigger] expand_tilde_spec(path@, home),
{
    let home = home_dir();
    match &home {
        Some(h) => expand_tilde_with(path, Some(h.as_str())),
        None => expand_tilde_with(path, None),
    }
}

} // verus!
