//! Close keybinds: `Mod+Mod+key` strings and the keys they name.
//!
//! Modifier bits are GDK's `ModifierType` values. Key names resolve through
//! a [`KeyTable`] of GDK keysyms, which the caller fills from GDK.

use vstd::prelude::*;

use crate::naming::{is_workspace_char, is_workspace_char_spec};
use crate::template::{trim, trim_bounds};
use crate::text::{chars_of, str_eq, string_of_range};

verus! {

/// GDK's `SHIFT_MASK`.
pub const SHIFT_MASK: u32 = 0x1;

/// GDK's `CONTROL_MASK`.
pub const CONTROL_MASK: u32 = 0x4;

/// GDK's `ALT_MASK`.
pub const ALT_MASK: u32 = 0x8;

/// GDK's `SUPER_MASK`.
pub const SUPER_MASK: u32 = 0x4000000;

/// A key as GDK names it: its keyval (already lowered, as GTK accelerators
/// are) and the character it types, if any.
#[derive(Clone, Copy, Debug, PartialEq, Eq, Structural)]
pub struct KeySym {
    pub keyval: u32,
    pub unicode: Option<char>,
}

/// A key combination that closes the overlay.
#[derive(Clone, Copy, Debug, PartialEq, Eq, Structural)]
pub struct Keybind {
    pub modifiers: u32,
    pub key: KeySym,
}

/// Key names and the keys they name; a name not listed is unknown.
#[derive(Clone, Debug)]
pub struct KeyTable {
    pub entries: Vec<(String, KeySym)>,
}

/// The key the first entry named `name` gives.
pub open spec fn key_lookup_spec(entries: Seq<(String, KeySym)>, name: Seq<char>) -> Option<KeySym>
    decreases entries.len(),
{
    if entries.len() == 0 {
        None
    } else if entries[0].0@ == name {
        Some(entries[0].1)
    } else {
        key_lookup_spec(entries.drop_first(), name)
    }
}

impl KeyTable {
    /// The key named `name`.
    pub fn lookup(&self, name: &str) -> (r: Option<KeySym>)
        ensures
            r == key_lookup_spec(self.entries@, name@),
    {
        let ghost e = self.entries@;
        let mut i: usize = 0;
        assert(e.skip(0) =~= e);
        while i < self.entries.len()
            invariant
                e == self.entries@,
                i <= e.len(),
                key_lookup_spec(e, name@) == key_lookup_spec(e.skip(i as int), name@),
            decreases e.len() - i,
        {
            assert(e.skip(i as int)[0] == e[i as int]);
            if str_eq(self.entries[i].0.as_str(), name) {
                return Some(self.entries[i].1);
            }
            assert(e.skip(i as int).drop_first() =~= e.skip(i + 1));
            i = i + 1;
        }
        None
    }
}

/// The modifier a name stands for.
pub open spec fn parse_modifier_spec(name: Seq<char>) -> Option<u32> {
    if name == "Ctrl"@ || name == "Control"@ {
        Some(CONTROL_MASK)
    } else if name == "Shift"@ {
        Some(SHIFT_MASK)
    } else if name == "Alt"@ || name == "Mod1"@ {
        Some(ALT_MASK)
    } else if name == "Super"@ || name == "Mod4"@ || name == "Mod"@ {
        Some(SUPER_MASK)
    } else {
        None
    }
}

/// The modifier a name stands for: `Ctrl`/`Control`, `Shift`, `Alt`/`Mod1`,
/// `Super`/`Mod4`/`Mod`.
pub fn parse_modifier(name: &str) -> (r: Option<u32>)
    ensures
        r == parse_modifier_spec(name@),
{
    if str_eq(name, "Ctrl") || str_eq(name, "Control") {
        Some(CONTROL_MASK)
    } else if str_eq(name, "Shift") {
        Some(SHIFT_MASK)
    } else if str_eq(name, "Alt") || str_eq(name, "Mod1") {
        Some(ALT_MASK)
    } else if str_eq(name, "Super") || str_eq(name, "Mod4") || str_eq(name, "Mod") {
        Some(SUPER_MASK)
    } else {
        None
    }
}

/// The pieces of `s` between `+` signs (`str::split('+')`): one more piece
/// than there are `+`.
pub open spec fn split_plus(s: Seq<char>) -> Seq<Seq<char>> {
    let (done, cur) = split_plus_state(s);
    done.push(cur)
}

/// The finished pieces of `s` and the piece still being read.
pub open spec fn split_plus_state(s: Seq<char>) -> (Seq<Seq<char>>, Seq<char>)
    decreases s.len(),
{
    if s.len() == 0 {
        (Seq::empty(), Seq::empty())
    } else {
        let (done, cur) = split_plus_state(s.drop_last());
        if s.last() == '+' {
            (done.push(cur), Seq::empty())
        } else {
            (done, cur.push(s.last()))
        }
    }
}

/// The combined modifiers of `parts` (each trimmed), or the message for the
/// first one that is not a modifier.
pub open spec fn modifiers_spec(parts: Seq<Seq<char>>) -> Result<u32, Seq<char>>
    decreases parts.len(),
{
    if parts.len() == 0 {
        Ok(0u32)
    } else {
        match modifiers_spec(parts.drop_last()) {
            Err(e) => Err(e),
            Ok(m) => match parse_modifier_spec(trim(parts.last())) {
                None => Err("unknown modifier '"@ + trim(parts.last()) + "'"@),
                Some(b) => Ok(m | b),
            },
        }
    }
}

/// The keybind `s` writes, or why it is not one.
pub open spec fn parse_keybind_spec(s: Seq<char>, keys: Seq<(String, KeySym)>) -> Result<
    Keybind,
    Seq<char>,
> {
    let parts = split_plus(s);
    let key_name = trim(parts.last());
    match modifiers_spec(parts.drop_last()) {
        Err(e) => Err(e),
        Ok(m) => match key_lookup_spec(keys, key_name) {
            None => Err("unknown key name '"@ + key_name + "'"@),
            Some(k) => Ok(Keybind { modifiers: m, key: k }),
        },
    }
}

/// Parse a keybind such as `Ctrl+Shift+q`: modifiers joined by `+`, then a
/// key name looked up in `keys`.
pub fn parse_keybind(s: &str, keys: &KeyTable) -> (r: Result<Keybind, String>)
    ensures
        match r {
            Ok(kb) => parse_keybind_spec(s@, keys.entries@) == Ok::<Keybind, Seq<char>>(kb),
            Err(e) => parse_keybind_spec(s@, keys.entries@) == Err::<Keybind, Seq<char>>(e@),
        },
{
    let v = chars_of(s);
    let n = v.len();
    // Split into pieces, folding the modifiers of each finished piece.
    let mut start: usize = 0;
    let mut i: usize = 0;
    let mut mods: u32 = 0;
    let ghost mut done: Seq<Seq<char>> = Seq::empty();
    while i < n
        invariant
            v@ == s@,
            n == v@.len(),
            start <= i <= n,
            split_plus_state(v@.take(i as int)) == (done, v@.subrange(start as int, i as int)),
            modifiers_spec(done) == Ok::<u32, Seq<char>>(mods),
        decreases n - i,
    {
        assert(v@.take(i + 1).drop_last() =~= v@.take(i as int));
        assert(v@.take(i + 1).last() == v@[i as int]);
        if v[i] == '+' {
            let (a, b) = trim_bounds(&v, start, i);
            let part = string_of_range(&v, a, b);
            assert(trim(v@.subrange(start as int, i as int)) == part@);
            proof {
                assert((done.push(v@.subrange(start as int, i as int))).drop_last() =~= done);
            }
            match parse_modifier(part.as_str()) {
                None => {
                    let mut e = "unknown modifier '".to_string();
                    e.append(part.as_str());
                    e.append("'");
                    proof {
                        reveal_strlit("'");
                        let p = done.push(v@.subrange(start as int, i as int));
                        assert(v@.take(i + 1).drop_last() =~= v@.take(i as int));
                        assert(split_plus_state(v@.take(i + 1)).0 == p);
                        assert(modifiers_spec(p) == Err::<u32, Seq<char>>(e@));
                        lemma_state_prefix(v@, i + 1);
                        lemma_modifiers_prefix(p, split_plus_state(v@).0);
                        assert(split_plus(s@).drop_last() =~= split_plus_state(v@).0);
                    }
                    return Err(e);
                },
                Some(b) => {
                    mods = mods | b;
                },
            }
            proof {
                done = done.push(v@.subrange(start as int, i as int));
            }
            start = i + 1;
        }
        i = i + 1;
        assert(v@.subrange(start as int, i as int) =~= if v@[i - 1] == '+' {
            Seq::<char>::empty()
        } else {
            v@.subrange(start as int, i - 1).push(v@[i - 1])
        });
    }
    assert(v@.take(n as int) =~= v@);
    let ghost parts = split_plus(s@);
    assert(parts.drop_last() =~= done);
    let (a, b) = trim_bounds(&v, start, n);
    let key_name = string_of_range(&v, a, b);
    match keys.lookup(key_name.as_str()) {
        None => {
            let mut e = "unknown key name '".to_string();
            e.append(key_name.as_str());
            e.append("'");
            Err(e)
        },
        Some(k) => Ok(Keybind { modifiers: mods, key: k }),
    }
}

/// The pieces finished after reading a prefix of `s` begin the pieces of `s`.
proof fn lemma_state_prefix(s: Seq<char>, k: int)
    requires
        0 <= k <= s.len(),
    ensures
        split_plus_state(s.take(k)).0.len() <= split_plus_state(s).0.len(),
        split_plus_state(s).0.take(split_plus_state(s.take(k)).0.len() as int) == split_plus_state(
            s.take(k),
        ).0,
    decreases s.len() - k,
{
    if k == s.len() {
        assert(s.take(k) =~= s);
        assert(split_plus_state(s).0.take(split_plus_state(s).0.len() as int) =~= split_plus_state(
            s,
        ).0);
    } else {
        let d = s.drop_last();
        assert(d.take(k) =~= s.take(k));
        lemma_state_prefix(d, k);
        let a = split_plus_state(s.take(k)).0;
        let b = split_plus_state(d).0;
        let c = split_plus_state(s).0;
        if s.last() == '+' {
            assert(c =~= b.push(split_plus_state(d).1));
            assert(c.take(a.len() as int) =~= b.take(a.len() as int));
        } else {
            assert(c == b);
        }
    }
}

/// A modifier list that fails keeps failing with the same message however
/// it is extended.
proof fn lemma_modifiers_prefix(p: Seq<Seq<char>>, q: Seq<Seq<char>>)
    requires
        p.len() <= q.len(),
        q.take(p.len() as int) == p,
        modifiers_spec(p) is Err,
    ensures
        modifiers_spec(q) == modifiers_spec(p),
    decreases q.len(),
{
    if q.len() == p.len() {
        assert(q =~= p);
    } else {
        assert(q.drop_last().take(p.len() as int) =~= p);
        lemma_modifiers_prefix(p, q.drop_last());
    }
}

/// The workspace key a close bind takes from the overlay, which checks close
/// binds first. Super counts as no modifier: keys are often pressed with the
/// launch bind's Super still held. A Ctrl, Shift or Alt bind only takes a
/// press made on purpose.
pub open spec fn shadowed_workspace_key_spec(kb: Keybind) -> Option<char> {
    if kb.modifiers & (CONTROL_MASK | SHIFT_MASK | ALT_MASK) != 0 {
        None
    } else {
        match kb.key.unicode {
            Some(c) if is_workspace_char_spec(c) => Some(c),
            _ => None,
        }
    }
}

pub fn shadowed_workspace_key(kb: &Keybind) -> (r: Option<char>)
    ensures
        r == shadowed_workspace_key_spec(*kb),
{
    if kb.modifiers & (CONTROL_MASK | SHIFT_MASK | ALT_MASK) != 0 {
        return None;
    }
    match kb.key.unicode {
        Some(c) => if is_workspace_char(c) {
            Some(c)
        } else {
            None
        },
        None => None,
    }
}

} // verus!
