//! Which workspace key a key press selects, whatever the keyboard layout,
//! and which of its modifiers the user added on purpose.

use vstd::prelude::*;

use crate::keybind::{ALT_MASK, CONTROL_MASK, SHIFT_MASK};
use crate::naming::{is_workspace_char, is_workspace_char_spec};
use crate::text::{lower_spec, to_lower};

verus! {

/// GDK's `LOCK_MASK` (Caps Lock).
pub const LOCK_MASK: u32 = 0x2;

/// Modifiers that turn a workspace key into something else. Super is left
/// out, so that a Mod still held from the launching bind does not block input.
pub const ACTION_MODS: u32 = CONTROL_MASK | SHIFT_MASK | ALT_MASK;

/// The workspace key a keysym types: its character, in ASCII lower case,
/// when that is a workspace character.
pub open spec fn workspace_char_spec(unicode: Option<char>) -> Option<char> {
    match unicode {
        Some(c) => if is_workspace_char_spec(lower_spec(c)) {
            Some(lower_spec(c))
        } else {
            None
        },
        None => None,
    }
}

/// The workspace key of a keysym whose character is `unicode`.
pub fn workspace_char(unicode: Option<char>) -> (r: Option<char>)
    ensures
        r == workspace_char_spec(unicode),
{
    match unicode {
        Some(c) => {
            let l = to_lower(c);
            if is_workspace_char(l) {
                Some(l)
            } else {
                None
            }
        },
        None => None,
    }
}

/// A keymap entry: layout group, shift level, and the character its keysym types.
pub type KeymapEntry = (u32, u32, Option<char>);

/// Entry `a` is preferred to entry `b`: the active group first, then the
/// lower group, then the lower level.
pub open spec fn preferred(group: u32, a: KeymapEntry, b: KeymapEntry) -> bool {
    let other_a = a.0 != group;
    let other_b = b.0 != group;
    ||| (!other_a && other_b)
    ||| (other_a == other_b && a.0 < b.0)
    ||| (other_a == other_b && a.0 == b.0 && a.1 < b.1)
}

/// Entry `e` types a workspace character.
pub open spec fn types_key(e: KeymapEntry) -> bool {
    workspace_char_spec(e.2) is Some
}

/// `entries[k]` is the first of the most preferred entries that type a workspace character.
pub open spec fn is_chosen(group: u32, entries: Seq<KeymapEntry>, k: int) -> bool {
    &&& 0 <= k < entries.len()
    &&& types_key(entries[k])
    &&& forall|j: int| 0 <= j < entries.len() && types_key(#[trigger] entries[j]) ==> !preferred(group, entries[j], entries[k])
    &&& forall|j: int| 0 <= j < k && types_key(#[trigger] entries[j]) ==> preferred(group, entries[k], entries[j])
}

/// The workspace key on the physical key with keymap `entries`, for a key
/// that types none itself (AZERTY's unshifted digits, a letter of a
/// non-Latin group): the first workspace character on it, active group
/// first, lowest level first.
pub fn keymap_workspace_char(group: u32, entries: &Vec<KeymapEntry>) -> (r: Option<char>)
    ensures
        match r {
            Some(c) => exists|k: int| is_chosen(group, entries@, k) && workspace_char_spec(#[trigger] entries@[k].2) == Some(c),
            None => forall|k: int| 0 <= k < entries@.len() ==> !types_key(#[trigger] entries@[k]),
        },
{
    let mut best: Option<usize> = None;
    let mut best_char: char = ' ';
    let mut i: usize = 0;
    while i < entries.len()
        invariant
            i <= entries@.len(),
            match best {
                None => forall|j: int| 0 <= j < i ==> !types_key(#[trigger] entries@[j]),
                Some(b) => {
                    &&& b < i
                    &&& types_key(entries@[b as int])
                    &&& workspace_char_spec(entries@[b as int].2) == Some(best_char)
                    &&& forall|j: int| 0 <= j < i && types_key(#[trigger] entries@[j]) ==> !preferred(group, entries@[j], entries@[b as int])
                    &&& forall|j: int| 0 <= j < b && types_key(#[trigger] entries@[j]) ==> preferred(group, entries@[b as int], entries@[j])
                },
            },
        decreases entries@.len() - i,
    {
        let e = entries[i];
        match workspace_char(e.2) {
            Some(c) => {
                let better = match best {
                    None => true,
                    Some(b) => {
                        let f = entries[b];
                        let other_e = e.0 != group;
                        let other_f = f.0 != group;
                        (!other_e && other_f) || (other_e == other_f && e.0 < f.0) || (other_e == other_f && e.0
                            == f.0 && e.1 < f.1)
                    },
                };
                if better {
                    proof {
                        if let Some(b) = best {
                            assert forall|j: int| 0 <= j < i && types_key(#[trigger] entries@[j]) implies preferred(group, entries@[i as int], entries@[j]) by {
                                assert(!preferred(group, entries@[j], entries@[b as int]));
                            }
                        }
                    }
                    best = Some(i);
                    best_char = c;
                }
            },
            None => {},
        }
        i = i + 1;
    }
    match best {
        Some(b) => {
            assert(is_chosen(group, entries@, b as int));
            Some(best_char)
        },
        None => None,
    }
}

/// The modifiers of a press the user added on purpose: Control, Alt, or a
/// Shift the layout did not consume.
pub fn deliberate_mods(state: u32, consumed: u32) -> (r: u32)
    ensures
        r == state & !consumed & ACTION_MODS,
{
    state & !consumed & ACTION_MODS
}

} // verus!
