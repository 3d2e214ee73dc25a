//! Keyboard layouts for the overlay's key grid.
//!
//! Row offsets are kept in quarter key widths and the widest-row divisor in
//! 32nds of a key width, so the geometry is exact integers.

use vstd::prelude::*;

use crate::text::{lower_seq, str_eq, to_lower};

verus! {

/// A keyboard layout: the workspace keys in rows, with each row's offset.
#[derive(Clone, Debug)]
pub struct KeyboardLayout {
    pub name: String,
    pub rows: Vec<Vec<char>>,
    /// Offset of each row from the left edge, in quarter key widths.
    pub row_offsets: Vec<u32>,
    /// Width of the widest row plus one gap, in 32nds of a key width.
    pub widest_row_divisor: u32,
}

/// The built-in layouts.
#[derive(Clone, Copy, Debug, PartialEq, Eq, Structural)]
pub enum LayoutId {
    Qwerty,
    Azerty,
    Qwertz,
    Dvorak,
    Colemak,
}

/// Each built-in layout's rows start this far in, in quarter key widths.
pub open spec fn row_offsets_spec() -> Seq<u32> {
    seq![0u32, 2u32, 3u32, 5u32]
}

/// The name of a built-in layout.
pub open spec fn layout_name_spec(id: LayoutId) -> Seq<char> {
    match id {
        LayoutId::Qwerty => "qwerty"@,
        LayoutId::Azerty => "azerty"@,
        LayoutId::Qwertz => "qwertz"@,
        LayoutId::Dvorak => "dvorak"@,
        LayoutId::Colemak => "colemak"@,
    }
}

/// The key rows of a built-in layout.
pub open spec fn layout_rows_spec(id: LayoutId) -> Seq<Seq<char>> {
    let digits = seq!['1', '2', '3', '4', '5', '6', '7', '8', '9', '0'];
    match id {
        LayoutId::Qwerty => seq![
            digits,
            seq!['q', 'w', 'e', 'r', 't', 'y', 'u', 'i', 'o', 'p'],
            seq!['a', 's', 'd', 'f', 'g', 'h', 'j', 'k', 'l'],
            seq!['z', 'x', 'c', 'v', 'b', 'n', 'm'],
        ],
        LayoutId::Azerty => seq![
            digits,
            seq!['a', 'z', 'e', 'r', 't', 'y', 'u', 'i', 'o', 'p'],
            seq!['q', 's', 'd', 'f', 'g', 'h', 'j', 'k', 'l', 'm'],
            seq!['w', 'x', 'c', 'v', 'b', 'n'],
        ],
        LayoutId::Qwertz => seq![
            digits,
            seq!['q', 'w', 'e', 'r', 't', 'z', 'u', 'i', 'o', 'p'],
            seq!['a', 's', 'd', 'f', 'g', 'h', 'j', 'k', 'l'],
            seq!['y', 'x', 'c', 'v', 'b', 'n', 'm'],
        ],
        LayoutId::Dvorak => seq![
            digits,
            seq!['p', 'y', 'f', 'g', 'c', 'r', 'l'],
            seq!['a', 'o', 'e', 'u', 'i', 'd', 'h', 't', 'n', 's'],
            seq!['q', 'j', 'k', 'x', 'b', 'm', 'w', 'v', 'z'],
        ],
        LayoutId::Colemak => seq![
            digits,
            seq!['q', 'w', 'f', 'p', 'g', 'j', 'l', 'u', 'y'],
            seq!['a', 'r', 's', 't', 'd', 'h', 'n', 'e', 'i', 'o'],
            seq!['z', 'x', 'c', 'v', 'b', 'k', 'm'],
        ],
    }
}

/// The stored widest-row divisor of a built-in layout, in 32nds.
pub open spec fn layout_divisor_spec(id: LayoutId) -> u32 {
    match id {
        LayoutId::Qwerty | LayoutId::Qwertz => 374,
        _ => 383,
    }
}

/// The built-in layouts, in the order `ALL_LAYOUTS` lists them.
pub open spec fn all_layout_ids() -> Seq<LayoutId> {
    seq![LayoutId::Qwerty, LayoutId::Azerty, LayoutId::Qwertz, LayoutId::Dvorak, LayoutId::Colemak]
}

impl KeyboardLayout {
    /// The layout is built-in layout `id`.
    pub open spec fn is_layout(&self, id: LayoutId) -> bool {
        &&& self.name@ == layout_name_spec(id)
        &&& self.rows.deep_view() == layout_rows_spec(id)
        &&& self.row_offsets@ == row_offsets_spec()
        &&& self.widest_row_divisor == layout_divisor_spec(id)
    }

    /// Built-in layout `id`.
    pub fn builtin(id: LayoutId) -> (l: KeyboardLayout)
        ensures
            l.is_layout(id),
    {
        let digits = vec!['1', '2', '3', '4', '5', '6', '7', '8', '9', '0'];
        let (name, r1, r2, r3, divisor) = match id {
            LayoutId::Qwerty => (
                "qwerty",
                vec!['q', 'w', 'e', 'r', 't', 'y', 'u', 'i', 'o', 'p'],
                vec!['a', 's', 'd', 'f', 'g', 'h', 'j', 'k', 'l'],
                vec!['z', 'x', 'c', 'v', 'b', 'n', 'm'],
                374u32,
            ),
            LayoutId::Azerty => (
                "azerty",
                vec!['a', 'z', 'e', 'r', 't', 'y', 'u', 'i', 'o', 'p'],
                vec!['q', 's', 'd', 'f', 'g', 'h', 'j', 'k', 'l', 'm'],
                vec!['w', 'x', 'c', 'v', 'b', 'n'],
                383u32,
            ),
            LayoutId::Qwertz => (
                "qwertz",
                vec!['q', 'w', 'e', 'r', 't', 'z', 'u', 'i', 'o', 'p'],
                vec!['a', 's', 'd', 'f', 'g', 'h', 'j', 'k', 'l'],
                vec!['y', 'x', 'c', 'v', 'b', 'n', 'm'],
                374u32,
            ),
            LayoutId::Dvorak => (
                "dvorak",
                vec!['p', 'y', 'f', 'g', 'c', 'r', 'l'],
                vec!['a', 'o', 'e', 'u', 'i', 'd', 'h', 't', 'n', 's'],
                vec!['q', 'j', 'k', 'x', 'b', 'm', 'w', 'v', 'z'],
                383u32,
            ),
            LayoutId::Colemak => (
                "colemak",
                vec!['q', 'w', 'f', 'p', 'g', 'j', 'l', 'u', 'y'],
                vec!['a', 'r', 's', 't', 'd', 'h', 'n', 'e', 'i', 'o'],
                vec!['z', 'x', 'c', 'v', 'b', 'k', 'm'],
                383u32,
            ),
        };
        let rows = vec![digits, r1, r2, r3];
        let l = KeyboardLayout {
            name: name.to_string(),
            rows,
            row_offsets: vec![0u32, 2u32, 3u32, 5u32],
            widest_row_divisor: divisor,
        };
        proof {
            reveal_strlit("qwerty");
            reveal_strlit("azerty");
            reveal_strlit("qwertz");
            reveal_strlit("dvorak");
            reveal_strlit("colemak");
            assert(l.rows@[0].deep_view() =~= layout_rows_spec(id)[0]);
            assert(l.rows@[1].deep_view() =~= layout_rows_spec(id)[1]);
            assert(l.rows@[2].deep_view() =~= layout_rows_spec(id)[2]);
            assert(l.rows@[3].deep_view() =~= layout_rows_spec(id)[3]);
            assert(l.rows.deep_view() =~= layout_rows_spec(id));
        }
        l
    }

    /// The width of row `i` plus one gap, in 32nds of a key width: a row of
    /// `n` keys offset by `q` quarters spans `(9 * (q/4 + n) - 1) / 8` keys.
    pub open spec fn row_width_spec(offset_quarters: int, keys: int) -> int {
        9 * offset_quarters + 36 * keys - 4
    }

    /// Compute the divisor from the row geometry: the widest row, in 32nds
    /// of a key width (0 for a layout without rows).
    pub fn compute_widest_row_divisor(&self) -> (d: i64)
        requires
            self.rows@.len() == self.row_offsets@.len(),
            forall|i: int| 0 <= i < self.rows@.len() ==> #[trigger] self.rows@[i]@.len() < 1000000,
        ensures
            forall|i: int|
                0 <= i < self.rows@.len() ==> Self::row_width_spec(
                    self.row_offsets@[i] as int,
                    self.rows@[i]@.len() as int,
                ) <= d,
            self.rows@.len() > 0 ==> exists|i: int|
                0 <= i < self.rows@.len() && Self::row_width_spec(
                    self.row_offsets@[i] as int,
                    self.rows@[i]@.len() as int,
                ) == d,
    {
        let mut best: i64 = 0;
        let mut i: usize = 0;
        while i < self.rows.len()
            invariant
                self.rows@.len() == self.row_offsets@.len(),
                forall|k: int| 0 <= k < self.rows@.len() ==> #[trigger] self.rows@[k]@.len() < 1000000,
                i <= self.rows@.len(),
                forall|k: int|
                    0 <= k < i ==> Self::row_width_spec(
                        self.row_offsets@[k] as int,
                        self.rows@[k]@.len() as int,
                    ) <= best,
                i > 0 ==> exists|k: int|
                    0 <= k < i && Self::row_width_spec(
                        self.row_offsets@[k] as int,
                        self.rows@[k]@.len() as int,
                    ) == best,
            decreases self.rows@.len() - i,
        {
            let q = self.row_offsets[i] as i64;
            let n = self.rows[i].len() as i64;
            assert(self.rows@[i as int]@.len() < 1000000);
            let w = 9 * q + 36 * n - 4;
            if i == 0 || w > best {
                best = w;
            }
            i = i + 1;
        }
        best
    }
}

/// The layout named `name`, ignoring ASCII case.
pub open spec fn lookup_layout_spec(name: Seq<char>) -> Option<LayoutId> {
    if lower_seq(name) == "qwerty"@ {
        Some(LayoutId::Qwerty)
    } else if lower_seq(name) == "azerty"@ {
        Some(LayoutId::Azerty)
    } else if lower_seq(name) == "qwertz"@ {
        Some(LayoutId::Qwertz)
    } else if lower_seq(name) == "dvorak"@ {
        Some(LayoutId::Dvorak)
    } else if lower_seq(name) == "colemak"@ {
        Some(LayoutId::Colemak)
    } else {
        None
    }
}

/// `s` with ASCII letters lowered.
pub fn to_ascii_lowercase(s: &str) -> (r: String)
    ensures
        r@ == lower_seq(s@),
{
    let n = s.unicode_len();
    let mut r = String::new();
    let mut i: usize = 0;
    while i < n
        invariant
            n == s@.len(),
            i <= n,
            r@ == lower_seq(s@.take(i as int)),
        decreases n - i,
    {
        crate::text::push_char(&mut r, to_lower(s.get_char(i)));
        i = i + 1;
        assert(r@ =~= lower_seq(s@.take(i as int)));
    }
    assert(s@.take(n as int) =~= s@);
    r
}

/// The layout named `name`, ignoring ASCII case.
pub fn lookup_layout(name: &str) -> (r: Option<KeyboardLayout>)
    ensures
        match r {
            Some(l) => lookup_layout_spec(name@) matches Some(id) && l.is_layout(id),
            None => lookup_layout_spec(name@) is None,
        },
{
    let lower = to_ascii_lowercase(name);
    let ids = [LayoutId::Qwerty, LayoutId::Azerty, LayoutId::Qwertz, LayoutId::Dvorak, LayoutId::Colemak];
    proof {
        reveal_strlit("qwerty");
        reveal_strlit("azerty");
        reveal_strlit("qwertz");
        reveal_strlit("dvorak");
        reveal_strlit("colemak");
    }
    if str_eq(lower.as_str(), "qwerty") {
        Some(KeyboardLayout::builtin(LayoutId::Qwerty))
    } else if str_eq(lower.as_str(), "azerty") {
        Some(KeyboardLayout::builtin(LayoutId::Azerty))
    } else if str_eq(lower.as_str(), "qwertz") {
        Some(KeyboardLayout::builtin(LayoutId::Qwertz))
    } else if str_eq(lower.as_str(), "dvorak") {
        Some(KeyboardLayout::builtin(LayoutId::Dvorak))
    } else if str_eq(lower.as_str(), "colemak") {
        Some(KeyboardLayout::builtin(LayoutId::Colemak))
    } else {
        None
    }
}

/// All built-in layouts (`ALL_LAYOUTS`).
pub fn all_layouts() -> (v: Vec<KeyboardLayout>)
    ensures
        v@.len() == all_layout_ids().len(),
        forall|i: int| 0 <= i < v@.len() ==> (#[trigger] v@[i]).is_layout(all_layout_ids()[i]),
{
    let mut v = Vec::new();
    v.push(KeyboardLayout::builtin(LayoutId::Qwerty));
    v.push(KeyboardLayout::builtin(LayoutId::Azerty));
    v.push(KeyboardLayout::builtin(LayoutId::Qwertz));
    v.push(KeyboardLayout::builtin(LayoutId::Dvorak));
    v.push(KeyboardLayout::builtin(LayoutId::Colemak));
    v
}

} // verus!
