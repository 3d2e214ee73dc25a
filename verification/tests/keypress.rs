use niri_dynamic_workspaces::keybind::{ALT_MASK, CONTROL_MASK, SHIFT_MASK, SUPER_MASK};
use niri_dynamic_workspaces::keypress::{deliberate_mods, keymap_workspace_char, workspace_char, LOCK_MASK};

// The characters gdk reports for the keysyms of these keys.
const KEY_A: Option<char> = Some('A');
const KEY_LOWER_A: Option<char> = Some('a');
const KEY_1: Option<char> = Some('1');
const KEY_AMPERSAND: Option<char> = Some('&');
const KEY_CYRILLIC_EF: Option<char> = Some('\u{444}');
const KEY_X: Option<char> = Some('x');
const KEY_Y: Option<char> = Some('y');
const KEY_COMMA: Option<char> = Some(',');
const KEY_ESCAPE: Option<char> = None;

#[test]
fn workspace_char_folds_case_and_rejects_symbols() {
    assert_eq!(workspace_char(KEY_A), Some('a'));
    assert_eq!(workspace_char(KEY_1), Some('1'));
    assert_eq!(workspace_char(KEY_AMPERSAND), None);
    assert_eq!(workspace_char(KEY_CYRILLIC_EF), None);
}

#[test]
fn keymap_char_finds_azerty_digit_on_shift_level() {
    let fr = vec![(0, 0, KEY_AMPERSAND), (0, 1, KEY_1)];
    assert_eq!(keymap_workspace_char(0, &fr), Some('1'));
}

#[test]
fn keymap_char_falls_back_to_latin_group() {
    let us_ru = vec![(0, 0, KEY_LOWER_A), (0, 1, KEY_A), (1, 0, KEY_CYRILLIC_EF)];
    assert_eq!(keymap_workspace_char(1, &us_ru), Some('a'));
    let ru_us = vec![(0, 0, KEY_CYRILLIC_EF), (1, 0, KEY_LOWER_A), (1, 1, KEY_A)];
    assert_eq!(keymap_workspace_char(0, &ru_us), Some('a'));
}

#[test]
fn keymap_char_prefers_active_group() {
    let e = vec![(0, 0, KEY_X), (1, 0, KEY_COMMA), (1, 1, KEY_Y)];
    assert_eq!(keymap_workspace_char(1, &e), Some('y'));
    assert_eq!(keymap_workspace_char(0, &e), Some('x'));
}

#[test]
fn keymap_char_none_without_workspace_char() {
    assert_eq!(keymap_workspace_char(0, &vec![(0, 0, KEY_ESCAPE)]), None);
    assert_eq!(keymap_workspace_char(0, &vec![]), None);
}

#[test]
fn keymap_char_takes_the_first_of_equal_entries() {
    let e = vec![(0, 0, Some('q')), (0, 0, Some('w'))];
    assert_eq!(keymap_workspace_char(0, &e), Some('q'));
}

#[test]
fn deliberate_mods_ignore_consumed_shift_super_and_lock() {
    let shift = SHIFT_MASK;
    let ctrl = CONTROL_MASK;
    assert_eq!(deliberate_mods(shift, shift), 0);
    assert_eq!(deliberate_mods(ctrl | shift, shift), ctrl);
    assert_eq!(deliberate_mods(SUPER_MASK | LOCK_MASK, 0), 0);
    assert_eq!(deliberate_mods(ALT_MASK, 0), ALT_MASK);
}
