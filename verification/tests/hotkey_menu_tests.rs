use window_snap::text::contains;
use window_snap::config::{Column, Config, Layout, Settings};
use window_snap::hotkey::{hotkey_from_lowered_parts, parse_hotkey, HotkeyModifiers, HotkeySpec, KeyCode};
use window_snap::menu::{display_name, menu_action, menu_entries, MenuAction, MenuEntry};

fn mods(control: bool, alt: bool, shift: bool, super_key: bool) -> HotkeyModifiers {
    HotkeyModifiers { control, alt, shift, super_key }
}

#[test]
fn parses_ctrl_alt_digit() {
    assert_eq!(
        parse_hotkey("ctrl+alt+1"),
        Some(HotkeySpec { modifiers: mods(true, true, false, false), key: KeyCode::Digit1 })
    );
}

#[test]
fn hotkey_parts_are_trimmed_and_case_insensitive() {
    assert_eq!(
        parse_hotkey(" Control + SHIFT +  F5 "),
        Some(HotkeySpec { modifiers: mods(true, false, true, false), key: KeyCode::F5 })
    );
    assert_eq!(
        parse_hotkey("win+Esc"),
        Some(HotkeySpec { modifiers: mods(false, false, false, true), key: KeyCode::Escape })
    );
    assert_eq!(
        parse_hotkey("meta+alt+Return"),
        Some(HotkeySpec { modifiers: mods(false, true, false, true), key: KeyCode::Enter })
    );
    assert_eq!(parse_hotkey("z").map(|h| h.key), Some(KeyCode::KeyZ));
    assert_eq!(parse_hotkey("super+left").map(|h| h.key), Some(KeyCode::ArrowLeft));
}

#[test]
fn hotkey_without_known_key_is_rejected() {
    assert_eq!(parse_hotkey("ctrl+alt"), None);
    assert_eq!(parse_hotkey(""), None);
    assert_eq!(parse_hotkey("ctrl+alt+f13"), None);
    assert_eq!(parse_hotkey("ctrl+pageup"), None);
}

#[test]
fn last_non_modifier_part_is_the_key() {
    assert_eq!(parse_hotkey("ctrl+x+1").map(|h| h.key), Some(KeyCode::Digit1));
    assert_eq!(parse_hotkey("1+ctrl").map(|h| h.key), Some(KeyCode::Digit1));
}

#[test]
fn display_names_capitalize_words() {
    assert_eq!(display_name("4-column-dev"), "4 Column Dev");
    assert_eq!(display_name("chat-browse"), "Chat Browse");
    assert_eq!(display_name("--odd--name-"), "Odd Name");
    assert_eq!(display_name("straße"), "Straße");
    assert_eq!(display_name("ß"), "SS");
    assert_eq!(display_name(""), "");
}

fn layout(columns: usize) -> Layout {
    Layout {
        hotkey: None,
        monitor: 0,
        columns: (0..columns)
            .map(|_| Column { width_percent: 25, x_percent: None, match_all: false, match_rules: Vec::new() })
            .collect(),
    }
}

fn config() -> Config {
    Config {
        settings: Settings { gap: 5 },
        layouts: vec![
            ("chat-browse".to_string(), layout(3)),
            ("4-column-dev".to_string(), layout(4)),
        ],
    }
}

fn item(e: &MenuEntry) -> Option<(String, String)> {
    match e {
        MenuEntry::Item { id, label } => Some((id.clone(), label.clone())),
        MenuEntry::Separator => None,
    }
}

#[test]
fn menu_lists_layouts_sorted_then_fixed_entries() {
    let entries = menu_entries(&config(), true);
    let items: Vec<Option<(String, String)>> = entries.iter().map(item).collect();
    let it = |a: &str, b: &str| Some((a.to_string(), b.to_string()));
    assert_eq!(
        items,
        vec![
            it("layout_4-column-dev", "4 Column Dev"),
            it("layout_chat-browse", "Chat Browse"),
            None,
            it("edit_config", "Edit Config"),
            it("reload_config", "Reload Config"),
            None,
            it("toggle_startup", "Start with Windows \u{2713}"),
            None,
            it("quit", "Quit"),
        ]
    );
    let off = menu_entries(&config(), false);
    assert_eq!(item(&off[6]), it("toggle_startup", "Start with Windows"));
}

#[test]
fn menu_clicks_map_to_actions() {
    let c = config();
    assert!(matches!(menu_action("quit", &c), MenuAction::Quit));
    assert!(matches!(menu_action("edit_config", &c), MenuAction::EditConfig));
    assert!(matches!(menu_action("reload_config", &c), MenuAction::ReloadConfig));
    assert!(matches!(menu_action("toggle_startup", &c), MenuAction::ToggleStartup));
    match menu_action("layout_chat-browse", &c) {
        MenuAction::ApplyLayout(name) => assert_eq!(name, "chat-browse"),
        _ => panic!("expected a layout"),
    }
    assert!(matches!(menu_action("layout_missing", &c), MenuAction::Ignore));
    assert!(matches!(menu_action("layout", &c), MenuAction::Ignore));
    assert!(matches!(menu_action("something", &c), MenuAction::Ignore));
    assert_eq!(c.layout_index("4-column-dev"), Some(1));
    assert_eq!(c.layout_index("nope"), None);
}

#[test]
fn hotkey_parts_are_trimmed_of_unicode_whitespace() {
    assert_eq!(
        parse_hotkey("\u{3000}ctrl\u{a0}+\talt +\u{2003}2\n"),
        Some(HotkeySpec { modifiers: mods(true, true, false, false), key: KeyCode::Digit2 })
    );
}

#[test]
fn lowered_pieces_give_the_hotkey() {
    let parts = |v: &[&str]| v.iter().map(|s| s.to_string()).collect::<Vec<String>>();
    assert_eq!(
        hotkey_from_lowered_parts(&parts(&["ctrl", "shift", "f5"])),
        Some(HotkeySpec { modifiers: mods(true, false, true, false), key: KeyCode::F5 })
    );
    assert_eq!(
        hotkey_from_lowered_parts(&parts(&["x", "meta", "1"])),
        Some(HotkeySpec { modifiers: mods(false, false, false, true), key: KeyCode::Digit1 })
    );
    assert_eq!(hotkey_from_lowered_parts(&parts(&["ctrl", "alt"])), None);
    assert_eq!(hotkey_from_lowered_parts(&parts(&[])), None);
    assert_eq!(hotkey_from_lowered_parts(&parts(&["ctrl", ""])), None);
    // Pieces are taken as given: upper case names no key or modifier.
    assert_eq!(hotkey_from_lowered_parts(&parts(&["CTRL", "1"])).map(|h| h.modifiers), Some(mods(false, false, false, false)));
    assert_eq!(hotkey_from_lowered_parts(&parts(&["ctrl", "A"])), None);
}

#[test]
fn substring_search_finds_needles() {
    assert!(contains("Visual Studio Code", "Studio"));
    assert!(contains("abc", ""));
    assert!(!contains("abc", "abcd"));
    assert!(!contains("abc", "cb"));
}
