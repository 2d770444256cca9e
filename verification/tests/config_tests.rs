use window_snap::config::{Column, Config, Layout, MatchRule, Settings};

fn tiled(width_percent: u32) -> Column {
    Column {
        width_percent,
        x_percent: None,
        match_all: false,
        match_rules: Vec::new(),
    }
}

fn absolute(x_percent: u32, width_percent: u32) -> Column {
    Column {
        width_percent,
        x_percent: Some(x_percent),
        match_all: false,
        match_rules: Vec::new(),
    }
}

fn layout(hotkey: Option<&str>, columns: Vec<Column>) -> Layout {
    Layout {
        hotkey: hotkey.map(String::from),
        monitor: 0,
        columns,
    }
}

fn config(layouts: Vec<(&str, Layout)>) -> Config {
    Config {
        settings: Settings { gap: 5 },
        layouts: layouts.into_iter().map(|(n, l)| (n.to_string(), l)).collect(),
    }
}

fn rules_col(width_percent: u32, rules: Vec<MatchRule>) -> Column {
    Column {
        width_percent,
        x_percent: None,
        match_all: false,
        match_rules: rules,
    }
}

fn process(name: &str) -> MatchRule {
    MatchRule {
        title_contains: None,
        process_name: Some(name.to_string()),
    }
}

fn title(text: &str) -> MatchRule {
    MatchRule {
        title_contains: Some(text.to_string()),
        process_name: None,
    }
}

/// A copy, built by calls, of the layouts of the configuration the program
/// writes on first run. The template itself is TOML text read by the program,
/// so this checks the library on the same layouts rather than the text.
fn shipped_default_config() -> Config {
    let browsers = || {
        vec![
            process("brave.exe"),
            process("chrome.exe"),
            process("firefox.exe"),
            process("msedge.exe"),
        ]
    };
    config(vec![
        (
            "4-column-dev",
            layout(
                Some("ctrl+alt+1"),
                vec![
                    rules_col(25, vec![title("Notes")]),
                    rules_col(25, vec![title("Visual Studio Code")]),
                    rules_col(
                        25,
                        vec![
                            process("WindowsTerminal.exe"),
                            process("powershell.exe"),
                            process("pwsh.exe"),
                            process("cmd.exe"),
                            title("Terminal"),
                        ],
                    ),
                    rules_col(25, browsers()),
                ],
            ),
        ),
        (
            "chat-browse",
            layout(
                Some("ctrl+alt+2"),
                vec![
                    rules_col(25, vec![title("Signal")]),
                    rules_col(25, vec![title("Notes")]),
                    rules_col(50, browsers()),
                ],
            ),
        ),
        (
            "bluestacks",
            layout(
                Some("ctrl+alt+3"),
                vec![
                    rules_col(25, vec![process("HD-Player.exe")]),
                    rules_col(25, vec![process("HD-Player.exe")]),
                    rules_col(25, vec![process("HD-Player.exe")]),
                    rules_col(25, vec![process("HD-Player.exe")]),
                ],
            ),
        ),
    ])
}

#[test]
fn shipped_default_config_is_warning_free() {
    // Guards the template: if a shipped layout ran off screen, every user would
    // see a warning on first run.
    assert_eq!(shipped_default_config().validate(), Vec::<String>::new());
}

#[test]
fn widths_summing_to_100_produce_no_warnings() {
    let config = config(vec![("good", layout(None, vec![tiled(30), tiled(70)]))]);
    assert_eq!(config.validate(), Vec::<String>::new());
}

#[test]
fn overfull_layout_warns_with_name_and_sum() {
    // Column blocks pasted under the wrong table name piled onto one layout,
    // pushing windows off the screen.
    let config = config(vec![(
        "4-column-dev",
        layout(None, vec![tiled(25), tiled(50), tiled(50)]),
    )]);
    let warnings = config.validate();
    assert_eq!(warnings.len(), 1, "expected one warning, got {:?}", warnings);
    assert!(warnings[0].contains("4-column-dev"), "{}", warnings[0]);
    assert!(warnings[0].contains("125"), "{}", warnings[0]);
    assert!(warnings[0].contains('3'), "column count missing: {}", warnings[0]);
}

#[test]
fn underfull_layout_is_silent() {
    // Summing under 100 is not a problem: calculate_slots hands the leftover
    // width to the last column, so everything still lands on screen.
    let config = config(vec![("sparse", layout(None, vec![tiled(40)]))]);
    assert_eq!(config.validate(), Vec::<String>::new());
}

#[test]
fn absolute_column_running_past_the_right_edge_warns() {
    let config = config(vec![("spill", layout(None, vec![absolute(70, 50)]))]);
    let warnings = config.validate();
    assert_eq!(warnings.len(), 1, "expected one warning, got {:?}", warnings);
    assert!(warnings[0].contains("120"), "{}", warnings[0]);
    assert!(warnings[0].contains("x_percent"), "{}", warnings[0]);
}

#[test]
fn overlapping_absolute_columns_are_not_a_problem() {
    // Two windows deliberately sharing the middle of the screen. Both fit,
    // so there is nothing to warn about even though they sum to 115%.
    let config = config(vec![(
        "overlap",
        layout(None, vec![absolute(0, 60), absolute(45, 55)]),
    )]);
    assert_eq!(config.validate(), Vec::<String>::new());
}

#[test]
fn absolute_columns_are_excluded_from_the_tiled_sum() {
    // The tiled columns fill the row exactly; the absolute one sits on top of
    // them. Counting it toward the total would produce a bogus warning.
    let config = config(vec![(
        "mixed",
        layout(None, vec![tiled(40), tiled(60), absolute(0, 25)]),
    )]);
    assert_eq!(config.validate(), Vec::<String>::new());
}

#[test]
fn layout_with_no_columns_warns_clearly() {
    // The section exists but every column block named a different layout.
    let config = config(vec![("orphan", layout(Some("ctrl+alt+9"), Vec::new()))]);
    let warnings = config.validate();
    assert_eq!(warnings.len(), 1, "expected one warning, got {:?}", warnings);
    assert!(warnings[0].contains("orphan"), "{}", warnings[0]);
    assert!(warnings[0].contains("no columns"), "{}", warnings[0]);
}

#[test]
fn warnings_are_sorted_for_stable_log_output() {
    let config = config(vec![
        ("zeta", layout(None, vec![tiled(150)])),
        ("alpha", layout(None, vec![tiled(150)])),
        ("mid", layout(None, vec![tiled(150)])),
    ]);
    let warnings = config.validate();
    assert_eq!(warnings.len(), 3);
    let mut sorted = warnings.clone();
    sorted.sort();
    assert_eq!(warnings, sorted, "validate() must return sorted warnings");
}

// ───────────── further cases ─────────────

#[test]
fn warning_texts_are_exact() {
    let c = config(vec![("spill", layout(None, vec![tiled(60), absolute(70, 50), tiled(70)]))]);
    let warnings = c.validate();
    assert_eq!(
        warnings,
        vec![
            "Layout 'spill' column 1 sits at x_percent 70 with width_percent 50, so it ends at 120% and runs off the right edge of the screen. Keep x_percent + width_percent at or under 100.".to_string(),
            "Layout 'spill' has 2 tiled column(s) whose width_percent sums to 130%. Tiled columns are laid out left to right, never stacked, so anything over 100% runs off the right edge of the screen instead of overlapping - the last one ends up with a negative width. Give a column an x_percent if you actually want it to overlap, and if you pasted a column block in, check that it names the right layout.".to_string(),
        ]
    );
    let empty = config(vec![("orphan", layout(None, Vec::new()))]);
    assert_eq!(
        empty.validate(),
        vec!["Layout 'orphan' has no columns, so its hotkey will do nothing. Note that [[layouts.<name>.columns]] appends to <name> no matter where the block sits in the file - check whether the column blocks you meant for this layout are naming a different one.".to_string()]
    );
}

#[test]
fn saturating_sums_report_the_u32_maximum() {
    let c = config(vec![("huge", layout(None, vec![tiled(u32::MAX), tiled(10), absolute(u32::MAX, 5)]))]);
    let warnings = c.validate();
    assert_eq!(warnings.len(), 2);
    assert!(warnings.iter().any(|w| w.contains("sums to 4294967295%")), "{:?}", warnings);
    assert!(warnings.iter().any(|w| w.contains("ends at 4294967295%")), "{:?}", warnings);
}

#[test]
fn one_layout_can_have_several_warnings_and_empty_config_has_none() {
    let c = config(vec![("both", layout(None, vec![absolute(90, 20), absolute(95, 10), tiled(101)]))]);
    assert_eq!(c.validate().len(), 3);
    assert!(config(Vec::new()).validate().is_empty());
}

#[test]
fn describe_layouts_lists_sorted_shapes() {
    assert_eq!(config(Vec::new()).describe_layouts(), "no layouts");
    let c = config(vec![
        ("zeta", layout(None, vec![tiled(50), tiled(50)])),
        ("alpha", layout(None, Vec::new())),
        ("4-column-dev", layout(None, (0..12).map(|_| tiled(8)).collect())),
    ]);
    assert_eq!(
        c.describe_layouts(),
        "3 layout(s): 4-column-dev (12 cols), alpha (0 cols), zeta (2 cols)"
    );
}

#[test]
fn hotkey_map_pairs_hotkeys_with_layout_names() {
    let c = config(vec![
        ("dev", layout(Some("ctrl+alt+1"), vec![tiled(100)])),
        ("none", layout(None, vec![tiled(100)])),
        ("chat", layout(Some("ctrl+alt+2"), vec![tiled(100)])),
        ("dup", layout(Some("ctrl+alt+1"), vec![tiled(100)])),
    ]);
    let mut map = c.get_hotkey_map();
    map.sort();
    assert_eq!(
        map,
        vec![
            ("ctrl+alt+1".to_string(), "dup".to_string()),
            ("ctrl+alt+2".to_string(), "chat".to_string()),
        ]
    );
}

#[test]
fn default_settings_use_a_five_pixel_gap() {
    assert_eq!(Settings::default().gap, 5);
    assert_eq!(window_snap::config::default_gap(), 5);
}

#[test]
fn config_paths_live_under_dot_windowsnap() {
    assert_eq!(
        Config::config_path(Some("/home/me")),
        vec!["/home/me".to_string(), ".windowsnap".to_string(), "config.toml".to_string()]
    );
    assert_eq!(
        Config::log_path(None),
        vec![".".to_string(), ".windowsnap".to_string(), "windowsnap.log".to_string()]
    );
    assert_eq!(Config::config_dir(Some("C:\\Users\\me")), vec!["C:\\Users\\me".to_string(), ".windowsnap".to_string()]);
}

#[test]
fn validation_does_not_depend_on_layout_order() {
    let first = config(vec![
        ("wide", layout(None, vec![tiled(80), tiled(40)])),
        ("edge", layout(None, vec![absolute(90, 20)])),
        ("empty", layout(None, Vec::new())),
        ("fine", layout(None, vec![tiled(50), tiled(50)])),
    ]);
    let second = config(vec![
        ("fine", layout(None, vec![tiled(50), tiled(50)])),
        ("empty", layout(None, Vec::new())),
        ("edge", layout(None, vec![absolute(90, 20)])),
        ("wide", layout(None, vec![tiled(80), tiled(40)])),
    ]);
    let a = first.validate();
    assert_eq!(a.len(), 3);
    assert_eq!(a, second.validate());
}

#[test]
fn layout_names_are_checked_for_duplicates() {
    let distinct = config(vec![("a", layout(None, vec![tiled(100)])), ("b", layout(None, vec![tiled(100)]))]);
    assert!(distinct.names_are_distinct());
    assert!(config(Vec::new()).names_are_distinct());
    let twice = config(vec![
        ("a", layout(None, vec![tiled(100)])),
        ("b", layout(None, vec![tiled(100)])),
        ("a", layout(None, vec![tiled(50)])),
    ]);
    assert!(!twice.names_are_distinct());
}
