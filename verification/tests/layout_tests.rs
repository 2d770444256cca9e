use window_snap::config::{Column, Layout, MatchRule};
use window_snap::geometry::slots_fit;
use window_snap::windows::{
    apply_layout, calculate_slots, claim_windows, compensated_rect, compensation_in_range, describe_rules, file_name_of, is_manageable_window, layout_fits,
    order_monitors, rule_matches, rule_matches_lowered, ColumnPlacement, LayoutOutcome, LayoutSlot, MonitorInfo, WindowInfo,
};

fn win(hwnd: isize, title: &str, process: &str, minimized: bool) -> WindowInfo {
    WindowInfo {
        hwnd,
        title: title.to_string(),
        process_name: process.to_string(),
        is_minimized: minimized,
    }
}

fn monitor(left: i32, primary: bool) -> MonitorInfo {
    MonitorInfo {
        index: 99,
        work_area: (left, 0, left + 1920, 1040),
        full_rect: (left, 0, left + 1920, 1080),
        is_primary: primary,
    }
}

fn rule(title: Option<&str>, process: Option<&str>) -> MatchRule {
    MatchRule {
        title_contains: title.map(String::from),
        process_name: process.map(String::from),
    }
}

fn column(width_percent: u32, x_percent: Option<u32>, match_all: bool, rules: Vec<MatchRule>) -> Column {
    Column { width_percent, x_percent, match_all, match_rules: rules }
}

#[test]
fn rule_without_criteria_matches_nothing() {
    let w = win(1, "anything", "any.exe", false);
    assert!(!rule_matches(&rule(None, None), &w));
    assert!(!rule_matches(&rule(Some(""), Some("")), &w));
    assert!(rule_matches(&rule(Some(""), Some("ANY")), &w));
    assert!(rule_matches(&rule(Some("THING"), None), &w));
    assert!(!rule_matches(&rule(Some("things"), None), &w));
}

#[test]
fn monitors_are_ordered_primary_first_then_left_to_right() {
    let ordered = order_monitors(vec![
        monitor(1920, false),
        monitor(-1920, false),
        monitor(0, true),
        monitor(1920, false),
    ]);
    let lefts: Vec<(usize, i32, bool)> = ordered.iter().map(|m| (m.index, m.full_rect.0, m.is_primary)).collect();
    assert_eq!(lefts, vec![(0, 0, true), (1, -1920, false), (2, 1920, false), (3, 1920, false)]);
    assert!(order_monitors(Vec::new()).is_empty());
}

#[test]
fn ties_keep_enumeration_order() {
    let mut a = monitor(0, false);
    a.work_area = (0, 0, 100, 100);
    let mut b = monitor(0, false);
    b.work_area = (0, 100, 100, 200);
    let ordered = order_monitors(vec![a, b]);
    assert_eq!(ordered[0].work_area, (0, 0, 100, 100));
    assert_eq!(ordered[1].work_area, (0, 100, 100, 200));
}

#[test]
fn system_and_owned_windows_are_not_managed() {
    assert!(is_manageable_window(true, "Notes", "Notepad", false, false, false));
    assert!(!is_manageable_window(false, "Notes", "Notepad", false, false, false));
    assert!(!is_manageable_window(true, "", "Notepad", false, false, false));
    assert!(!is_manageable_window(true, "Taskbar", "Shell_TrayWnd", false, false, false));
    assert!(!is_manageable_window(true, "Input", "MSCTFIME UI", false, false, false));
    assert!(!is_manageable_window(true, "Palette", "Tool", true, true, false));
    assert!(!is_manageable_window(true, "Dialog", "#32770", false, false, true));
    assert!(is_manageable_window(true, "Owned app", "App", false, true, true));
}

#[test]
fn process_name_is_the_last_path_component() {
    assert_eq!(file_name_of("C:\\Program Files\\App\\app.exe"), "app.exe");
    assert_eq!(file_name_of("/usr/bin/brave"), "brave");
    assert_eq!(file_name_of("C:/mixed\\sep/x.exe"), "x.exe");
    assert_eq!(file_name_of("plain.exe"), "plain.exe");
    assert_eq!(file_name_of("dir\\"), "");
    assert_eq!(file_name_of(""), "");
}

#[test]
fn rules_are_described_by_title_then_process() {
    let rules = vec![rule(Some("Notion"), Some("notion.exe")), rule(None, Some("pwsh.exe")), rule(None, None)];
    assert_eq!(describe_rules(&rules), "Notion, pwsh.exe, ?");
    assert_eq!(describe_rules(&Vec::new()), "");
}

fn layout(monitor: usize, columns: Vec<Column>) -> Layout {
    Layout { hotkey: None, monitor, columns }
}

#[test]
fn applying_without_monitors_or_columns_does_nothing() {
    let l = layout(0, vec![column(100, None, false, vec![rule(Some("a"), None)])]);
    assert!(matches!(apply_layout(&l, 5, &[], Vec::new()), LayoutOutcome::NoMonitors));
    let empty = layout(3, Vec::new());
    match apply_layout(&empty, 5, &[monitor(0, true)], Vec::new()) {
        LayoutOutcome::NoColumns { monitor_index, monitor_found } => {
            assert_eq!(monitor_index, 0);
            assert!(!monitor_found);
        }
        _ => panic!("expected no columns"),
    }
}

#[test]
fn applying_a_layout_claims_windows_column_by_column() {
    let l = layout(
        1,
        vec![
            column(50, None, false, vec![rule(None, Some("brave.exe"))]),
            column(50, None, false, Vec::new()),
            column(30, Some(0), true, vec![rule(Some("Brave"), None)]),
            column(20, Some(80), false, vec![rule(Some("Slack"), None)]),
        ],
    );
    let monitors = [monitor(0, true), monitor(1920, false)];
    let windows = vec![
        win(1, "A - Brave", "brave.exe", false),
        win(2, "Signal", "Signal.exe", false),
        win(3, "B - Brave", "brave.exe", false),
        win(4, "C - Brave", "brave.exe", false),
    ];
    assert!(layout_fits(&l, 5, &monitors));
    let plan = match apply_layout(&l, 5, &monitors, windows) {
        LayoutOutcome::Planned(plan) => plan,
        _ => panic!("expected a plan"),
    };
    assert_eq!(plan.monitor_index, 1);
    assert!(plan.monitor_found);
    assert_eq!(plan.slots.len(), 4);
    assert_eq!(plan.slots[0].x, 1920 + 5);
    let expected = calculate_slots(&l.columns, &monitors[1], 5);
    for (a, b) in plan.slots.iter().zip(expected.iter()) {
        assert_eq!((a.x, a.y, a.width, a.height), (b.x, b.y, b.width, b.height));
    }
    match &plan.columns[0] {
        ColumnPlacement::Placed(ws) => assert_eq!(ws.iter().map(|w| w.hwnd).collect::<Vec<_>>(), vec![1]),
        _ => panic!("column 0 should place a window"),
    }
    assert!(matches!(plan.columns[1], ColumnPlacement::NoRules));
    match &plan.columns[2] {
        ColumnPlacement::Placed(ws) => assert_eq!(ws.iter().map(|w| w.hwnd).collect::<Vec<_>>(), vec![3, 4]),
        _ => panic!("column 2 should place windows"),
    }
    assert!(matches!(plan.columns[3], ColumnPlacement::NoMatch));
    // Within a column the first claimed window is raised last, staying on top.
    assert_eq!(plan.raise_order, vec![1, 4, 3]);
    assert!(plan.restack);
}

#[test]
fn missing_monitor_falls_back_to_primary_and_tiled_layouts_do_not_restack() {
    let l = layout(7, vec![column(100, None, false, vec![rule(Some("x"), None)])]);
    match apply_layout(&l, 0, &[monitor(0, true)], vec![win(9, "x", "x.exe", true)]) {
        LayoutOutcome::Planned(plan) => {
            assert_eq!(plan.monitor_index, 0);
            assert!(!plan.monitor_found);
            assert!(!plan.restack);
            assert_eq!(plan.raise_order, vec![9]);
            assert_eq!((plan.slots[0].x, plan.slots[0].width), (0, 1920));
        }
        _ => panic!("expected a plan"),
    }
}

#[test]
fn slot_arithmetic_overflow_is_detected() {
    let huge = MonitorInfo {
        index: 0,
        work_area: (i32::MIN, 0, i32::MAX, 10),
        full_rect: (0, 0, 0, 0),
        is_primary: true,
    };
    let cols = vec![column(50, None, false, Vec::new())];
    assert!(!slots_fit(&cols, &huge, 0));
    assert!(slots_fit(&cols, &monitor(0, true), 5));
    assert!(slots_fit(&[], &huge, 0));
    let wide = vec![column(u32::MAX, None, false, Vec::new()), column(10, None, false, Vec::new())];
    assert!(slots_fit(&wide, &monitor(0, true), 5));
    let mon = monitor(0, true);
    assert!(!slots_fit(&[column(2_000_000, None, false, Vec::new()), column(1, None, false, Vec::new())], &mon, 5));
}

#[test]
fn validated_layouts_stay_on_screen() {
    // A layout validate() accepts: tiled widths sum to 100 or less and the
    // absolute column ends at or before 100.
    let cols = vec![
        column(33, None, false, Vec::new()),
        column(0, Some(50), false, Vec::new()),
        column(33, Some(67), false, Vec::new()),
        column(34, None, false, Vec::new()),
        column(20, None, false, Vec::new()),
    ];
    let m = monitor(0, true);
    let slots = calculate_slots(&cols, &m, 7);
    for s in &slots {
        assert!(s.x >= 7 && s.width >= 0 && s.x + s.width <= 1920 - 7, "({}, {})", s.x, s.width);
    }
}

#[test]
fn last_tiled_slot_is_usable_width_minus_earlier_shares() {
    // usable = 1920 - 5 * 3 = 1905; shares 60% -> 1143; last gets 1905 - 1143.
    let cols = vec![column(60, None, false, Vec::new()), column(30, None, false, Vec::new())];
    let slots = calculate_slots(&cols, &monitor(0, true), 5);
    assert_eq!(slots[1].width, 1905 - 1143);
    assert_eq!(slots[1].x + slots[1].width, 1920 - 5);
}

#[test]
fn overfull_rows_shrink_the_last_column_until_earlier_ones_pass_the_edge() {
    let tiled = |w: u32| column(w, None, false, Vec::new());
    // 125%: usable = 1920 - 5 * 4 = 1900; shares 475, 950. The last column
    // starts at 1440 and still ends at the right edge minus one gap.
    let slots = calculate_slots(&[tiled(25), tiled(50), tiled(50)], &monitor(0, true), 5);
    let got: Vec<(i32, i32)> = slots.iter().map(|s| (s.x, s.width)).collect();
    assert_eq!(got, vec![(5, 475), (485, 950), (1440, 475)]);

    // 200%: usable = 1920 - 5 * 5 = 1895; shares 947. The earlier columns
    // already pass the edge, so the last starts beyond it with a negative width.
    let slots = calculate_slots(&[tiled(50), tiled(50), tiled(50), tiled(50)], &monitor(0, true), 5);
    let got: Vec<(i32, i32)> = slots.iter().map(|s| (s.x, s.width)).collect();
    assert_eq!(got, vec![(5, 947), (957, 947), (1909, 947), (2861, -946)]);
    assert_eq!(slots[3].x + slots[3].width, 1920 - 5);
}

#[test]
fn claiming_keeps_every_window_either_claimed_or_in_the_pool() {
    let original = || {
        vec![
            win(1, "Notes", "notes.exe", false),
            win(2, "Inbox - Mail", "mail.exe", true),
            win(3, "Drafts - Mail", "mail.exe", false),
            win(4, "Terminal", "term.exe", false),
        ]
    };
    for match_all in [false, true] {
        let mut pool = original();
        let col = column(50, None, match_all, vec![rule(None, Some("MAIL.EXE")), rule(Some("term"), None)]);
        let claimed = claim_windows(&mut pool, &col);
        let mut all: Vec<isize> = claimed.iter().chain(pool.iter()).map(|w| w.hwnd).collect();
        all.sort();
        assert_eq!(all, vec![1, 2, 3, 4]);
        if match_all {
            assert_eq!(claimed.iter().map(|w| w.hwnd).collect::<Vec<_>>(), vec![3, 2, 4]);
            assert_eq!(pool.len(), 1);
        } else {
            // The awake window is preferred over the minimized one.
            assert_eq!(claimed.iter().map(|w| w.hwnd).collect::<Vec<_>>(), vec![3]);
        }
    }
}

#[test]
fn invisible_borders_are_added_to_the_requested_rectangle() {
    let slot = LayoutSlot { x: 100, y: 50, width: 800, height: 600 };
    // Borders of 7 px on the left, right and bottom, none on top.
    let frame = Some((107, 50, 893, 643));
    let window = Some((100, 50, 900, 650));
    assert!(compensation_in_range(&slot, frame, window));
    assert_eq!(compensated_rect(&slot, frame, window), (93, 50, 814, 607));
    // Without both rectangles the slot is requested as it is.
    assert_eq!(compensated_rect(&slot, None, None), (100, 50, 800, 600));
    assert_eq!(compensated_rect(&slot, frame, None), (100, 50, 800, 600));
    // Arithmetic that would leave an i32 is reported.
    let wide = LayoutSlot { x: 0, y: 0, width: i32::MAX, height: 10 };
    assert!(!compensation_in_range(&wide, frame, window));
    assert!(compensation_in_range(&wide, None, window));
}

#[test]
fn lowered_rules_match_by_substring() {
    assert!(rule_matches_lowered("notes - notepad", "notepad.exe", Some("notes"), None));
    assert!(rule_matches_lowered("x", "pwsh.exe", None, Some("pwsh")));
    assert!(!rule_matches_lowered("notes", "notepad.exe", Some("notes"), Some("code")));
    assert!(rule_matches_lowered("notes", "notepad.exe", Some("notes"), Some("pad")));
    assert!(!rule_matches_lowered("notes", "notepad.exe", None, None));
    assert!(rule_matches_lowered("", "", Some(""), None));
    // The text is taken as given: no case folding happens here.
    assert!(!rule_matches_lowered("notes", "notepad.exe", Some("NOTES"), None));
}
