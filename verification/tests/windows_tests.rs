use window_snap::config::{Column, MatchRule};
use window_snap::windows::{calculate_slots, claim_windows, match_window, MonitorInfo, WindowInfo};

fn win(hwnd: isize, title: &str, process: &str, minimized: bool) -> WindowInfo {
    WindowInfo {
        hwnd,
        title: title.to_string(),
        process_name: process.to_string(),
        is_minimized: minimized,
    }
}

fn rule(title: Option<&str>, process: Option<&str>) -> MatchRule {
    MatchRule {
        title_contains: title.map(String::from),
        process_name: process.map(String::from),
    }
}

#[test]
fn matches_by_title_case_insensitive() {
    let mut pool = vec![win(1, "Windows PowerShell", "powershell.exe", false)];
    let matched = match_window(&mut pool, &[rule(Some("powershell"), None)]);
    assert_eq!(matched.unwrap().hwnd, 1);
    assert!(pool.is_empty());
}

#[test]
fn matches_renamed_window_by_process() {
    // The bug report: a renamed PowerShell window must still match on process.
    let mut pool = vec![
        win(1, "Notes - Notepad", "notepad.exe", false),
        win(2, "my custom window name", "powershell.exe", false),
    ];
    let matched = match_window(&mut pool, &[rule(None, Some("powershell.exe"))]);
    assert_eq!(matched.unwrap().hwnd, 2);
}

#[test]
fn combined_rule_requires_both_title_and_process() {
    // Rule with both fields is an AND: title alone must not match.
    let mut pool = vec![
        win(1, "admin session", "cmd.exe", false),
        win(2, "admin session", "powershell.exe", false),
    ];
    let matched = match_window(&mut pool, &[rule(Some("admin"), Some("powershell.exe"))]);
    assert_eq!(matched.unwrap().hwnd, 2);
    assert_eq!(pool.len(), 1);
    assert_eq!(pool[0].hwnd, 1);
}

#[test]
fn combined_rule_matches_nothing_when_only_one_side_holds() {
    let mut pool = vec![
        win(1, "admin session", "cmd.exe", false),      // title yes, process no
        win(2, "build output", "powershell.exe", false), // process yes, title no
    ];
    let matched = match_window(&mut pool, &[rule(Some("admin"), Some("powershell.exe"))]);
    assert!(matched.is_none());
    assert_eq!(pool.len(), 2);
}

#[test]
fn first_rule_wins_over_later_rules() {
    let mut pool = vec![
        win(1, "some page - Firefox", "firefox.exe", false),
        win(2, "some page - Brave", "brave.exe", false),
    ];
    let rules = [rule(None, Some("brave.exe")), rule(None, Some("firefox.exe"))];
    let matched = match_window(&mut pool, &rules);
    assert_eq!(matched.unwrap().hwnd, 2);
}

#[test]
fn earliest_window_in_pool_wins_among_equal_matches() {
    // Pool order is Z-order (topmost first), and the earliest non-minimized
    // match wins.
    let mut pool = vec![
        win(1, "reader", "WindowsTerminal.exe", false),
        win(2, "window-snap", "WindowsTerminal.exe", false),
    ];
    let matched = match_window(&mut pool, &[rule(None, Some("WindowsTerminal.exe"))]);
    assert_eq!(matched.unwrap().hwnd, 1);
}

#[test]
fn prefers_non_minimized_candidate() {
    let mut pool = vec![
        win(1, "PowerShell", "powershell.exe", true),
        win(2, "PowerShell", "powershell.exe", false),
    ];
    let matched = match_window(&mut pool, &[rule(None, Some("powershell.exe"))]);
    assert_eq!(matched.unwrap().hwnd, 2);
}

#[test]
fn matched_window_leaves_pool_for_repeat_rules() {
    // BlueStacks-style: same process rule on consecutive columns grabs distinct windows.
    let mut pool = vec![
        win(1, "BlueStacks 1", "HD-Player.exe", false),
        win(2, "BlueStacks 2", "HD-Player.exe", false),
    ];
    let rules = [rule(None, Some("HD-Player.exe"))];
    let first = match_window(&mut pool, &rules).unwrap();
    let second = match_window(&mut pool, &rules).unwrap();
    assert_ne!(first.hwnd, second.hwnd);
    assert!(match_window(&mut pool, &rules).is_none());
}

#[test]
fn empty_rule_list_matches_nothing() {
    let mut pool = vec![win(1, "PowerShell", "powershell.exe", false)];
    assert!(match_window(&mut pool, &[]).is_none());
    assert_eq!(pool.len(), 1);
}

fn test_monitor() -> MonitorInfo {
    MonitorInfo {
        index: 0,
        work_area: (0, 0, 1920, 1040), // taskbar-clipped 1080p
        full_rect: (0, 0, 1920, 1080),
        is_primary: true,
    }
}

fn col(width_percent: u32) -> Column {
    Column {
        width_percent,
        x_percent: None,
        match_all: false,
        match_rules: Vec::new(),
    }
}

/// A column pinned to an absolute left edge, outside the tiling flow.
fn abs_col(x_percent: u32, width_percent: u32) -> Column {
    Column {
        width_percent,
        x_percent: Some(x_percent),
        match_all: false,
        match_rules: Vec::new(),
    }
}

#[test]
fn slots_fill_work_area_with_gaps() {
    let gap = 5;
    let columns = [col(25), col(25), col(25), col(25)];
    let slots = calculate_slots(&columns, &test_monitor(), gap);
    assert_eq!(slots.len(), 4);
    assert_eq!(slots[0].x, gap);
    assert_eq!(slots[0].y, gap);
    assert_eq!(slots[0].height, 1040 - 2 * gap);
    // Last column ends flush against the right work edge minus gap.
    let last = &slots[3];
    assert_eq!(last.x + last.width, 1920 - gap);
    // Columns don't overlap and are separated by exactly one gap.
    for pair in slots.windows(2) {
        assert_eq!(pair[0].x + pair[0].width + gap, pair[1].x);
    }
}

#[test]
fn last_slot_absorbs_rounding_remainder() {
    let gap = 0;
    let columns = [col(33), col(33), col(33)]; // 99% — remainder goes to last
    let slots = calculate_slots(&columns, &test_monitor(), gap);
    let total: i32 = slots.iter().map(|s| s.width).sum();
    assert_eq!(total, 1920);
}

#[test]
fn underfull_widths_still_reach_the_screen_edge() {
    // 40 + 20 = 60%, yet the last column absorbs the slack and the layout
    // still fills the work area.
    let gap = 5;
    let columns = [col(40), col(20)];
    let slots = calculate_slots(&columns, &test_monitor(), gap);
    let last = slots.last().unwrap();
    assert_eq!(last.x + last.width, 1920 - gap);
    assert!(slots.iter().all(|s| s.width > 0));
}

/// A column carrying match rules, for the claim tests.
fn matching_col(match_all: bool, rules: Vec<MatchRule>) -> Column {
    Column {
        width_percent: 30,
        x_percent: None,
        match_all,
        match_rules: rules,
    }
}

fn title_rule(title: &str) -> MatchRule {
    MatchRule {
        title_contains: Some(title.to_string()),
        process_name: None,
    }
}

#[test]
fn normal_column_claims_only_the_topmost_match() {
    let mut pool = vec![
        win(1, "Coat Check - Brave", "brave.exe", false),
        win(2, "Recipes - Brave", "brave.exe", false),
        win(3, "Signal", "Signal.exe", false),
    ];
    let claimed = claim_windows(&mut pool, &matching_col(false, vec![title_rule("Brave")]));
    assert_eq!(claimed.len(), 1);
    assert_eq!(claimed[0].hwnd, 1);
    // The unclaimed browser window is still available to later columns.
    assert_eq!(pool.len(), 2);
}

#[test]
fn match_all_column_claims_every_match_in_order() {
    let mut pool = vec![
        win(1, "Coat Check - Brave", "brave.exe", false),
        win(2, "Signal", "Signal.exe", false),
        win(3, "Recipes - Brave", "brave.exe", false),
        win(4, "Downloads - Brave", "brave.exe", false),
    ];
    let claimed = claim_windows(&mut pool, &matching_col(true, vec![title_rule("Brave")]));
    // Match order is z-order, so the window that was on top comes first.
    assert_eq!(claimed.iter().map(|w| w.hwnd).collect::<Vec<_>>(), vec![1, 3, 4]);
    // Non-matching windows are untouched.
    assert_eq!(pool.len(), 1);
    assert_eq!(pool[0].hwnd, 2);
}

#[test]
fn match_all_column_leaves_nothing_for_a_later_duplicate_column() {
    // Two columns with identical rules: the first is match_all, so the
    // second must come up empty rather than re-placing a claimed window.
    let mut pool = vec![
        win(1, "A - Brave", "brave.exe", false),
        win(2, "B - Brave", "brave.exe", false),
    ];
    let first = claim_windows(&mut pool, &matching_col(true, vec![title_rule("Brave")]));
    let second = claim_windows(&mut pool, &matching_col(true, vec![title_rule("Brave")]));
    assert_eq!(first.len(), 2);
    assert!(second.is_empty());
}

#[test]
fn match_all_column_with_no_matches_claims_nothing() {
    let mut pool = vec![win(1, "Signal", "Signal.exe", false)];
    let claimed = claim_windows(&mut pool, &matching_col(true, vec![title_rule("Brave")]));
    assert!(claimed.is_empty());
    assert_eq!(pool.len(), 1);
}

#[test]
fn absolute_column_is_positioned_at_its_x_percent() {
    let gap = 5;
    // 1920 wide, minus the two outer gaps, leaves a 1910px span to measure against.
    let slots = calculate_slots(&[abs_col(50, 25)], &test_monitor(), gap);
    assert_eq!(slots[0].x, gap + 1910 / 2);
    assert_eq!(slots[0].width, 1910 / 4);
}

#[test]
fn absolute_columns_may_overlap() {
    // Two windows both wide enough to use, sharing the middle of the screen.
    let slots = calculate_slots(&[abs_col(0, 60), abs_col(45, 55)], &test_monitor(), 5);
    let (a, b) = (&slots[0], &slots[1]);
    assert!(
        b.x < a.x + a.width,
        "expected overlap: first ends at {}, second starts at {}",
        a.x + a.width,
        b.x
    );
    // Both keep their full requested width — neither is squeezed by the other.
    assert_eq!(a.width, 1910 * 60 / 100);
    assert_eq!(b.width, 1910 * 55 / 100);
}

#[test]
fn absolute_columns_do_not_disturb_tiled_neighbours() {
    // Mixed layout: the tiled columns must land exactly where they would if
    // the absolute one were not in the list at all.
    let monitor = test_monitor();
    let tiled_only = calculate_slots(&[col(30), col(70)], &monitor, 5);
    let mixed = calculate_slots(&[col(30), abs_col(10, 40), col(70)], &monitor, 5);

    assert_eq!((mixed[0].x, mixed[0].width), (tiled_only[0].x, tiled_only[0].width));
    assert_eq!((mixed[2].x, mixed[2].width), (tiled_only[1].x, tiled_only[1].width));
}

#[test]
fn last_tiled_column_absorbs_remainder_even_when_an_absolute_column_follows() {
    // The remainder rule targets the last *tiled* column, not the last column.
    let gap = 5;
    let slots = calculate_slots(&[col(50), col(50), abs_col(0, 30)], &test_monitor(), gap);
    assert_eq!(slots[1].x + slots[1].width, 1920 - gap);
}

#[test]
fn layout_without_x_percent_is_unchanged() {
    let monitor = test_monitor();
    let columns = [col(25), col(25), col(25), col(25)];
    let slots = calculate_slots(&columns, &monitor, 5);
    assert_eq!(slots[0].x, 5);
    assert_eq!(slots.last().unwrap().x + slots.last().unwrap().width, 1920 - 5);
    assert!(slots.windows(2).all(|w| w[1].x >= w[0].x + w[0].width));
}

#[test]
fn overfull_widths_run_off_the_screen_instead_of_overlapping() {
    // Columns are tiled, never stacked, so widths over 100% cannot produce
    // overlap — the excess marches past the right edge and the last column is
    // handed a negative width.
    let gap = 5;
    let columns = [col(50), col(50), col(50), col(50)]; // 200%
    let slots = calculate_slots(&columns, &test_monitor(), gap);
    assert!(
        slots.iter().any(|s| s.x + s.width > 1920),
        "expected a column past the right edge: {:?}",
        slots.iter().map(|s| (s.x, s.width)).collect::<Vec<_>>()
    );
    assert!(
        slots.last().unwrap().width < 0,
        "expected the last column to get a negative width, got {}",
        slots.last().unwrap().width
    );
}
