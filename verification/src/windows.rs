//! The window-placement engine: slot geometry for a layout, and matching
//! windows to the columns that claim them.
use vstd::multiset::Multiset;
use vstd::prelude::*;

use crate::config::{Column, Layout, MatchRule};
use crate::config::join_text;
use crate::text::{chars_of, contains, lowercase, occurs_at, push_char, seq_contains, to_lowercase};

pub use crate::geometry::calculate_slots;
use crate::geometry::{fits_i32, slot_arithmetic_fits, slot_is, slots_fit};

verus! {

/// A top-level window that a layout may place.
#[derive(Debug)]
pub struct WindowInfo {
    pub hwnd: isize,
    pub title: String,
    pub process_name: String,
    pub is_minimized: bool,
}

/// A monitor, with rectangles given as (left, top, right, bottom).
#[derive(Clone, Copy, Debug)]
pub struct MonitorInfo {
    pub index: usize,
    pub work_area: (i32, i32, i32, i32),
    pub full_rect: (i32, i32, i32, i32),
    pub is_primary: bool,
}

/// A target rectangle in pixels.
#[derive(Clone, Copy, Debug)]
pub struct LayoutSlot {
    pub x: i32,
    pub y: i32,
    pub width: i32,
    pub height: i32,
}


// ───────────────────────── matching windows to rules ─────────────────────────

/// The text of an optional criterion; an absent one reads as empty.
pub open spec fn criterion(o: Option<String>) -> Seq<char> {
    match o {
        Some(s) => s@,
        None => Seq::empty(),
    }
}

/// A rule, with its criteria and the window's texts already lower-cased,
/// matches: it has a criterion (`None` stands for an absent or empty one), and
/// each criterion it has is a substring of the matching text (the title for
/// `title_needle`, the executable name for `process_needle`).
pub open spec fn lowered_match(
    title_lc: Seq<char>,
    process_lc: Seq<char>,
    title_needle: Option<Seq<char>>,
    process_needle: Option<Seq<char>>,
) -> bool {
    &&& !(title_needle is None && process_needle is None)
    &&& (title_needle matches Some(t) ==> seq_contains(title_lc, t))
    &&& (process_needle matches Some(p) ==> seq_contains(process_lc, p))
}

/// The characters of an optional string.
pub open spec fn str_view(o: Option<&str>) -> Option<Seq<char>> {
    match o {
        Some(s) => Some(s@),
        None => None,
    }
}

/// The lower-cased text of a criterion, or none when it is absent or empty.
pub open spec fn lowered_criterion(o: Option<String>) -> Option<Seq<char>> {
    if criterion(o).len() == 0 {
        None
    } else {
        Some(lowercase(criterion(o)))
    }
}

/// A rule matches a window when it has at least one non-empty criterion and
/// every non-empty criterion is a case-insensitive substring of the matching
/// window text (title for `title_contains`, executable name for `process_name`).
pub open spec fn rule_matches_spec(rule: MatchRule, window: WindowInfo) -> bool {
    lowered_match(
        lowercase(window.title@),
        lowercase(window.process_name@),
        lowered_criterion(rule.title_contains),
        lowered_criterion(rule.process_name),
    )
}

/// Matching on lower-cased text: a title needle is looked for in the title
/// only, a process needle in the executable name only, a rule with both needs
/// both, and a rule with neither matches nothing.
pub proof fn law_lowered_needles_search_their_own_text(
    title_lc: Seq<char>,
    process_lc: Seq<char>,
    t: Seq<char>,
    p: Seq<char>,
)
    ensures
        lowered_match(title_lc, process_lc, Some(t), None) <==> exists|i: int|
            0 <= i && i + t.len() <= title_lc.len() && #[trigger] title_lc.subrange(i, i + t.len()) == t,
        lowered_match(title_lc, process_lc, None, Some(p)) <==> exists|i: int|
            0 <= i && i + p.len() <= process_lc.len() && #[trigger] process_lc.subrange(i, i + p.len()) == p,
        lowered_match(title_lc, process_lc, Some(t), Some(p)) <==> lowered_match(
            title_lc,
            process_lc,
            Some(t),
            None,
        ) && lowered_match(title_lc, process_lc, None, Some(p)),
        !lowered_match(title_lc, process_lc, None, None),
{
    lemma_contains_is_occurrence(title_lc, t);
    lemma_contains_is_occurrence(process_lc, p);
}

/// A substring is an occurrence at some position.
proof fn lemma_contains_is_occurrence(hay: Seq<char>, needle: Seq<char>)
    ensures
        seq_contains(hay, needle) <==> exists|i: int|
            0 <= i && i + needle.len() <= hay.len() && #[trigger] hay.subrange(i, i + needle.len()) == needle,
{
    if seq_contains(hay, needle) {
        let i = choose|i: int| occurs_at(hay, needle, i);
        assert(hay.subrange(i, i + needle.len()) == needle);
    }
    if exists|i: int|
        0 <= i && i + needle.len() <= hay.len() && #[trigger] hay.subrange(i, i + needle.len()) == needle {
        let i = choose|i: int|
            0 <= i && i + needle.len() <= hay.len() && #[trigger] hay.subrange(i, i + needle.len()) == needle;
        assert(occurs_at(hay, needle, i));
    }
}

/// A rule whose only criterion is a process name matches a window exactly when
/// the window's lower-cased executable name contains the lower-cased criterion;
/// the title plays no part. Symmetrically, a rule whose only criterion is a
/// title looks at the title alone, and a rule without criteria matches nothing.
pub proof fn law_rule_criteria_search_their_own_text(rule: MatchRule, window: WindowInfo)
    ensures
        ({
            &&& rule.title_contains is None || rule.title_contains->0@.len() == 0
            &&& rule.process_name is Some
            &&& rule.process_name->0@.len() > 0
        }) ==> (rule_matches_spec(rule, window) <==> exists|i: int|
            0 <= i && i + lowercase(rule.process_name->0@).len() <= lowercase(window.process_name@).len()
                && #[trigger] lowercase(window.process_name@).subrange(
                i,
                i + lowercase(rule.process_name->0@).len(),
            ) == lowercase(rule.process_name->0@)),
        ({
            &&& rule.process_name is None || rule.process_name->0@.len() == 0
            &&& rule.title_contains is Some
            &&& rule.title_contains->0@.len() > 0
        }) ==> (rule_matches_spec(rule, window) <==> exists|i: int|
            0 <= i && i + lowercase(rule.title_contains->0@).len() <= lowercase(window.title@).len()
                && #[trigger] lowercase(window.title@).subrange(i, i + lowercase(rule.title_contains->0@).len())
                == lowercase(rule.title_contains->0@)),
        (rule.title_contains is None || rule.title_contains->0@.len() == 0) && (rule.process_name is None
            || rule.process_name->0@.len() == 0) ==> !rule_matches_spec(rule, window),
{
    let tl = lowercase(window.title@);
    let pl = lowercase(window.process_name@);
    match rule.process_name {
        Some(p) => {
            law_lowered_needles_search_their_own_text(tl, pl, Seq::empty(), lowercase(p@));
        },
        None => {},
    }
    match rule.title_contains {
        Some(t) => {
            law_lowered_needles_search_their_own_text(tl, pl, lowercase(t@), Seq::empty());
        },
        None => {},
    }
}

/// Windows of system UI are never managed: the taskbars, the desktop
/// (`Progman`, `WorkerW`), core windows, tooltips and input-method windows are
/// skipped whatever else is true of them. Nor is an invisible, untitled or
/// tool window, or an owned window that is not an app window.
pub proof fn law_system_windows_are_never_managed(
    visible: bool,
    title: Seq<char>,
    class_name: Seq<char>,
    is_tool_window: bool,
    is_app_window: bool,
    has_owner: bool,
)
    ensures
        !is_manageable_spec(visible, title, "Shell_TrayWnd"@, is_tool_window, is_app_window, has_owner),
        !is_manageable_spec(visible, title, "Shell_SecondaryTrayWnd"@, is_tool_window, is_app_window, has_owner),
        !is_manageable_spec(visible, title, "Progman"@, is_tool_window, is_app_window, has_owner),
        !is_manageable_spec(visible, title, "WorkerW"@, is_tool_window, is_app_window, has_owner),
        !is_manageable_spec(visible, title, "Windows.UI.Core.CoreWindow"@, is_tool_window, is_app_window, has_owner),
        !is_manageable_spec(visible, title, "tooltips_class32"@, is_tool_window, is_app_window, has_owner),
        !is_manageable_spec(visible, title, "IME"@, is_tool_window, is_app_window, has_owner),
        !is_manageable_spec(visible, title, "MSCTFIME UI"@, is_tool_window, is_app_window, has_owner),
        !visible || title.len() == 0 || is_tool_window || (has_owner && !is_app_window) ==> !is_manageable_spec(
            visible,
            title,
            class_name,
            is_tool_window,
            is_app_window,
            has_owner,
        ),
{
}

/// An ordinary window is managed: a visible, titled window that is no tool
/// window, is top-level (an app window or without owner) and whose class is
/// none of the system classes.
pub proof fn law_ordinary_windows_are_managed(
    title: Seq<char>,
    class_name: Seq<char>,
    is_app_window: bool,
    has_owner: bool,
)
    requires
        title.len() > 0,
        is_app_window || !has_owner,
        class_name != "Shell_TrayWnd"@,
        class_name != "Shell_SecondaryTrayWnd"@,
        class_name != "Progman"@,
        class_name != "WorkerW"@,
        class_name != "Windows.UI.Core.CoreWindow"@,
        class_name != "tooltips_class32"@,
        class_name != "IME"@,
        class_name != "MSCTFIME UI"@,
    ensures
        is_manageable_spec(true, title, class_name, false, is_app_window, has_owner),
{
}

/// Whether a rule matches a window, given the window's title and executable
/// name and the rule's criteria, all already lower-cased.
pub fn rule_matches_lowered(
    title_lc: &str,
    process_lc: &str,
    title_needle: Option<&str>,
    process_needle: Option<&str>,
) -> (r: bool)
    ensures
        r == lowered_match(title_lc@, process_lc@, str_view(title_needle), str_view(process_needle)),
{
    if title_needle.is_none() && process_needle.is_none() {
        return false;
    }
    if let Some(t) = title_needle {
        if !contains(title_lc, t) {
            return false;
        }
    }
    if let Some(p) = process_needle {
        if !contains(process_lc, p) {
            return false;
        }
    }
    true
}

/// Check whether a single rule matches a window.
/// title_contains and process_name are each case-insensitive substring checks;
/// when a rule specifies both, the window must satisfy both (AND).
pub fn rule_matches(rule: &MatchRule, window: &WindowInfo) -> (r: bool)
    ensures
        r == rule_matches_spec(*rule, *window),
{
    let title_search: &str = match &rule.title_contains {
        Some(t) => t.as_str(),
        None => "",
    };
    let proc_search: &str = match &rule.process_name {
        Some(p) => p.as_str(),
        None => "",
    };
    proof {
        reveal_strlit("");
    }
    assert(title_search@ == criterion(rule.title_contains));
    assert(proc_search@ == criterion(rule.process_name));

    // An empty criterion is no criterion; the texts are only lowered when a
    // criterion needs them.
    let title_needle: Option<String> = if title_search.is_empty() {
        None
    } else {
        Some(to_lowercase(title_search))
    };
    let proc_needle: Option<String> = if proc_search.is_empty() {
        None
    } else {
        Some(to_lowercase(proc_search))
    };
    let title_lc = if title_needle.is_some() {
        to_lowercase(window.title.as_str())
    } else {
        String::new()
    };
    let proc_lc = if proc_needle.is_some() {
        to_lowercase(window.process_name.as_str())
    } else {
        String::new()
    };
    let tn: Option<&str> = match &title_needle {
        Some(t) => Some(t.as_str()),
        None => None,
    };
    let pn: Option<&str> = match &proc_needle {
        Some(p) => Some(p.as_str()),
        None => None,
    };
    assert(str_view(tn) == lowered_criterion(rule.title_contains));
    assert(str_view(pn) == lowered_criterion(rule.process_name));
    rule_matches_lowered(title_lc.as_str(), proc_lc.as_str(), tn, pn)
}

/// Index of the first window of `pool` that `rule` matches (and that is not
/// minimized, when `awake_only`), or -1 when there is none.
pub open spec fn first_match(pool: Seq<WindowInfo>, rule: MatchRule, awake_only: bool) -> int
    decreases pool.len(),
{
    if pool.len() == 0 {
        -1
    } else {
        let earlier = first_match(pool.drop_last(), rule, awake_only);
        if earlier >= 0 {
            earlier
        } else if rule_matches_spec(rule, pool.last()) && !(awake_only && pool.last().is_minimized) {
            pool.len() - 1
        } else {
            -1
        }
    }
}

/// The window a rule picks: the earliest non-minimized match, else the
/// earliest match, else none (-1).
pub open spec fn preferred_match(pool: Seq<WindowInfo>, rule: MatchRule) -> int {
    let awake = first_match(pool, rule, true);
    if awake >= 0 {
        awake
    } else {
        first_match(pool, rule, false)
    }
}

/// The window picked by the rules from the `r`-th on: the first rule that
/// matches some window decides.
pub open spec fn match_choice_from(pool: Seq<WindowInfo>, rules: Seq<MatchRule>, r: int) -> int
    decreases rules.len() - r,
{
    if r < 0 || r >= rules.len() {
        -1
    } else if preferred_match(pool, rules[r]) >= 0 {
        preferred_match(pool, rules[r])
    } else {
        match_choice_from(pool, rules, r + 1)
    }
}

/// Index of the window that `match_window` takes from `pool`, or -1.
pub open spec fn match_choice(pool: Seq<WindowInfo>, rules: Seq<MatchRule>) -> int {
    match_choice_from(pool, rules, 0)
}

proof fn lemma_first_match(pool: Seq<WindowInfo>, rule: MatchRule, awake_only: bool)
    ensures
        -1 <= first_match(pool, rule, awake_only) < pool.len(),
        first_match(pool, rule, awake_only) >= 0 ==> {
            let k = first_match(pool, rule, awake_only);
            &&& rule_matches_spec(rule, pool[k])
            &&& !(awake_only && pool[k].is_minimized)
            &&& forall|j: int|
                0 <= j < k ==> !(rule_matches_spec(rule, #[trigger] pool[j]) && !(awake_only
                    && pool[j].is_minimized))
        },
        first_match(pool, rule, awake_only) == -1 ==> forall|j: int|
            0 <= j < pool.len() ==> !(rule_matches_spec(rule, #[trigger] pool[j]) && !(awake_only
                && pool[j].is_minimized)),
    decreases pool.len(),
{
    if pool.len() > 0 {
        lemma_first_match(pool.drop_last(), rule, awake_only);
        assert forall|j: int| 0 <= j < pool.len() - 1 implies #[trigger] pool[j] == pool.drop_last()[j] by {}
    }
}

proof fn lemma_match_choice_from(pool: Seq<WindowInfo>, rules: Seq<MatchRule>, r: int)
    requires
        0 <= r,
    ensures
        -1 <= match_choice_from(pool, rules, r) < pool.len(),
        match_choice_from(pool, rules, r) == -1 ==> forall|q: int, j: int|
            r <= q < rules.len() && 0 <= j < pool.len() ==> !rule_matches_spec(
                #[trigger] rules[q],
                #[trigger] pool[j],
            ),
        match_choice_from(pool, rules, r) >= 0 ==> exists|q: int|
            r <= q < rules.len() && rule_matches_spec(
                #[trigger] rules[q],
                pool[match_choice_from(pool, rules, r)],
            ),
    decreases rules.len() - r,
{
    if r < rules.len() {
        lemma_first_match(pool, rules[r], true);
        lemma_first_match(pool, rules[r], false);
        lemma_match_choice_from(pool, rules, r + 1);
        if preferred_match(pool, rules[r]) >= 0 {
            assert(rule_matches_spec(rules[r], pool[match_choice_from(pool, rules, r)]));
        } else if match_choice_from(pool, rules, r + 1) >= 0 {
            let q = choose|q: int|
                r + 1 <= q < rules.len() && rule_matches_spec(
                    #[trigger] rules[q],
                    pool[match_choice_from(pool, rules, r + 1)],
                );
            assert(r <= q < rules.len());
        }
    }
}

/// Find the best matching window for a set of match rules.
/// Rules are OR'd — first rule that matches any window wins.
/// Removes the matched window from the pool.
///
/// When several windows match a rule, the earliest in the pool wins
/// (pool order is Z-order, topmost first — roughly the most recently used
/// matching window), preferring non-minimized candidates.
pub fn match_window(windows: &mut Vec<WindowInfo>, rules: &[MatchRule]) -> (found: Option<WindowInfo>)
    ensures
        match_choice(old(windows)@, rules@) == -1 ==> found is None && final(windows)@ == old(windows)@,
        match_choice(old(windows)@, rules@) >= 0 ==> {
            let k = match_choice(old(windows)@, rules@);
            &&& found == Some(old(windows)@[k])
            &&& final(windows)@ == old(windows)@.remove(k)
        },
{
    let ghost pool = windows@;
    let mut r: usize = 0;
    while r < rules.len()
        invariant
            windows@ == pool,
            pool == old(windows)@,
            0 <= r <= rules@.len(),
            match_choice(pool, rules@) == match_choice_from(pool, rules@, r as int),
        decreases rules@.len() - r,
    {
        let rule = &rules[r];
        // Find candidates, prefer non-minimized
        let mut best_idx: Option<usize> = None;
        let mut best_minimized = true;
        let mut i: usize = 0;
        while i < windows.len()
            invariant
                windows@ == pool,
                *rule == rules@[r as int],
                0 <= i <= pool.len(),
                match best_idx {
                    None => first_match(pool.take(i as int), *rule, false) == -1,
                    Some(b) => {
                        &&& best_minimized ==> {
                            &&& b == first_match(pool.take(i as int), *rule, false)
                            &&& first_match(pool.take(i as int), *rule, true) == -1
                        }
                        &&& !best_minimized ==> b == first_match(pool.take(i as int), *rule, true)
                    },
                },
            decreases pool.len() - i,
        {
            assert(pool.take(i + 1).drop_last() =~= pool.take(i as int));
            let w = &windows[i];
            if rule_matches(rule, w) {
                if best_idx.is_none() || (best_minimized && !w.is_minimized) {
                    best_idx = Some(i);
                    best_minimized = w.is_minimized;
                }
            }
            proof {
                lemma_first_match(pool.take(i as int), *rule, false);
                lemma_first_match(pool.take(i as int), *rule, true);
            }
            i = i + 1;
        }
        assert(pool.take(i as int) =~= pool);
        proof {
            lemma_first_match(pool, *rule, false);
            lemma_first_match(pool, *rule, true);
        }
        if let Some(idx) = best_idx {
            assert(first_match(pool.take(i as int), *rule, false) == first_match(pool, *rule, false));
            assert(preferred_match(pool, *rule) == idx);
            assert(match_choice_from(pool, rules@, r as int) == idx);
            return Some(windows.remove(idx));
        }
        r = r + 1;
    }
    None
}

/// Windows claimed by a `match_all` column from `pool`, in claim order, and the
/// windows left over: it keeps taking the window `match_window` picks until
/// none matches.
pub open spec fn claim_all(pool: Seq<WindowInfo>, rules: Seq<MatchRule>) -> (Seq<WindowInfo>, Seq<WindowInfo>)
    decreases pool.len(),
{
    let k = match_choice(pool, rules);
    if 0 <= k < pool.len() {
        let rest = claim_all(pool.remove(k), rules);
        (seq![pool[k]] + rest.0, rest.1)
    } else {
        (Seq::empty(), pool)
    }
}

/// Windows a column claims from `pool`, and the windows left over: a normal
/// column takes what `match_window` picks, if anything; a `match_all` column
/// keeps claiming until nothing matches.
pub open spec fn claim_spec(pool: Seq<WindowInfo>, col: Column) -> (Seq<WindowInfo>, Seq<WindowInfo>) {
    if col.match_all {
        claim_all(pool, col.match_rules@)
    } else {
        let k = match_choice(pool, col.match_rules@);
        if 0 <= k < pool.len() {
            (seq![pool[k]], pool.remove(k))
        } else {
            (Seq::empty(), pool)
        }
    }
}

/// Claim the windows a column is entitled to, removing them from the pool so no
/// later column can re-place them.
///
/// A normal column takes at most one window. A `match_all` column keeps claiming
/// until nothing matches, which is what lets a single slot resize every browser
/// window instead of only whichever one happened to be on top.
///
/// Returned in match order, so the first entry is the window that was topmost.
pub fn claim_windows(pool: &mut Vec<WindowInfo>, col: &Column) -> (claimed: Vec<WindowInfo>)
    ensures
        claimed@ == claim_spec(old(pool)@, *col).0,
        final(pool)@ == claim_spec(old(pool)@, *col).1,
        !col.match_all ==> claimed@.len() <= 1,
{
    let ghost start = pool@;
    let mut claimed: Vec<WindowInfo> = Vec::new();
    proof {
        lemma_match_choice_from(start, col.match_rules@, 0);
    }
    loop
        invariant
            start == old(pool)@,
            !col.match_all ==> claimed@.len() == 0 && pool@ == start,
            col.match_all ==> claim_all(start, col.match_rules@) == (
            claimed@ + claim_all(pool@, col.match_rules@).0,
            claim_all(pool@, col.match_rules@).1,
            ),
        decreases pool@.len(),
    {
        let ghost before = pool@;
        proof {
            lemma_match_choice_from(before, col.match_rules@, 0);
        }
        match match_window(pool, col.match_rules.as_slice()) {
            Some(win) => {
                claimed.push(win);
                if !col.match_all {
                    assert(claimed@ =~= seq![before[match_choice(before, col.match_rules@)]]);
                    return claimed;
                }
                assert(claimed@ =~= claimed@.drop_last() + seq![win]);
                assert(claim_all(before, col.match_rules@).0 =~= seq![win] + claim_all(
                    pool@,
                    col.match_rules@,
                ).0);
                assert(claimed@ + claim_all(pool@, col.match_rules@).0 =~= claimed@.drop_last()
                    + claim_all(before, col.match_rules@).0);
            },
            None => {
                assert(claimed@ + claim_all(pool@, col.match_rules@).0 =~= claimed@);
                return claimed;
            },
        }
    }
}

/// Claiming conserves windows: the claimed windows together with the windows
/// left in the pool are exactly the windows that were in the pool.
pub proof fn law_claiming_conserves_windows(pool: Seq<WindowInfo>, col: Column)
    ensures
        (claim_spec(pool, col).0 + claim_spec(pool, col).1).to_multiset() =~= pool.to_multiset(),
{
    broadcast use vstd::seq_lib::group_to_multiset_ensures, vstd::seq_lib::lemma_multiset_commutative;

    if col.match_all {
        lemma_claim_all_conserves(pool, col.match_rules@);
    } else {
        let k = match_choice(pool, col.match_rules@);
        if 0 <= k < pool.len() {
            assert(seq![pool[k]].to_multiset() =~= Multiset::empty().insert(pool[k]));
        } else {
            assert(Seq::<WindowInfo>::empty() + pool =~= pool);
        }
    }
}

proof fn lemma_claim_all_conserves(pool: Seq<WindowInfo>, rules: Seq<MatchRule>)
    ensures
        (claim_all(pool, rules).0 + claim_all(pool, rules).1).to_multiset() =~= pool.to_multiset(),
    decreases pool.len(),
{
    broadcast use vstd::seq_lib::group_to_multiset_ensures, vstd::seq_lib::lemma_multiset_commutative;

    let k = match_choice(pool, rules);
    if 0 <= k < pool.len() {
        let rest = pool.remove(k);
        lemma_claim_all_conserves(rest, rules);
        let c = claim_all(rest, rules);
        assert(seq![pool[k]].to_multiset() =~= Multiset::empty().insert(pool[k]));
        assert(seq![pool[k]] + c.0 + c.1 =~= seq![pool[k]] + (c.0 + c.1));
    } else {
        assert(Seq::<WindowInfo>::empty() + pool =~= pool);
    }
}

/// A `match_all` column claims every match: once it is done, no window left
/// in the pool matches any of its rules.
pub proof fn law_match_all_leaves_no_match(pool: Seq<WindowInfo>, col: Column)
    requires
        col.match_all,
    ensures
        forall|q: int, j: int|
            0 <= q < col.match_rules@.len() && 0 <= j < claim_spec(pool, col).1.len() ==> !rule_matches_spec(
                #[trigger] col.match_rules@[q],
                #[trigger] claim_spec(pool, col).1[j],
            ),
{
    lemma_claim_all_exhausts(pool, col.match_rules@);
}

proof fn lemma_claim_all_exhausts(pool: Seq<WindowInfo>, rules: Seq<MatchRule>)
    ensures
        forall|q: int, j: int|
            0 <= q < rules.len() && 0 <= j < claim_all(pool, rules).1.len() ==> !rule_matches_spec(
                #[trigger] rules[q],
                #[trigger] claim_all(pool, rules).1[j],
            ),
    decreases pool.len(),
{
    lemma_match_choice_from(pool, rules, 0);
    let k = match_choice(pool, rules);
    if 0 <= k < pool.len() {
        lemma_claim_all_exhausts(pool.remove(k), rules);
        assert(claim_all(pool, rules).1 == claim_all(pool.remove(k), rules).1);
    } else {
        assert(claim_all(pool, rules).1 == pool);
        assert forall|q: int, j: int|
            0 <= q < rules.len() && 0 <= j < pool.len() implies !rule_matches_spec(
            #[trigger] rules[q],
            #[trigger] pool[j],
        ) by {}
    }
}

/// Every window a column claims matches one of the column's rules.
pub proof fn law_claimed_windows_match_a_rule(pool: Seq<WindowInfo>, col: Column)
    ensures
        forall|j: int|
            0 <= j < claim_spec(pool, col).0.len() ==> exists|q: int|
                0 <= q < col.match_rules@.len() && rule_matches_spec(
                    #[trigger] col.match_rules@[q],
                    #[trigger] claim_spec(pool, col).0[j],
                ),
{
    lemma_match_choice_from(pool, col.match_rules@, 0);
    if col.match_all {
        lemma_claim_all_match(pool, col.match_rules@);
    }
}

proof fn lemma_claim_all_match(pool: Seq<WindowInfo>, rules: Seq<MatchRule>)
    ensures
        forall|j: int|
            0 <= j < claim_all(pool, rules).0.len() ==> exists|q: int|
                0 <= q < rules.len() && rule_matches_spec(#[trigger] rules[q], #[trigger] claim_all(pool, rules).0[j]),
    decreases pool.len(),
{
    lemma_match_choice_from(pool, rules, 0);
    let k = match_choice(pool, rules);
    if 0 <= k < pool.len() {
        let rest = pool.remove(k);
        lemma_claim_all_match(rest, rules);
        let c = claim_all(pool, rules).0;
        assert forall|j: int| 0 <= j < c.len() implies exists|q: int|
            0 <= q < rules.len() && rule_matches_spec(#[trigger] rules[q], #[trigger] c[j]) by {
            if j > 0 {
                assert(c[j] == claim_all(rest, rules).0[j - 1]);
            }
        }
    }
}

// ───────────────────────── monitor order ─────────────────────────

/// Monitor `a`, enumerated at position `pa`, comes before monitor `b`,
/// enumerated at `pb`: the primary monitor first, then by left edge, and in
/// enumeration order when those tie.
pub open spec fn monitor_before(a: MonitorInfo, pa: int, b: MonitorInfo, pb: int) -> bool {
    ||| a.is_primary && !b.is_primary
    ||| a.is_primary == b.is_primary && (a.full_rect.0 < b.full_rect.0 || (a.full_rect.0
        == b.full_rect.0 && pa < pb))
}

/// `m` with its index set to `i`.
pub open spec fn reindexed(m: MonitorInfo, i: int) -> MonitorInfo {
    MonitorInfo { index: i as usize, work_area: m.work_area, full_rect: m.full_rect, is_primary: m.is_primary }
}

/// `order` lists distinct positions below `n`, sorted by `monitor_before`.
pub open spec fn is_monitor_order(monitors: Seq<MonitorInfo>, order: Seq<int>, n: int) -> bool {
    &&& forall|i: int| 0 <= i < order.len() ==> 0 <= #[trigger] order[i] < n
    &&& forall|i: int, j: int| 0 <= i < j < order.len() ==> #[trigger] order[i] != #[trigger] order[j]
    &&& forall|i: int, j: int|
        0 <= i < j < order.len() ==> monitor_before(
            monitors[#[trigger] order[i]],
            order[i],
            monitors[#[trigger] order[j]],
            order[j],
        )
}

/// Sort monitors: primary first, then by x-coordinate, keeping enumeration
/// order between ties; then number them by their new position.
pub fn order_monitors(monitors: Vec<MonitorInfo>) -> (ordered: Vec<MonitorInfo>)
    ensures
        ordered@.len() == monitors@.len(),
        exists|order: Seq<int>|
            {
                &&& order.len() == monitors@.len()
                &&& is_monitor_order(monitors@, order, monitors@.len() as int)
                &&& forall|i: int|
                    0 <= i < order.len() ==> #[trigger] ordered@[i] == reindexed(monitors@[order[i]], i)
            },
{
    let n = monitors.len();
    let mut order: Vec<usize> = Vec::new();
    let mut p: usize = 0;
    while p < n
        invariant
            n == monitors@.len(),
            0 <= p <= n,
            order@.len() == p,
            is_monitor_order(monitors@, order@.map_values(|x: usize| x as int), p as int),
        decreases n - p,
    {
        let ghost ord = order@.map_values(|x: usize| x as int);
        assert forall|j: int| 0 <= j < order@.len() implies #[trigger] order@[j] < p by {
            assert(ord[j] == order@[j] as int);
        }
        let mut q: usize = 0;
        while q < order.len() && !before_at(&monitors, p, order[q])
            invariant
                n == monitors@.len(),
                p < n,
                order@.len() == p,
                ord == order@.map_values(|x: usize| x as int),
                is_monitor_order(monitors@, ord, p as int),
                0 <= q <= order@.len(),
                forall|j: int| 0 <= j < order@.len() ==> #[trigger] order@[j] < p,
                forall|j: int| 0 <= j < q ==> !monitor_before(monitors@[p as int], p as int, monitors@[#[trigger] ord[j]], ord[j]),
            decreases order@.len() - q,
        {
            q = q + 1;
        }
        order.insert(q, p);
        proof {
            let o2 = order@.map_values(|x: usize| x as int);
            assert(o2 =~= ord.insert(q as int, p as int));
            let pi = p as int;
            assert forall|i: int, j: int|
                0 <= i < j < o2.len() implies monitor_before(
                monitors@[#[trigger] o2[i]],
                o2[i],
                monitors@[#[trigger] o2[j]],
                o2[j],
            ) by {
                if j == q {
                    assert(o2[i] == ord[i]);
                    assert(!monitor_before(monitors@[pi], pi, monitors@[ord[i]], ord[i]));
                    assert(ord[i] < pi);
                } else if i == q {
                    let jj = j - 1;
                    assert(o2[j] == ord[jj]);
                    assert(monitor_before(monitors@[pi], pi, monitors@[ord[q as int]], ord[q as int]));
                    if jj > q {
                        lemma_monitor_before_transitive(
                            monitors@[pi], pi,
                            monitors@[ord[q as int]], ord[q as int],
                            monitors@[ord[jj]], ord[jj],
                        );
                    }
                } else {
                    let ii = if i < q { i } else { i - 1 };
                    let jj = if j < q { j } else { j - 1 };
                    assert(o2[i] == ord[ii] && o2[j] == ord[jj]);
                }
            }
            assert forall|i: int, j: int| 0 <= i < j < o2.len() implies #[trigger] o2[i] != #[trigger] o2[j] by {
                if i != q && j != q {
                    let ii = if i < q { i } else { i - 1 };
                    let jj = if j < q { j } else { j - 1 };
                    assert(o2[i] == ord[ii] && o2[j] == ord[jj]);
                } else if i == q {
                    assert(o2[j] == ord[j - 1]);
                } else {
                    assert(o2[i] == ord[i]);
                }
            }
            assert forall|i: int| 0 <= i < o2.len() implies 0 <= #[trigger] o2[i] < pi + 1 by {
                if i < q {
                    assert(o2[i] == ord[i]);
                } else if i > q {
                    assert(o2[i] == ord[i - 1]);
                }
            }
        }
        p = p + 1;
    }
    let ghost ord = order@.map_values(|x: usize| x as int);
    let mut ordered: Vec<MonitorInfo> = Vec::new();
    let mut i: usize = 0;
    while i < order.len()
        invariant
            n == monitors@.len(),
            order@.len() == n,
            ord == order@.map_values(|x: usize| x as int),
            is_monitor_order(monitors@, ord, n as int),
            0 <= i <= n,
            ordered@.len() == i,
            forall|k: int| 0 <= k < i ==> #[trigger] ordered@[k] == reindexed(monitors@[ord[k]], k),
        decreases n - i,
    {
        assert(0 <= ord[i as int] < n);
        let mut m = monitors[order[i]];
        m.index = i;
        ordered.push(m);
        i = i + 1;
    }
    ordered
}

/// Whether the monitor at position `a` comes before the one at `b`.
fn before_at(monitors: &Vec<MonitorInfo>, a: usize, b: usize) -> (r: bool)
    requires
        a < monitors@.len(),
        b < monitors@.len(),
    ensures
        r == monitor_before(monitors@[a as int], a as int, monitors@[b as int], b as int),
{
    let x = &monitors[a];
    let y = &monitors[b];
    (x.is_primary && !y.is_primary) || (x.is_primary == y.is_primary && (x.full_rect.0 < y.full_rect.0
        || (x.full_rect.0 == y.full_rect.0 && a < b)))
}

proof fn lemma_monitor_before_transitive(
    a: MonitorInfo,
    pa: int,
    b: MonitorInfo,
    pb: int,
    c: MonitorInfo,
    pc: int,
)
    requires
        monitor_before(a, pa, b, pb),
        monitor_before(b, pb, c, pc),
    ensures
        monitor_before(a, pa, c, pc),
{
}

// ───────────────────────── which windows are worth managing ─────────────────────────

/// Window classes of system UI (taskbars, desktop, tooltips, input methods)
/// that layouts never place.
pub open spec fn is_system_class(class_name: Seq<char>) -> bool {
    ||| class_name == "Shell_TrayWnd"@
    ||| class_name == "Shell_SecondaryTrayWnd"@
    ||| class_name == "Progman"@
    ||| class_name == "WorkerW"@
    ||| class_name == "Windows.UI.Core.CoreWindow"@
    ||| class_name == "tooltips_class32"@
    ||| class_name == "IME"@
    ||| class_name == "MSCTFIME UI"@
}

/// A window is worth managing when it is visible, has a title, is not system
/// UI or a tool window, and is top-level: an app window, or one without owner.
pub open spec fn is_manageable_spec(
    visible: bool,
    title: Seq<char>,
    class_name: Seq<char>,
    is_tool_window: bool,
    is_app_window: bool,
    has_owner: bool,
) -> bool {
    &&& visible
    &&& title.len() > 0
    &&& !is_system_class(class_name)
    &&& !is_tool_window
    &&& (is_app_window || !has_owner)
}

/// Decide whether a top-level window is worth managing, from what the window
/// system reports about it.
pub fn is_manageable_window(
    visible: bool,
    title: &str,
    class_name: &str,
    is_tool_window: bool,
    is_app_window: bool,
    has_owner: bool,
) -> (r: bool)
    ensures
        r == is_manageable_spec(visible, title@, class_name@, is_tool_window, is_app_window, has_owner),
{
    if !visible || title.is_empty() {
        return false;
    }
    let class = String::from_str(class_name);
    if class == String::from_str("Shell_TrayWnd") || class == String::from_str("Shell_SecondaryTrayWnd")
        || class == String::from_str("Progman") || class == String::from_str("WorkerW") || class
        == String::from_str("Windows.UI.Core.CoreWindow") || class == String::from_str(
        "tooltips_class32",
    ) || class == String::from_str("IME") || class == String::from_str("MSCTFIME UI") {
        return false;
    }
    if is_tool_window {
        return false;
    }
    is_app_window || !has_owner
}

/// The last component of a path whose components are separated by `\` or `/`
/// (empty when the path ends with a separator).
pub open spec fn file_name_spec(path: Seq<char>) -> Seq<char>
    decreases path.len(),
{
    if path.len() == 0 {
        Seq::empty()
    } else if path.last() == '\\' || path.last() == '/' {
        Seq::empty()
    } else {
        file_name_spec(path.drop_last()).push(path.last())
    }
}

/// The executable name of a process from the full path of its image.
pub fn file_name_of(path: &str) -> (name: String)
    ensures
        name@ == file_name_spec(path@),
{
    let cs = chars_of(path);
    let mut start: usize = 0;
    let mut i: usize = 0;
    while i < cs.len()
        invariant
            cs@ == path@,
            0 <= start <= i <= cs@.len(),
            file_name_spec(path@.take(i as int)) == path@.subrange(start as int, i as int),
        decreases cs@.len() - i,
    {
        assert(path@.take(i + 1).drop_last() =~= path@.take(i as int));
        if cs[i] == '\\' || cs[i] == '/' {
            start = i + 1;
            assert(path@.subrange(start as int, i + 1) =~= Seq::<char>::empty());
        } else {
            assert(path@.subrange(start as int, i + 1) =~= path@.subrange(start as int, i as int).push(
                cs@[i as int],
            ));
        }
        i = i + 1;
    }
    assert(path@.take(i as int) =~= path@);
    let mut name = String::new();
    let mut k: usize = start;
    while k < cs.len()
        invariant
            cs@ == path@,
            0 <= start <= k <= cs@.len(),
            name@ == path@.subrange(start as int, k as int),
        decreases cs@.len() - k,
    {
        push_char(&mut name, cs[k]);
        assert(path@.subrange(start as int, k + 1) =~= path@.subrange(start as int, k as int).push(
            cs@[k as int],
        ));
        k = k + 1;
    }
    name
}

/// How a rule is named in the log: its title text, else its process name, else `?`.
pub open spec fn rule_label(rule: MatchRule) -> Seq<char> {
    match rule.title_contains {
        Some(t) => t@,
        None => match rule.process_name {
            Some(p) => p@,
            None => "?"@,
        },
    }
}

/// The labels of `rules`, joined with `", "`, as the log names a column that
/// found no window.
pub fn describe_rules(rules: &Vec<MatchRule>) -> (desc: String)
    ensures
        desc@ == join_text(rules@.map_values(|r: MatchRule| rule_label(r)), ", "@),
{
    let ghost labels = rules@.map_values(|r: MatchRule| rule_label(r));
    let mut desc = String::new();
    let mut i: usize = 0;
    while i < rules.len()
        invariant
            labels == rules@.map_values(|r: MatchRule| rule_label(r)),
            0 <= i <= rules@.len(),
            desc@ == join_text(labels.take(i as int), ", "@),
        decreases rules@.len() - i,
    {
        assert(labels.take(i + 1).drop_last() =~= labels.take(i as int));
        if i > 0 {
            desc.append(", ");
        } else {
            assert(desc@ =~= Seq::<char>::empty());
        }
        let r = &rules[i];
        match &r.title_contains {
            Some(t) => desc.append(t.as_str()),
            None => match &r.process_name {
                Some(p) => desc.append(p.as_str()),
                None => desc.append("?"),
            },
        }
        assert(labels.take(i + 1).last() == labels[i as int]);
        if i == 0 {
            assert(desc@ =~= join_text(labels.take(1), ", "@));
        }
        i = i + 1;
    }
    assert(labels.take(i as int) =~= labels);
    desc
}

// ───────────────────────── invisible window borders ─────────────────────────

/// The rectangle `(x, y, width, height)` to request for a window so that its
/// visible frame lands on `slot`. `frame` is the visible frame and `window`
/// the full window rectangle, both as (left, top, right, bottom); the
/// difference between them is the invisible border on each side, which the
/// request grows by. Without both rectangles the slot is requested as it is.
pub open spec fn compensated_rect_spec(
    slot: LayoutSlot,
    frame: Option<(i32, i32, i32, i32)>,
    window: Option<(i32, i32, i32, i32)>,
) -> (int, int, int, int) {
    match (frame, window) {
        (Some(f), Some(w)) => {
            let left = f.0 - w.0;
            let top = f.1 - w.1;
            let right = w.2 - f.2;
            let bottom = w.3 - f.3;
            (slot.x - left, slot.y - top, slot.width + left + right, slot.height + top + bottom)
        },
        _ => (slot.x as int, slot.y as int, slot.width as int, slot.height as int),
    }
}

/// Every intermediate value of the border compensation fits in an `i32`.
pub open spec fn compensation_fits(
    slot: LayoutSlot,
    frame: Option<(i32, i32, i32, i32)>,
    window: Option<(i32, i32, i32, i32)>,
) -> bool {
    match (frame, window) {
        (Some(f), Some(w)) => {
            let left = f.0 - w.0;
            let top = f.1 - w.1;
            let right = w.2 - f.2;
            let bottom = w.3 - f.3;
            &&& fits_i32(left)
            &&& fits_i32(top)
            &&& fits_i32(right)
            &&& fits_i32(bottom)
            &&& fits_i32(slot.x - left)
            &&& fits_i32(slot.y - top)
            &&& fits_i32(slot.width + left)
            &&& fits_i32(slot.width + left + right)
            &&& fits_i32(slot.height + top)
            &&& fits_i32(slot.height + top + bottom)
        },
        _ => true,
    }
}

/// The window rectangle to request so that the visible frame lands on `slot`.
pub fn compensated_rect(
    slot: &LayoutSlot,
    frame: Option<(i32, i32, i32, i32)>,
    window: Option<(i32, i32, i32, i32)>,
) -> (r: (i32, i32, i32, i32))
    requires
        compensation_fits(*slot, frame, window),
    ensures
        (r.0 as int, r.1 as int, r.2 as int, r.3 as int) == compensated_rect_spec(*slot, frame, window),
{
    match (frame, window) {
        (Some(f), Some(w)) => {
            let border_left = f.0 - w.0;
            let border_top = f.1 - w.1;
            let border_right = w.2 - f.2;
            let border_bottom = w.3 - f.3;
            (
                slot.x - border_left,
                slot.y - border_top,
                slot.width + border_left + border_right,
                slot.height + border_top + border_bottom,
            )
        },
        _ => (slot.x, slot.y, slot.width, slot.height),
    }
}

/// The compensation puts the visible frame on the slot: a window requested at
/// the returned rectangle, keeping the invisible borders it had (the gaps
/// between `frame` and `window` on each side), shows its frame exactly on
/// `slot`. Without both rectangles the slot itself is requested.
pub proof fn law_frame_lands_on_the_slot(
    slot: LayoutSlot,
    frame: Option<(i32, i32, i32, i32)>,
    window: Option<(i32, i32, i32, i32)>,
)
    ensures
        ({
            let r = compensated_rect_spec(slot, frame, window);
            match (frame, window) {
                (Some(f), Some(w)) => {
                    &&& r.0 + (f.0 - w.0) == slot.x
                    &&& r.1 + (f.1 - w.1) == slot.y
                    &&& (r.0 + r.2) - (w.2 - f.2) == slot.x + slot.width
                    &&& (r.1 + r.3) - (w.3 - f.3) == slot.y + slot.height
                },
                _ => r == (slot.x as int, slot.y as int, slot.width as int, slot.height as int),
            }
        }),
{
}

fn fits64(v: i64) -> (r: bool)
    ensures
        r == fits_i32(v as int),
{
    -2147483648 <= v && v <= 2147483647
}

/// Whether `compensated_rect` can compute the rectangle without overflowing
/// (its precondition).
pub fn compensation_in_range(
    slot: &LayoutSlot,
    frame: Option<(i32, i32, i32, i32)>,
    window: Option<(i32, i32, i32, i32)>,
) -> (ok: bool)
    ensures
        ok == compensation_fits(*slot, frame, window),
{
    match (frame, window) {
        (Some(f), Some(w)) => {
            let left = f.0 as i64 - w.0 as i64;
            let top = f.1 as i64 - w.1 as i64;
            let right = w.2 as i64 - f.2 as i64;
            let bottom = w.3 as i64 - f.3 as i64;
            let sx = slot.x as i64;
            let sy = slot.y as i64;
            let sw = slot.width as i64;
            let sh = slot.height as i64;
            fits64(left) && fits64(top) && fits64(right) && fits64(bottom) && fits64(sx - left) && fits64(
                sy - top,
            ) && fits64(sw + left) && fits64(sw + left + right) && fits64(sh + top) && fits64(
                sh + top + bottom,
            )
        },
        _ => true,
    }
}

// ───────────────────────── applying a layout ─────────────────────────

/// What became of one column when a layout was applied.
#[derive(Debug)]
pub enum ColumnPlacement {
    /// The column has no match rules: it is skipped.
    NoRules,
    /// The windows the column claimed, in match order, all moved to its slot.
    Placed(Vec<WindowInfo>),
    /// No window matched the column's rules.
    NoMatch,
}

/// Everything applying a layout decides: the monitor, the slots, what each
/// column placed, and the order in which to raise the placed windows.
#[derive(Debug)]
pub struct LayoutPlan {
    pub monitor_index: usize,
    /// False when the layout asked for a monitor that does not exist and the
    /// primary monitor is used instead.
    pub monitor_found: bool,
    pub slots: Vec<LayoutSlot>,
    pub columns: Vec<ColumnPlacement>,
    /// Placed windows in the order to raise them: column by column, and within
    /// a column the last claimed first, so that the topmost stays on top.
    pub raise_order: Vec<isize>,
    /// Raise the placed windows in `raise_order`: only for layouts with an
    /// absolute column, where windows can overlap.
    pub restack: bool,
}

/// The result of applying a layout.
#[derive(Debug)]
pub enum LayoutOutcome {
    NoMonitors,
    NoColumns { monitor_index: usize, monitor_found: bool },
    Planned(LayoutPlan),
}

/// The monitor a layout lands on: the one it asks for, else the primary (0).
pub open spec fn chosen_monitor(requested: usize, count: nat) -> int {
    if requested < count {
        requested as int
    } else {
        0
    }
}

/// Per column, the windows it claims from what earlier columns left (none for
/// a column without rules), and the windows left at the end.
pub open spec fn plan_claims(pool: Seq<WindowInfo>, cols: Seq<Column>) -> (Seq<Seq<WindowInfo>>, Seq<WindowInfo>)
    decreases cols.len(),
{
    if cols.len() == 0 {
        (Seq::empty(), pool)
    } else {
        let (claims, rest) = plan_claims(pool, cols.drop_last());
        let c = cols.last();
        if c.match_rules@.len() == 0 {
            (claims.push(Seq::empty()), rest)
        } else {
            let r = claim_spec(rest, c);
            (claims.push(r.0), r.1)
        }
    }
}

/// `p` reports the column `col` that claimed `claimed`.
pub open spec fn placement_is(p: ColumnPlacement, col: Column, claimed: Seq<WindowInfo>) -> bool {
    if col.match_rules@.len() == 0 {
        p is NoRules
    } else if claimed.len() > 0 {
        p matches ColumnPlacement::Placed(v) && v@ == claimed
    } else {
        p is NoMatch
    }
}

/// Handles of the claimed windows, column by column, each column's windows in
/// reverse claim order.
pub open spec fn raise_order_spec(claims: Seq<Seq<WindowInfo>>) -> Seq<isize>
    decreases claims.len(),
{
    if claims.len() == 0 {
        Seq::empty()
    } else {
        raise_order_spec(claims.drop_last()) + claims.last().reverse().map_values(
            |w: WindowInfo| w.hwnd,
        )
    }
}

pub open spec fn has_absolute_column(cols: Seq<Column>) -> bool {
    exists|i: int| 0 <= i < cols.len() && (#[trigger] cols[i]).x_percent is Some
}

/// `plan` is what applying `layout` with `gap` on `monitors` to the windows
/// `windows` decides.
pub open spec fn plan_is(
    plan: LayoutPlan,
    layout: Layout,
    gap: i32,
    monitors: Seq<MonitorInfo>,
    windows: Seq<WindowInfo>,
) -> bool {
    let cols = layout.columns@;
    let m = chosen_monitor(layout.monitor, monitors.len());
    let claims = plan_claims(windows, cols).0;
    &&& plan.monitor_index == m
    &&& plan.monitor_found == (layout.monitor < monitors.len())
    &&& plan.slots@.len() == cols.len()
    &&& forall|i: int|
        0 <= i < cols.len() ==> slot_is(#[trigger] plan.slots@[i], cols, i, monitors[m].work_area, gap)
    &&& plan.columns@.len() == cols.len()
    &&& forall|i: int| 0 <= i < cols.len() ==> placement_is(#[trigger] plan.columns@[i], cols[i], claims[i])
    &&& plan.raise_order@ == raise_order_spec(claims)
    &&& plan.restack == has_absolute_column(cols)
}

proof fn lemma_plan_claims_len(pool: Seq<WindowInfo>, cols: Seq<Column>)
    ensures
        plan_claims(pool, cols).0.len() == cols.len(),
    decreases cols.len(),
{
    if cols.len() > 0 {
        lemma_plan_claims_len(pool, cols.drop_last());
    }
}

/// Apply a layout: choose the monitor, compute the slots, and match windows to
/// the columns, each column claiming from the windows earlier columns left.
/// Nothing is moved here: the plan says what to move where and in which order
/// to raise the windows.
pub fn apply_layout(layout: &Layout, gap: i32, monitors: &[MonitorInfo], windows: Vec<WindowInfo>) -> (outcome: LayoutOutcome)
    requires
        monitors@.len() > 0 && layout.columns@.len() > 0 ==> slot_arithmetic_fits(
            layout.columns@,
            monitors@[chosen_monitor(layout.monitor, monitors@.len())].work_area,
            gap,
        ),
    ensures
        monitors@.len() == 0 ==> outcome is NoMonitors,
        monitors@.len() > 0 && layout.columns@.len() == 0 ==> outcome == (LayoutOutcome::NoColumns {
            monitor_index: chosen_monitor(layout.monitor, monitors@.len()) as usize,
            monitor_found: layout.monitor < monitors@.len(),
        }),
        monitors@.len() > 0 && layout.columns@.len() > 0 ==> (outcome matches LayoutOutcome::Planned(plan)
            && plan_is(plan, *layout, gap, monitors@, windows@)),
{
    if monitors.len() == 0 {
        return LayoutOutcome::NoMonitors;
    }
    let monitor_found = layout.monitor < monitors.len();
    let monitor_index = if monitor_found {
        layout.monitor
    } else {
        0
    };
    let monitor = &monitors[monitor_index];
    let cols = &layout.columns;
    let slots = calculate_slots(cols.as_slice(), monitor, gap);
    if slots.len() == 0 {
        return LayoutOutcome::NoColumns { monitor_index, monitor_found };
    }

    let ghost start = windows@;
    let mut available = windows;
    let mut columns: Vec<ColumnPlacement> = Vec::new();
    let mut placed: Vec<isize> = Vec::new();
    let ghost mut claims: Seq<Seq<WindowInfo>> = Seq::empty();
    let mut i: usize = 0;
    while i < cols.len()
        invariant
            0 <= i <= cols@.len(),
            (claims, available@) == plan_claims(start, cols@.take(i as int)),
            claims.len() == i,
            columns@.len() == i,
            forall|j: int| 0 <= j < i ==> placement_is(#[trigger] columns@[j], cols@[j], claims[j]),
            placed@ == raise_order_spec(claims),
        decreases cols@.len() - i,
    {
        assert(cols@.take(i + 1).drop_last() =~= cols@.take(i as int));
        let col = &cols[i];
        let ghost before = claims;
        if col.match_rules.len() == 0 {
            columns.push(ColumnPlacement::NoRules);
            proof {
                claims = claims.push(Seq::empty());
                assert(claims.drop_last() =~= before);
                assert(Seq::<WindowInfo>::empty().reverse().map_values(|w: WindowInfo| w.hwnd) =~= Seq::<isize>::empty());
                assert(placed@ =~= raise_order_spec(before) + Seq::<isize>::empty());
            }
        } else {
            let claimed = claim_windows(&mut available, col);
            proof {
                claims = claims.push(claimed@);
                assert(claims.drop_last() =~= before);
            }
            let ghost base = placed@;
            let mut j: usize = claimed.len();
            while j > 0
                invariant
                    0 <= j <= claimed@.len(),
                    placed@ == base + claimed@.subrange(j as int, claimed@.len() as int).reverse().map_values(
                        |w: WindowInfo| w.hwnd,
                    ),
                decreases j,
            {
                placed.push(claimed[j - 1].hwnd);
                assert(claimed@.subrange(j - 1, claimed@.len() as int).reverse() =~= claimed@.subrange(
                    j as int,
                    claimed@.len() as int,
                ).reverse().push(claimed@[j - 1]));
                j = j - 1;
            }
            assert(claimed@.subrange(0, claimed@.len() as int) =~= claimed@);
            if claimed.len() > 0 {
                columns.push(ColumnPlacement::Placed(claimed));
            } else {
                columns.push(ColumnPlacement::NoMatch);
            }
        }
        assert(forall|j: int| 0 <= j < i ==> claims[j] == before[j]);
        i = i + 1;
    }
    assert(cols@.take(i as int) =~= cols@);

    // A purely tiled layout has nothing overlapping, so stacking is
    // unobservable; once columns are placed absolutely, z-order is part of the
    // layout.
    let mut restack = false;
    let mut k: usize = 0;
    while k < cols.len()
        invariant
            0 <= k <= cols@.len(),
            restack == exists|q: int| 0 <= q < k && (#[trigger] cols@[q]).x_percent is Some,
        decreases cols@.len() - k,
    {
        if cols[k].x_percent.is_some() {
            restack = true;
        }
        k = k + 1;
    }
    LayoutOutcome::Planned(
        LayoutPlan { monitor_index, monitor_found, slots, columns, raise_order: placed, restack },
    )
}

/// Whether `apply_layout` can compute the slots of `layout` without
/// overflowing the pixel arithmetic (its precondition).
pub fn layout_fits(layout: &Layout, gap: i32, monitors: &[MonitorInfo]) -> (ok: bool)
    ensures
        ok == (monitors@.len() > 0 && layout.columns@.len() > 0 ==> slot_arithmetic_fits(
            layout.columns@,
            monitors@[chosen_monitor(layout.monitor, monitors@.len())].work_area,
            gap,
        )),
{
    if monitors.len() == 0 {
        return true;
    }
    let index = if layout.monitor < monitors.len() {
        layout.monitor
    } else {
        0
    };
    slots_fit(layout.columns.as_slice(), &monitors[index], gap)
}

// ───────────────────────── laws of applying a layout ─────────────────────────

/// All windows claimed, column after column.
pub open spec fn all_claimed(claims: Seq<Seq<WindowInfo>>) -> Seq<WindowInfo>
    decreases claims.len(),
{
    if claims.len() == 0 {
        Seq::empty()
    } else {
        all_claimed(claims.drop_last()) + claims.last()
    }
}

/// Applying a layout places each window at most once: the windows claimed by
/// all columns together with the windows left over are exactly the windows
/// there were.
pub proof fn law_layout_places_each_window_at_most_once(pool: Seq<WindowInfo>, cols: Seq<Column>)
    ensures
        (all_claimed(plan_claims(pool, cols).0) + plan_claims(pool, cols).1).to_multiset()
            =~= pool.to_multiset(),
    decreases cols.len(),
{
    broadcast use vstd::seq_lib::lemma_multiset_commutative;

    if cols.len() == 0 {
        assert(all_claimed(Seq::<Seq<WindowInfo>>::empty()) + pool =~= pool);
    } else {
        law_layout_places_each_window_at_most_once(pool, cols.drop_last());
        let (claims, rest) = plan_claims(pool, cols.drop_last());
        let c = cols.last();
        if c.match_rules@.len() == 0 {
            assert(claims.push(Seq::empty()).drop_last() =~= claims);
            assert(all_claimed(claims.push(Seq::empty())) =~= all_claimed(claims));
        } else {
            let r = claim_spec(rest, c);
            law_claiming_conserves_windows(rest, c);
            assert(claims.push(r.0).drop_last() =~= claims);
            assert(all_claimed(claims.push(r.0)) + r.1 =~= all_claimed(claims) + (r.0 + r.1));
        }
    }
}

/// The windows a column claims come from what the earlier columns left.
proof fn lemma_plan_claims_prefix(pool: Seq<WindowInfo>, cols: Seq<Column>, k: int)
    requires
        0 <= k < cols.len(),
    ensures
        plan_claims(pool, cols).0.len() == cols.len(),
        plan_claims(pool, cols).0[k] == plan_claims(pool, cols.take(k + 1)).0[k],
        plan_claims(pool, cols.take(k + 1)).0[k] == if cols[k].match_rules@.len() == 0 {
            Seq::empty()
        } else {
            claim_spec(plan_claims(pool, cols.take(k)).1, cols[k]).0
        },
        plan_claims(pool, cols.take(k + 1)).1 == if cols[k].match_rules@.len() == 0 {
            plan_claims(pool, cols.take(k)).1
        } else {
            claim_spec(plan_claims(pool, cols.take(k)).1, cols[k]).1
        },
    decreases cols.len(),
{
    lemma_plan_claims_len(pool, cols);
    assert(cols.take(k + 1).drop_last() =~= cols.take(k));
    lemma_plan_claims_len(pool, cols.take(k));
    if k + 1 == cols.len() {
        assert(cols.take(k + 1) =~= cols);
    } else {
        assert(cols.take(k + 1) =~= cols.drop_last().take(k + 1));
        assert(cols.take(k) =~= cols.drop_last().take(k));
        lemma_plan_claims_prefix(pool, cols.drop_last(), k);
        lemma_plan_claims_len(pool, cols.drop_last());
    }
}

/// Windows left after a claim were in the pool before it.
proof fn lemma_claim_keeps_membership(pool: Seq<WindowInfo>, col: Column, w: WindowInfo)
    requires
        claim_spec(pool, col).1.contains(w),
    ensures
        pool.contains(w),
{
    broadcast use vstd::seq_lib::group_to_multiset_ensures, vstd::seq_lib::lemma_multiset_commutative;

    law_claiming_conserves_windows(pool, col);
    let r = claim_spec(pool, col);
    assert((r.0 + r.1).to_multiset().count(w) >= r.1.to_multiset().count(w));
}

/// Windows left after column `b` were already left after column `a`, for `a <= b`.
proof fn lemma_later_pools_shrink(pool: Seq<WindowInfo>, cols: Seq<Column>, a: int, b: int, w: WindowInfo)
    requires
        0 <= a <= b <= cols.len(),
        plan_claims(pool, cols.take(b)).1.contains(w),
    ensures
        plan_claims(pool, cols.take(a)).1.contains(w),
    decreases b - a,
{
    if b > a {
        lemma_plan_claims_prefix(pool, cols, b - 1);
        if cols[b - 1].match_rules@.len() != 0 {
            lemma_claim_keeps_membership(plan_claims(pool, cols.take(b - 1)).1, cols[b - 1], w);
        }
        lemma_later_pools_shrink(pool, cols, a, b - 1, w);
    }
}

/// When no window of `pool` matches any of `rules`, nothing is chosen.
proof fn lemma_no_match_no_choice(pool: Seq<WindowInfo>, rules: Seq<MatchRule>, r: int)
    requires
        0 <= r,
        forall|q: int, j: int|
            0 <= q < rules.len() && 0 <= j < pool.len() ==> !rule_matches_spec(
                #[trigger] rules[q],
                #[trigger] pool[j],
            ),
    ensures
        match_choice_from(pool, rules, r) == -1,
    decreases rules.len() - r,
{
    if r < rules.len() {
        lemma_first_match(pool, rules[r], true);
        lemma_first_match(pool, rules[r], false);
        if first_match(pool, rules[r], true) >= 0 {
            let k = first_match(pool, rules[r], true);
            assert(rule_matches_spec(rules[r], pool[k]));
        }
        if first_match(pool, rules[r], false) >= 0 {
            let k = first_match(pool, rules[r], false);
            assert(rule_matches_spec(rules[r], pool[k]));
        }
        lemma_no_match_no_choice(pool, rules, r + 1);
    }
}

/// A `match_all` column leaves nothing for a later column with the same rules:
/// that column claims no window.
pub proof fn law_match_all_leaves_nothing_for_later_duplicate(
    pool: Seq<WindowInfo>,
    cols: Seq<Column>,
    i: int,
    j: int,
)
    requires
        0 <= i < j < cols.len(),
        cols[i].match_all,
        cols[j].match_rules@ == cols[i].match_rules@,
    ensures
        plan_claims(pool, cols).0[j].len() == 0,
{
    let rules = cols[i].match_rules@;
    lemma_plan_claims_prefix(pool, cols, i);
    lemma_plan_claims_prefix(pool, cols, j);
    if rules.len() > 0 {
        let after_i = plan_claims(pool, cols.take(i + 1)).1;
        law_match_all_leaves_no_match(plan_claims(pool, cols.take(i)).1, cols[i]);
        let before_j = plan_claims(pool, cols.take(j)).1;
        assert forall|q: int, k: int|
            0 <= q < rules.len() && 0 <= k < before_j.len() implies !rule_matches_spec(
            #[trigger] rules[q],
            #[trigger] before_j[k],
        ) by {
            assert(before_j.contains(before_j[k]));
            lemma_later_pools_shrink(pool, cols, i + 1, j, before_j[k]);
            let m = choose|m: int| 0 <= m < after_i.len() && after_i[m] == before_j[k];
            assert(!rule_matches_spec(cols[i].match_rules@[q], after_i[m]));
        }
        lemma_no_match_no_choice(before_j, rules, 0);
        if cols[j].match_all {
            assert(claim_all(before_j, rules).0 =~= Seq::<WindowInfo>::empty());
        }
    }
}

} // verus!
