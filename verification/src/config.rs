//! The configuration model: settings, layouts, columns and match rules.
use vstd::prelude::*;

use crate::geometry::tiled_count;
use crate::text::{
    decimal, decimal_string, lemma_sorted_text_unique, lex_lt, sort_strings, sorted_text, texts,
};

verus! {

/// One rule for finding a window. `title_contains` and `process_name` are
/// case-insensitive substring checks; a rule that names both requires both.
#[derive(Debug)]
pub struct MatchRule {
    pub title_contains: Option<String>,
    pub process_name: Option<String>,
}

/// One slot of a layout.
#[derive(Debug)]
pub struct Column {
    /// Width as a literal percentage of the work area; never normalized.
    pub width_percent: u32,
    /// Optional absolute left edge, as a percentage of the work area.
    ///
    /// When set, the column is positioned at that offset instead of flowing
    /// after its predecessor, which is what makes overlap expressible. Absolute
    /// columns sit outside the tiling flow entirely: they neither consume gaps
    /// nor shift their neighbours.
    pub x_percent: Option<u32>,
    /// When set, the column claims every matching window instead of only the
    /// topmost one, stacking them all in its slot.
    pub match_all: bool,
    /// Rules tried in order; the first rule that matches some window wins.
    pub match_rules: Vec<MatchRule>,
}

/// A named arrangement of columns on one monitor.
#[derive(Debug)]
pub struct Layout {
    pub hotkey: Option<String>,
    /// 0 is the primary monitor, 1 the next one, and so on.
    pub monitor: usize,
    pub columns: Vec<Column>,
}

/// Global settings.
#[derive(Debug)]
pub struct Settings {
    /// Pixel spacing between windows and around the work area.
    pub gap: i32,
}

/// The whole configuration: settings plus every layout under its name.
#[derive(Debug)]
pub struct Config {
    pub settings: Settings,
    pub layouts: Vec<(String, Layout)>,
}

/// No two layouts share a name: a configuration file keys its layouts by name.
pub open spec fn names_distinct(layouts: Seq<(String, Layout)>) -> bool {
    forall|i: int, j: int|
        0 <= i < j < layouts.len() ==> (#[trigger] layouts[i]).0@ != (#[trigger] layouts[j]).0@
}

impl Config {
    /// A configuration names each layout once.
    pub open spec fn well_formed(&self) -> bool {
        names_distinct(self.layouts@)
    }

    /// Whether no two layouts share a name.
    pub fn names_are_distinct(&self) -> (ok: bool)
        ensures
            ok == self.well_formed(),
    {
        let mut i: usize = 0;
        while i < self.layouts.len()
            invariant
                0 <= i <= self.layouts@.len(),
                forall|a: int, b: int|
                    0 <= a < b < self.layouts@.len() && a < i ==> (#[trigger] self.layouts@[a]).0@
                        != (#[trigger] self.layouts@[b]).0@,
            decreases self.layouts@.len() - i,
        {
            let mut j: usize = i + 1;
            while j < self.layouts.len()
                invariant
                    0 <= i < self.layouts@.len(),
                    i + 1 <= j <= self.layouts@.len(),
                    forall|a: int, b: int|
                        0 <= a < b < self.layouts@.len() && a < i ==> (#[trigger] self.layouts@[a]).0@
                            != (#[trigger] self.layouts@[b]).0@,
                    forall|b: int| i < b < j ==> self.layouts@[i as int].0@ != (#[trigger] self.layouts@[b]).0@,
                decreases self.layouts@.len() - j,
            {
                if self.layouts[i].0 == self.layouts[j].0 {
                    assert(self.layouts@[i as int].0@ == self.layouts@[j as int].0@);
                    return false;
                }
                j = j + 1;
            }
            i = i + 1;
        }
        true
    }
}

/// Sum of `width_percent` over the tiled columns (those without `x_percent`).
pub open spec fn tiled_percent_sum(cols: Seq<Column>) -> int
    decreases cols.len(),
{
    if cols.len() == 0 {
        0
    } else {
        tiled_percent_sum(cols.drop_last()) + if cols.last().x_percent is None {
            cols.last().width_percent as int
        } else {
            0
        }
    }
}

/// An absolute column ends at or before the right edge; a tiled one always passes.
pub open spec fn absolute_column_fits(c: Column) -> bool {
    match c.x_percent {
        Some(x) => x + c.width_percent <= 100,
        None => true,
    }
}

/// The columns stay on screen: the tiled widths sum to at most 100 and every
/// absolute column ends at or before 100.
pub open spec fn columns_fit_on_screen(cols: Seq<Column>) -> bool {
    &&& tiled_percent_sum(cols) <= 100
    &&& forall|i: int| 0 <= i < cols.len() ==> absolute_column_fits(#[trigger] cols[i])
}

// ───────────────────────── validation: specification ─────────────────────────

pub open spec fn no_columns_warning(name: Seq<char>) -> Seq<char> {
    "Layout '"@ + name
        + "' has no columns, so its hotkey will do nothing. Note that [[layouts.<name>.columns]] appends to <name> no matter where the block sits in the file - check whether the column blocks you meant for this layout are naming a different one."@
}

pub open spec fn off_screen_column_warning(name: Seq<char>, i: nat, x: nat, width: nat, right_edge: nat) -> Seq<char> {
    "Layout '"@ + name + "' column "@ + decimal(i) + " sits at x_percent "@ + decimal(x)
        + " with width_percent "@ + decimal(width) + ", so it ends at "@ + decimal(right_edge)
        + "% and runs off the right edge of the screen. Keep x_percent + width_percent at or under 100."@
}

pub open spec fn overfull_warning(name: Seq<char>, count: nat, sum: nat) -> Seq<char> {
    "Layout '"@ + name + "' has "@ + decimal(count) + " tiled column(s) whose width_percent sums to "@
        + decimal(sum)
        + "%. Tiled columns are laid out left to right, never stacked, so anything over 100% runs off the right edge of the screen instead of overlapping - the last one ends up with a negative width. Give a column an x_percent if you actually want it to overlap, and if you pasted a column block in, check that it names the right layout."@
}

/// `n` clamped to `u32::MAX`, as a saturating `u32` sum reports it.
pub open spec fn saturated(n: int) -> nat {
    if n > u32::MAX {
        u32::MAX as nat
    } else {
        n as nat
    }
}

/// Warnings for the absolute columns among the first `upto` columns, in
/// column order: one for each whose `x_percent + width_percent` exceeds 100.
pub open spec fn off_screen_warnings(name: Seq<char>, cols: Seq<Column>, upto: int) -> Seq<Seq<char>>
    decreases upto,
{
    if upto <= 0 {
        Seq::empty()
    } else {
        let i = upto - 1;
        off_screen_warnings(name, cols, i) + match cols[i].x_percent {
            Some(x) => if x + cols[i].width_percent > 100 {
                seq![
                    off_screen_column_warning(
                        name,
                        i as nat,
                        x as nat,
                        cols[i].width_percent as nat,
                        saturated(x + cols[i].width_percent),
                    ),
                ]
            } else {
                Seq::empty()
            },
            None => Seq::empty(),
        }
    }
}

/// Every on-screen problem of one layout: a layout without columns; each
/// absolute column that runs past the right edge; tiled widths summing over
/// 100. Widths summing under 100 are no problem.
pub open spec fn layout_warnings_spec(name: Seq<char>, cols: Seq<Column>) -> Seq<Seq<char>> {
    if cols.len() == 0 {
        seq![no_columns_warning(name)]
    } else {
        off_screen_warnings(name, cols, cols.len() as int) + if tiled_percent_sum(cols) > 100 {
            seq![overfull_warning(name, tiled_count(cols), saturated(tiled_percent_sum(cols)))]
        } else {
            Seq::empty()
        }
    }
}

/// The warnings of every layout, layout after layout.
pub open spec fn all_warnings(layouts: Seq<(String, Layout)>) -> Seq<Seq<char>>
    decreases layouts.len(),
{
    if layouts.len() == 0 {
        Seq::empty()
    } else {
        all_warnings(layouts.drop_last()) + layout_warnings_spec(
            layouts.last().0@,
            layouts.last().1.columns@,
        )
    }
}

/// A layout stays on screen: it has columns and they fit.
pub open spec fn layout_is_sound(layout: Layout) -> bool {
    layout.columns@.len() > 0 && columns_fit_on_screen(layout.columns@)
}

// ───────────────────────── validation: implementation ─────────────────────────

impl Config {
    /// Every on-screen problem found in one layout. A layout can have more than
    /// one, so this returns a list rather than the first hit.
    pub fn layout_warnings(name: &str, layout: &Layout) -> (warnings: Vec<String>)
        ensures
            texts(warnings@) == layout_warnings_spec(name@, layout.columns@),
    {
        let cols = &layout.columns;
        if cols.len() == 0 {
            let mut w = String::from_str("Layout '");
            w.append(name);
            w.append(
                "' has no columns, so its hotkey will do nothing. Note that [[layouts.<name>.columns]] appends to <name> no matter where the block sits in the file - check whether the column blocks you meant for this layout are naming a different one.",
            );
            let mut warnings: Vec<String> = Vec::new();
            warnings.push(w);
            assert(texts(warnings@) =~= layout_warnings_spec(name@, layout.columns@));
            return warnings;
        }
        let mut warnings: Vec<String> = Vec::new();

        // Absolutely positioned columns stand alone: each one either fits within
        // the work area or hangs off the right edge, regardless of its siblings.
        let mut i: usize = 0;
        while i < cols.len()
            invariant
                0 <= i <= cols@.len(),
                texts(warnings@) == off_screen_warnings(name@, cols@, i as int),
            decreases cols@.len() - i,
        {
            let ghost before = warnings@;
            let col = &cols[i];
            if let Some(x) = col.x_percent {
                // saturating: a nonsense value shouldn't panic a debug build.
                let right_edge = x.saturating_add(col.width_percent);
                if right_edge > 100 {
                    let mut w = String::from_str("Layout '");
                    w.append(name);
                    w.append("' column ");
                    let s = decimal_string(i as u64);
                    w.append(s.as_str());
                    w.append(" sits at x_percent ");
                    let s = decimal_string(x as u64);
                    w.append(s.as_str());
                    w.append(" with width_percent ");
                    let s = decimal_string(col.width_percent as u64);
                    w.append(s.as_str());
                    w.append(", so it ends at ");
                    let s = decimal_string(right_edge as u64);
                    w.append(s.as_str());
                    w.append(
                        "% and runs off the right edge of the screen. Keep x_percent + width_percent at or under 100.",
                    );
                    warnings.push(w);
                    assert(texts(warnings@) =~= texts(before).push(w@));
                }
            }
            assert(texts(warnings@) =~= off_screen_warnings(name@, cols@, i + 1));
            i = i + 1;
        }

        // Only the tiled columns share the row between them; absolute ones sit
        // outside the flow and must not count toward the total.
        let mut count: usize = 0;
        let mut sum: u32 = 0;
        let mut j: usize = 0;
        while j < cols.len()
            invariant
                0 <= j <= cols@.len(),
                count == tiled_count(cols@.take(j as int)),
                count <= j,
                sum == saturated(tiled_percent_sum(cols@.take(j as int))),
                tiled_percent_sum(cols@.take(j as int)) >= 0,
            decreases cols@.len() - j,
        {
            assert(cols@.take(j + 1).drop_last() =~= cols@.take(j as int));
            if cols[j].x_percent.is_none() {
                count = count + 1;
                sum = sum.saturating_add(cols[j].width_percent);
            }
            j = j + 1;
        }
        assert(cols@.take(j as int) =~= cols@);
        if sum > 100 {
            let ghost before = warnings@;
            let mut w = String::from_str("Layout '");
            w.append(name);
            w.append("' has ");
            let s = decimal_string(count as u64);
            w.append(s.as_str());
            w.append(" tiled column(s) whose width_percent sums to ");
            let s = decimal_string(sum as u64);
            w.append(s.as_str());
            w.append(
                "%. Tiled columns are laid out left to right, never stacked, so anything over 100% runs off the right edge of the screen instead of overlapping - the last one ends up with a negative width. Give a column an x_percent if you actually want it to overlap, and if you pasted a column block in, check that it names the right layout.",
            );
            warnings.push(w);
            assert(texts(warnings@) =~= texts(before).push(w@));
        }
        assert(texts(warnings@) =~= layout_warnings_spec(name@, layout.columns@));
        warnings
    }
}

proof fn lemma_off_screen_empty(name: Seq<char>, cols: Seq<Column>, upto: int)
    requires
        0 <= upto <= cols.len(),
    ensures
        off_screen_warnings(name, cols, upto).len() == 0 <==> forall|i: int|
            0 <= i < upto ==> absolute_column_fits(#[trigger] cols[i]),
    decreases upto,
{
    if upto > 0 {
        lemma_off_screen_empty(name, cols, upto - 1);
    }
}

/// A layout draws no warning exactly when it has columns and they stay on screen.
proof fn lemma_layout_warnings_empty(name: Seq<char>, layout: Layout)
    ensures
        layout_warnings_spec(name, layout.columns@).len() == 0 <==> layout_is_sound(layout),
{
    let cols = layout.columns@;
    if cols.len() > 0 {
        lemma_off_screen_empty(name, cols, cols.len() as int);
    }
}

proof fn lemma_all_warnings_empty(layouts: Seq<(String, Layout)>)
    ensures
        all_warnings(layouts).len() == 0 <==> forall|k: int|
            0 <= k < layouts.len() ==> layout_is_sound(#[trigger] layouts[k].1),
    decreases layouts.len(),
{
    if layouts.len() > 0 {
        lemma_all_warnings_empty(layouts.drop_last());
        lemma_layout_warnings_empty(layouts.last().0@, layouts.last().1);
        assert forall|k: int| 0 <= k < layouts.len() - 1 implies #[trigger] layouts[k] == layouts.drop_last()[k] by {}
    }
}

impl Config {
    /// Sanity-check every layout, returning human-readable warnings sorted (so
    /// that the output is stable however the layouts were read).
    ///
    /// The only rule that matters is "stays on screen", never "sums to 100".
    /// Tiled widths summing UNDER 100 are fine — the last tiled column stretches
    /// to absorb the slack. Over 100 runs later columns off the right edge.
    ///
    /// These are warnings, never errors: one bad layout must not lock the user
    /// out of every other layout.
    pub fn validate(&self) -> (warnings: Vec<String>)
        ensures
            sorted_text(texts(warnings@)),
            texts(warnings@).to_multiset() =~= all_warnings(self.layouts@).to_multiset(),
            warnings@.len() == 0 <==> forall|k: int|
                0 <= k < self.layouts@.len() ==> layout_is_sound(#[trigger] self.layouts@[k].1),
    {
        broadcast use vstd::seq_lib::group_to_multiset_ensures;

        let mut all: Vec<String> = Vec::new();
        let mut k: usize = 0;
        while k < self.layouts.len()
            invariant
                0 <= k <= self.layouts@.len(),
                texts(all@) == all_warnings(self.layouts@.take(k as int)),
            decreases self.layouts@.len() - k,
        {
            let (name, layout) = &self.layouts[k];
            let mut more = Config::layout_warnings(name.as_str(), layout);
            let ghost before = all@;
            all.append(&mut more);
            assert(self.layouts@.take(k + 1).drop_last() =~= self.layouts@.take(k as int));
            assert(texts(all@) =~= texts(before) + layout_warnings_spec(name@, layout.columns@));
            k = k + 1;
        }
        assert(self.layouts@.take(k as int) =~= self.layouts@);
        let warnings = sort_strings(all);
        proof {
            lemma_all_warnings_empty(self.layouts@);
            assert(texts(warnings@).len() == warnings@.len());
            assert(texts(all@).len() == all@.len());
            assert(texts(warnings@).to_multiset().len() == texts(warnings@).len());
            assert(texts(all@).to_multiset().len() == texts(all@).len());
        }
        warnings
    }
}

proof fn lemma_all_warnings_concat(a: Seq<(String, Layout)>, b: Seq<(String, Layout)>)
    ensures
        all_warnings(a + b) == all_warnings(a) + all_warnings(b),
    decreases b.len(),
{
    if b.len() == 0 {
        assert(a + b =~= a);
        assert(all_warnings(a) + all_warnings(b) =~= all_warnings(a));
    } else {
        lemma_all_warnings_concat(a, b.drop_last());
        assert((a + b).drop_last() =~= a + b.drop_last());
        assert((a + b).last() == b.last());
        let lw = layout_warnings_spec(b.last().0@, b.last().1.columns@);
        assert(all_warnings(a + b) == all_warnings(a + b.drop_last()) + lw);
        assert(all_warnings(a) + all_warnings(b) =~= all_warnings(a) + all_warnings(b.drop_last()) + lw);
    }
}

/// Taking one layout out of a list takes exactly its warnings out of the
/// list's warnings.
proof fn lemma_all_warnings_remove(s: Seq<(String, Layout)>, i: int)
    requires
        0 <= i < s.len(),
    ensures
        all_warnings(s).to_multiset() == all_warnings(s.remove(i)).to_multiset().add(
            layout_warnings_spec(s[i].0@, s[i].1.columns@).to_multiset(),
        ),
{
    broadcast use vstd::seq_lib::lemma_multiset_commutative;

    let front = s.take(i);
    let one = seq![s[i]];
    let back = s.skip(i + 1);
    assert(s =~= front + one + back);
    assert(s.remove(i) =~= front + back);
    let lw = layout_warnings_spec(s[i].0@, s[i].1.columns@);
    assert(one.drop_last() =~= Seq::<(String, Layout)>::empty());
    assert(all_warnings(one.drop_last()).len() == 0);
    assert(one.last() == s[i]);
    assert(all_warnings(one) =~= lw);
    lemma_all_warnings_concat(front + one, back);
    lemma_all_warnings_concat(front, one);
    lemma_all_warnings_concat(front, back);
    assert(all_warnings(s) == all_warnings(front) + lw + all_warnings(back));
    assert(all_warnings(s.remove(i)) == all_warnings(front) + all_warnings(back));
    assert(all_warnings(s).to_multiset() =~= all_warnings(front).to_multiset().add(lw.to_multiset()).add(
        all_warnings(back).to_multiset(),
    ));
}

/// Lists holding the same layouts, in any order, draw the same warnings in
/// some order.
proof fn lemma_all_warnings_permutation(a: Seq<(String, Layout)>, b: Seq<(String, Layout)>)
    requires
        a.to_multiset() == b.to_multiset(),
    ensures
        all_warnings(a).to_multiset() == all_warnings(b).to_multiset(),
    decreases a.len(),
{
    broadcast use vstd::seq_lib::group_to_multiset_ensures;
    broadcast use vstd::multiset::group_multiset_axioms;
    broadcast use vstd::seq_lib::lemma_multiset_commutative;

    if a.len() == 0 {
        assert(b.to_multiset().len() == 0);
        assert(b.len() == 0);
    } else {
        let x = a.last();
        assert(a.to_multiset().count(x) > 0) by {
            assert(a.contains(x)) by {
                assert(a[a.len() - 1] == x);
            }
        }
        assert(b.contains(x));
        let i = choose|i: int| 0 <= i < b.len() && b[i] == x;
        assert(a.drop_last().push(x) =~= a);
        assert(a.drop_last().to_multiset() =~= a.to_multiset().remove(x));
        assert(b.remove(i).to_multiset() == b.to_multiset().remove(x));
        lemma_all_warnings_permutation(a.drop_last(), b.remove(i));
        lemma_all_warnings_remove(b, i);
        let lw = layout_warnings_spec(x.0@, x.1.columns@);
        assert(all_warnings(a) == all_warnings(a.drop_last()) + lw);
    }
}

/// Validation does not depend on the order in which the layouts were read:
/// whenever two lists hold the same layouts, the sorted warnings that
/// `validate` returns for one are exactly those it returns for the other.
pub proof fn law_validate_ignores_layout_order(
    a: Seq<(String, Layout)>,
    b: Seq<(String, Layout)>,
    warnings_a: Seq<Seq<char>>,
    warnings_b: Seq<Seq<char>>,
)
    requires
        a.to_multiset() == b.to_multiset(),
        sorted_text(warnings_a),
        warnings_a.to_multiset() == all_warnings(a).to_multiset(),
        sorted_text(warnings_b),
        warnings_b.to_multiset() == all_warnings(b).to_multiset(),
    ensures
        warnings_a == warnings_b,
{
    lemma_all_warnings_permutation(a, b);
    lemma_sorted_text_unique(warnings_a, warnings_b);
}

// ───────────────────────── layout summary and hotkeys ─────────────────────────

/// `"{name} ({n} cols)"`.
pub open spec fn layout_shape(name: Seq<char>, n: nat) -> Seq<char> {
    name + " ("@ + decimal(n) + " cols)"@
}

/// The shape of every layout, in order.
pub open spec fn layout_shapes(layouts: Seq<(String, Layout)>) -> Seq<Seq<char>> {
    layouts.map_values(|l: (String, Layout)| layout_shape(l.0@, l.1.columns@.len()))
}

/// `parts` joined with `sep` between consecutive parts.
pub open spec fn join_text(parts: Seq<Seq<char>>, sep: Seq<char>) -> Seq<char>
    decreases parts.len(),
{
    if parts.len() == 0 {
        Seq::empty()
    } else if parts.len() == 1 {
        parts[0]
    } else {
        join_text(parts.drop_last(), sep) + sep + parts.last()
    }
}

/// `parts` joined with `sep`.
fn join_strings(parts: &Vec<String>, sep: &str) -> (r: String)
    ensures
        r@ == join_text(texts(parts@), sep@),
{
    let mut r = String::new();
    let mut i: usize = 0;
    while i < parts.len()
        invariant
            0 <= i <= parts@.len(),
            r@ == join_text(texts(parts@).take(i as int), sep@),
        decreases parts@.len() - i,
    {
        assert(texts(parts@).take(i + 1).drop_last() =~= texts(parts@).take(i as int));
        if i > 0 {
            r.append(sep);
        } else {
            assert(r@ =~= Seq::<char>::empty());
        }
        r.append(parts[i].as_str());
        assert(texts(parts@).take(i + 1).last() == parts@[i as int]@);
        if i == 0 {
            assert(r@ =~= join_text(texts(parts@).take(1), sep@));
        }
        i = i + 1;
    }
    assert(texts(parts@).take(i as int) =~= texts(parts@));
    r
}

impl Config {
    /// One-line summary of every layout and its column count, sorted by name:
    /// `"no layouts"`, or `"{n} layout(s): "` followed by the sorted
    /// `"{name} ({k} cols)"` entries joined with `", "`.
    pub fn describe_layouts(&self) -> (summary: String)
        requires
            self.well_formed(),
        ensures
            self.layouts@.len() == 0 ==> summary@ == "no layouts"@,
            self.layouts@.len() > 0 ==> exists|sorted: Seq<Seq<char>>|
                {
                    &&& sorted_text(sorted)
                    &&& sorted.to_multiset() =~= layout_shapes(self.layouts@).to_multiset()
                    &&& summary@ == decimal(self.layouts@.len()) + " layout(s): "@ + join_text(
                        sorted,
                        ", "@,
                    )
                },
    {
        if self.layouts.len() == 0 {
            return String::from_str("no layouts");
        }
        let mut shapes: Vec<String> = Vec::new();
        let mut k: usize = 0;
        while k < self.layouts.len()
            invariant
                0 <= k <= self.layouts@.len(),
                texts(shapes@) == layout_shapes(self.layouts@).take(k as int),
            decreases self.layouts@.len() - k,
        {
            let (name, layout) = &self.layouts[k];
            let mut shape = name.clone();
            shape.append(" (");
            let n = decimal_string(layout.columns.len() as u64);
            shape.append(n.as_str());
            shape.append(" cols)");
            let ghost before = shapes@;
            assert(shape@ == layout_shape(self.layouts@[k as int].0@, self.layouts@[k as int].1.columns@.len()));
            assert(layout_shapes(self.layouts@)[k as int] == shape@);
            shapes.push(shape);
            assert(texts(shapes@) =~= texts(before).push(shape@));
            assert(layout_shapes(self.layouts@).take(k + 1) =~= layout_shapes(self.layouts@).take(
                k as int,
            ).push(shape@));
            k = k + 1;
        }
        assert(layout_shapes(self.layouts@).take(k as int) =~= layout_shapes(self.layouts@));
        let count = shapes.len();
        let sorted = sort_strings(shapes);
        let mut summary = decimal_string(count as u64);
        summary.append(" layout(s): ");
        let joined = join_strings(&sorted, ", ");
        summary.append(joined.as_str());
        proof {
            assert(texts(sorted@).to_multiset() =~= layout_shapes(self.layouts@).to_multiset());
        }
        summary
    }
}

/// Hotkey string to layout name, for every layout that has a hotkey; when two
/// layouts share a hotkey, the later one in the list holds it.
pub open spec fn hotkey_map_spec(layouts: Seq<(String, Layout)>) -> Map<Seq<char>, Seq<char>>
    decreases layouts.len(),
{
    if layouts.len() == 0 {
        Map::empty()
    } else {
        let m = hotkey_map_spec(layouts.drop_last());
        match layouts.last().1.hotkey {
            Some(h) => m.insert(h@, layouts.last().0@),
            None => m,
        }
    }
}

/// The map that a list of (key, value) pairs with distinct keys stands for.
pub open spec fn pairs_represent(pairs: Seq<(String, String)>, m: Map<Seq<char>, Seq<char>>) -> bool {
    &&& forall|i: int, j: int|
        0 <= i < j < pairs.len() ==> (#[trigger] pairs[i]).0@ != (#[trigger] pairs[j]).0@
    &&& forall|i: int|
        0 <= i < pairs.len() ==> m.contains_key((#[trigger] pairs[i]).0@) && m[pairs[i].0@]
            == pairs[i].1@
    &&& forall|h: Seq<char>|
        m.contains_key(h) ==> exists|i: int| 0 <= i < pairs.len() && (#[trigger] pairs[i]).0@ == h
}

impl Config {
    /// Return the {hotkey_string: layout_name} mapping, one pair per hotkey.
    pub fn get_hotkey_map(&self) -> (mapping: Vec<(String, String)>)
        requires
            self.well_formed(),
        ensures
            pairs_represent(mapping@, hotkey_map_spec(self.layouts@)),
    {
        let mut mapping: Vec<(String, String)> = Vec::new();
        let mut k: usize = 0;
        while k < self.layouts.len()
            invariant
                0 <= k <= self.layouts@.len(),
                pairs_represent(mapping@, hotkey_map_spec(self.layouts@.take(k as int))),
            decreases self.layouts@.len() - k,
        {
            let ghost m0 = hotkey_map_spec(self.layouts@.take(k as int));
            assert(self.layouts@.take(k + 1).drop_last() =~= self.layouts@.take(k as int));
            let (name, layout) = &self.layouts[k];
            if let Some(hotkey) = &layout.hotkey {
                let ghost m1 = m0.insert(hotkey@, name@);
                let mut j: usize = 0;
                while j < mapping.len() && !(mapping[j].0 == *hotkey)
                    invariant
                        0 <= j <= mapping@.len(),
                        forall|q: int| 0 <= q < j ==> (#[trigger] mapping@[q]).0@ != hotkey@,
                    decreases mapping@.len() - j,
                {
                    j = j + 1;
                }
                let ghost before = mapping@;
                if j < mapping.len() {
                    mapping.set(j, (hotkey.clone(), name.clone()));
                    assert(before[j as int].0@ == hotkey@);
                    assert forall|i: int| 0 <= i < mapping@.len() && i != j implies #[trigger] mapping@[i] == before[i] by {}
                    assert forall|h: Seq<char>| m1.contains_key(h) implies exists|i: int|
                        0 <= i < mapping@.len() && (#[trigger] mapping@[i]).0@ == h by {
                        if h != hotkey@ {
                            let i = choose|i: int| 0 <= i < before.len() && (#[trigger] before[i]).0@ == h;
                            assert(mapping@[i] == before[i]);
                        } else {
                            assert(mapping@[j as int].0@ == h);
                        }
                    }
                    assert forall|i: int, q: int|
                        0 <= i < q < mapping@.len() implies (#[trigger] mapping@[i]).0@ != (#[trigger] mapping@[q]).0@ by {
                        assert(before[i].0@ != before[q].0@);
                    }
                } else {
                    mapping.push((hotkey.clone(), name.clone()));
                    assert forall|i: int| 0 <= i < before.len() implies #[trigger] mapping@[i] == before[i] by {}
                    assert forall|h: Seq<char>| m1.contains_key(h) implies exists|i: int|
                        0 <= i < mapping@.len() && (#[trigger] mapping@[i]).0@ == h by {
                        if h != hotkey@ {
                            let i = choose|i: int| 0 <= i < before.len() && (#[trigger] before[i]).0@ == h;
                            assert(mapping@[i] == before[i]);
                        } else {
                            assert(mapping@[before.len() as int].0@ == h);
                        }
                    }
                    assert forall|i: int, q: int|
                        0 <= i < q < mapping@.len() implies (#[trigger] mapping@[i]).0@ != (#[trigger] mapping@[q]).0@ by {
                        if q < before.len() {
                            assert(before[i].0@ != before[q].0@);
                        }
                    }
                }
                assert(hotkey_map_spec(self.layouts@.take(k + 1)) == m1);
            } else {
                assert(hotkey_map_spec(self.layouts@.take(k + 1)) == m0);
            }
            k = k + 1;
        }
        assert(self.layouts@.take(k as int) =~= self.layouts@);
        mapping
    }
}

// ───────────────────────── defaults and paths ─────────────────────────

/// The default pixel gap between windows.
pub fn default_gap() -> (gap: i32)
    ensures
        gap == 5,
{
    5
}

impl Default for Settings {
    fn default() -> (settings: Self)
        ensures
            settings.gap == 5,
    {
        Settings { gap: default_gap() }
    }
}

/// The home directory, or the current directory when there is none.
pub open spec fn home_or_current(home: Option<&str>) -> Seq<char> {
    match home {
        Some(h) => h@,
        None => "."@,
    }
}

impl Config {
    /// Components of the configuration directory `~/.windowsnap/`: the home
    /// directory (or `.` without one), then `.windowsnap`.
    pub fn config_dir(home: Option<&str>) -> (parts: Vec<String>)
        ensures
            texts(parts@) == seq![home_or_current(home), ".windowsnap"@],
    {
        let base = match home {
            Some(h) => String::from_str(h),
            None => String::from_str("."),
        };
        let mut parts: Vec<String> = Vec::new();
        parts.push(base);
        parts.push(String::from_str(".windowsnap"));
        assert(texts(parts@) =~= seq![home_or_current(home), ".windowsnap"@]);
        parts
    }

    /// Components of `~/.windowsnap/config.toml`.
    pub fn config_path(home: Option<&str>) -> (parts: Vec<String>)
        ensures
            texts(parts@) == seq![home_or_current(home), ".windowsnap"@, "config.toml"@],
    {
        let mut parts = Config::config_dir(home);
        let ghost before = parts@;
        parts.push(String::from_str("config.toml"));
        assert(texts(parts@) =~= texts(before).push("config.toml"@));
        assert(texts(parts@) =~= seq![home_or_current(home), ".windowsnap"@, "config.toml"@]);
        parts
    }

    /// Components of `~/.windowsnap/windowsnap.log`.
    pub fn log_path(home: Option<&str>) -> (parts: Vec<String>)
        ensures
            texts(parts@) == seq![home_or_current(home), ".windowsnap"@, "windowsnap.log"@],
    {
        let mut parts = Config::config_dir(home);
        let ghost before = parts@;
        parts.push(String::from_str("windowsnap.log"));
        assert(texts(parts@) =~= texts(before).push("windowsnap.log"@));
        assert(texts(parts@) =~= seq![home_or_current(home), ".windowsnap"@, "windowsnap.log"@]);
        parts
    }
}

} // verus!
