//! Slot geometry: where each column of a layout lands on a monitor.
use vstd::prelude::*;

use crate::config::{absolute_column_fits, columns_fit_on_screen, tiled_percent_sum, Column};
use crate::windows::{LayoutSlot, MonitorInfo};

verus! {

// ───────────────────────── slot geometry: specification ─────────────────────────

/// `v` is representable as an `i32`.
pub open spec fn fits_i32(v: int) -> bool {
    i32::MIN <= v <= i32::MAX
}

/// A percentage as it takes part in the signed pixel arithmetic (`p as i32`).
pub open spec fn signed_percent(p: u32) -> int {
    if p <= 0x7fff_ffff {
        p as int
    } else {
        p as int - 0x1_0000_0000
    }
}

/// Integer division rounding toward zero, as `i32` division does.
pub open spec fn trunc_div(a: int, d: int) -> int {
    if a >= 0 {
        a / d
    } else {
        -((-a) / d)
    }
}

/// `p` percent of `span` pixels, rounded toward zero.
pub open spec fn percent_of(span: int, p: u32) -> int {
    trunc_div(span * signed_percent(p), 100)
}

/// A column without `x_percent` takes part in the tiling flow.
pub open spec fn is_tiled(c: Column) -> bool {
    c.x_percent is None
}

/// How many columns of `cols` are tiled.
pub open spec fn tiled_count(cols: Seq<Column>) -> nat
    decreases cols.len(),
{
    if cols.len() == 0 {
        0
    } else {
        tiled_count(cols.drop_last()) + if is_tiled(cols.last()) {
            1nat
        } else {
            0nat
        }
    }
}

/// Index of the last tiled column of `cols`, or -1 when there is none.
pub open spec fn last_tiled(cols: Seq<Column>) -> int
    decreases cols.len(),
{
    if cols.len() == 0 {
        -1
    } else if is_tiled(cols.last()) {
        cols.len() - 1
    } else {
        last_tiled(cols.drop_last())
    }
}

pub open spec fn area_width(area: (i32, i32, i32, i32)) -> int {
    area.2 - area.0
}

/// Width shared by the tiled columns: the work area minus one gap before,
/// between and after them.
pub open spec fn usable_width(cols: Seq<Column>, area: (i32, i32, i32, i32), gap: i32) -> int {
    area_width(area) - gap * (tiled_count(cols) + 1)
}

/// Width that absolute columns measure against: the work area minus the two
/// outer gaps.
pub open spec fn absolute_span(area: (i32, i32, i32, i32), gap: i32) -> int {
    area_width(area) - 2 * gap
}

pub open spec fn slot_top(area: (i32, i32, i32, i32), gap: i32) -> int {
    area.1 + gap
}

pub open spec fn slot_height(area: (i32, i32, i32, i32), gap: i32) -> int {
    (area.3 - area.1) - 2 * gap
}

/// Left edge reached after laying out the tiled columns of `prefix` from
/// `left + gap`, each taking its share of `usable` followed by one gap.
pub open spec fn tiled_offset(prefix: Seq<Column>, left: int, gap: int, usable: int) -> int
    decreases prefix.len(),
{
    if prefix.len() == 0 {
        left + gap
    } else {
        tiled_offset(prefix.drop_last(), left, gap, usable) + if is_tiled(prefix.last()) {
            percent_of(usable, prefix.last().width_percent) + gap
        } else {
            0
        }
    }
}

/// Left edge of the slot of column `i`.
pub open spec fn slot_x(cols: Seq<Column>, i: int, area: (i32, i32, i32, i32), gap: i32) -> int {
    match cols[i].x_percent {
        Some(xp) => area.0 + gap + percent_of(absolute_span(area, gap), xp),
        None => tiled_offset(cols.take(i), area.0 as int, gap as int, usable_width(cols, area, gap)),
    }
}

/// Width of the slot of column `i`: an absolute column takes its percentage of
/// the span; a tiled column its share of the usable width, except the last
/// tiled column, which runs from where the earlier tiled columns left off to
/// the right edge of the work area minus one gap. Under 100 percent it absorbs
/// the slack; when the earlier tiled columns already reach past that edge, its
/// width is negative.
pub open spec fn slot_width(cols: Seq<Column>, i: int, area: (i32, i32, i32, i32), gap: i32) -> int {
    match cols[i].x_percent {
        Some(_) => percent_of(absolute_span(area, gap), cols[i].width_percent),
        None => if i == last_tiled(cols) {
            (area.2 - gap) - slot_x(cols, i, area, gap)
        } else {
            percent_of(usable_width(cols, area, gap), cols[i].width_percent)
        },
    }
}

/// `s` is the slot of column `i`.
pub open spec fn slot_is(s: LayoutSlot, cols: Seq<Column>, i: int, area: (i32, i32, i32, i32), gap: i32) -> bool {
    &&& s.x == slot_x(cols, i, area, gap)
    &&& s.y == slot_top(area, gap)
    &&& s.width == slot_width(cols, i, area, gap)
    &&& s.height == slot_height(area, gap)
}

/// Every intermediate value of the slot computation for column `i` fits in an `i32`.
pub open spec fn column_arithmetic_fits(cols: Seq<Column>, i: int, area: (i32, i32, i32, i32), gap: i32) -> bool {
    let usable = usable_width(cols, area, gap);
    let span = absolute_span(area, gap);
    let w = cols[i].width_percent;
    match cols[i].x_percent {
        Some(xp) => {
            &&& fits_i32(span * signed_percent(xp))
            &&& fits_i32(area.0 + gap + percent_of(span, xp))
            &&& fits_i32(span * signed_percent(w))
        },
        None => {
            let off = tiled_offset(cols.take(i), area.0 as int, gap as int, usable);
            &&& fits_i32(usable * signed_percent(w))
            &&& if i == last_tiled(cols) {
                &&& fits_i32(area.2 - gap)
                &&& fits_i32(area.2 - gap - off)
            } else {
                &&& fits_i32(percent_of(usable, w) + gap)
                &&& fits_i32(off + percent_of(usable, w) + gap)
            }
        },
    }
}

/// Every intermediate value of `calculate_slots` fits in an `i32`; outside this,
/// the pixel arithmetic overflows.
pub open spec fn slot_arithmetic_fits(cols: Seq<Column>, area: (i32, i32, i32, i32), gap: i32) -> bool {
    &&& cols.len() < i32::MAX
    &&& fits_i32(area_width(area))
    &&& fits_i32(area.3 - area.1)
    &&& fits_i32(gap * (tiled_count(cols) + 1))
    &&& fits_i32(usable_width(cols, area, gap))
    &&& fits_i32(2 * gap)
    &&& fits_i32(absolute_span(area, gap))
    &&& fits_i32(slot_top(area, gap))
    &&& fits_i32(slot_height(area, gap))
    &&& fits_i32(area.0 + gap)
    &&& forall|i: int| 0 <= i < cols.len() ==> #[trigger] column_arithmetic_fits(cols, i, area, gap)
}


/// The last tiled column is tiled and no tiled column comes after it.
pub proof fn lemma_last_tiled(cols: Seq<Column>)
    ensures
        -1 <= last_tiled(cols) < cols.len(),
        last_tiled(cols) >= 0 ==> is_tiled(cols[last_tiled(cols)]),
        forall|i: int| 0 <= i < cols.len() && is_tiled(#[trigger] cols[i]) ==> i <= last_tiled(cols),
    decreases cols.len(),
{
    if cols.len() > 0 {
        lemma_last_tiled(cols.drop_last());
        assert forall|i: int| 0 <= i < cols.len() && is_tiled(#[trigger] cols[i]) implies i <= last_tiled(
            cols,
        ) by {
            if i < cols.len() - 1 {
                assert(cols.drop_last()[i] == cols[i]);
            }
        }
    }
}

/// There are no more tiled columns than columns.
pub proof fn lemma_tiled_count_bound(cols: Seq<Column>)
    ensures
        tiled_count(cols) <= cols.len(),
    decreases cols.len(),
{
    if cols.len() > 0 {
        lemma_tiled_count_bound(cols.drop_last());
    }
}

// ───────────────────────── slot geometry: implementation ─────────────────────────

/// `p as i32`.
fn signed_pct(p: u32) -> (r: i32)
    ensures
        r == signed_percent(p),
{
    assert((#[verifier::truncate] (p as i32)) == (if p <= 0x7fff_ffff {
        p as int
    } else {
        p - 0x1_0000_0000
    })) by (bit_vector);
    #[verifier::truncate]
    (p as i32)
}

/// Number of tiled columns.
fn count_tiled(columns: &[Column]) -> (n: usize)
    ensures
        n == tiled_count(columns@),
{
    let mut n: usize = 0;
    let mut i: usize = 0;
    while i < columns.len()
        invariant
            0 <= i <= columns@.len(),
            n == tiled_count(columns@.take(i as int)),
            n <= i,
        decreases columns@.len() - i,
    {
        assert(columns@.take(i + 1).drop_last() =~= columns@.take(i as int));
        if columns[i].x_percent.is_none() {
            n = n + 1;
        }
        i = i + 1;
    }
    assert(columns@.take(i as int) =~= columns@);
    n
}

/// Index of the last tiled column.
fn find_last_tiled(columns: &[Column]) -> (r: Option<usize>)
    ensures
        match r {
            Some(k) => k == last_tiled(columns@),
            None => last_tiled(columns@) == -1,
        },
{
    let mut r: Option<usize> = None;
    let mut i: usize = 0;
    while i < columns.len()
        invariant
            0 <= i <= columns@.len(),
            match r {
                Some(k) => k == last_tiled(columns@.take(i as int)),
                None => last_tiled(columns@.take(i as int)) == -1,
            },
        decreases columns@.len() - i,
    {
        assert(columns@.take(i + 1).drop_last() =~= columns@.take(i as int));
        if columns[i].x_percent.is_none() {
            r = Some(i);
        }
        i = i + 1;
    }
    assert(columns@.take(i as int) =~= columns@);
    r
}

/// Calculate pixel positions for each column in a layout.
///
/// Tiled columns are laid left to right from the left edge of the work area,
/// one gap apart, each taking its percentage of the width left after the gaps;
/// the last tiled column runs to the right edge, absorbing rounding and slack.
/// Widths over 100 run later columns off the right edge instead of overlapping,
/// and once the earlier columns pass the edge the last one is left with a
/// negative width: the breakage `Config::validate` warns about. Columns with `x_percent` are placed absolutely against the work area minus
/// the two outer gaps, and neither consume a gap nor shift their neighbours.
pub fn calculate_slots(columns: &[Column], monitor: &MonitorInfo, gap: i32) -> (slots: Vec<LayoutSlot>)
    requires
        columns@.len() == 0 || slot_arithmetic_fits(columns@, monitor.work_area, gap),
    ensures
        slots@.len() == columns@.len(),
        forall|i: int|
            0 <= i < columns@.len() ==> slot_is(#[trigger] slots@[i], columns@, i, monitor.work_area, gap),
{
    if columns.len() == 0 {
        return Vec::new();
    }
    let ghost cols = columns@;
    let ghost area = monitor.work_area;
    let (work_left, work_top, work_right, work_bottom) = monitor.work_area;
    let total_width = work_right - work_left;
    let total_height = work_bottom - work_top;

    let tiled = count_tiled(columns);
    proof {
        lemma_tiled_count_bound(cols);
        lemma_last_tiled(cols);
    }
    let tiled_count = tiled as i32;
    let usable = total_width - gap * (tiled_count + 1);
    let span = total_width - (2 * gap);
    let last_tiled_idx = find_last_tiled(columns);

    let y = work_top + gap;
    let height = total_height - (2 * gap);

    let mut slots: Vec<LayoutSlot> = Vec::new();
    let mut x_offset = work_left + gap;

    let mut i: usize = 0;
    while i < columns.len()
        invariant
            cols == columns@,
            area == monitor.work_area,
            area == (work_left, work_top, work_right, work_bottom),
            slot_arithmetic_fits(cols, area, gap),
            0 <= i <= cols.len(),
            slots@.len() == i,
            usable == usable_width(cols, area, gap),
            span == absolute_span(area, gap),
            y == slot_top(area, gap),
            height == slot_height(area, gap),
            match last_tiled_idx {
                Some(k) => k == last_tiled(cols),
                None => last_tiled(cols) == -1,
            },
            i <= last_tiled(cols) ==> x_offset == tiled_offset(
                cols.take(i as int),
                work_left as int,
                gap as int,
                usable as int,
            ),
            forall|j: int| 0 <= j < i ==> slot_is(#[trigger] slots@[j], cols, j, area, gap),
        decreases cols.len() - i,
    {
        let col = &columns[i];
        assert(col == cols[i as int]);
        proof {
            lemma_last_tiled(cols);
        }
        assert(column_arithmetic_fits(cols, i as int, area, gap));
        assert(cols.take(i + 1).drop_last() =~= cols.take(i as int));
        if let Some(x_pct) = col.x_percent {
            let xp = signed_pct(x_pct);
            let wp = signed_pct(col.width_percent);
            slots.push(
                LayoutSlot {
                    x: work_left + gap + span * xp / 100,
                    width: span * wp / 100,
                    y,
                    height,
                },
            );
        } else {
            let wp = signed_pct(col.width_percent);
            let share = usable * wp / 100;
            if last_tiled_idx == Some(i) {
                // The last tiled column absorbs whatever is left to the edge.
                let col_width = (work_right - gap) - x_offset;
                slots.push(LayoutSlot { x: x_offset, y, width: col_width, height });
            } else {
                slots.push(LayoutSlot { x: x_offset, y, width: share, height });
                x_offset = x_offset + (share + gap);
            }
            assert(slot_is(slots@[i as int], cols, i as int, area, gap));
        }
        i = i + 1;
    }
    slots
}

// ───────────────────────── checking the arithmetic ─────────────────────────

fn fits(v: i64) -> (r: bool)
    ensures
        r == fits_i32(v as int),
{
    -2147483648 <= v && v <= 2147483647
}

/// Whether every intermediate value of `calculate_slots` fits in an `i32`
/// (vacuously so without columns).
pub fn slots_fit(columns: &[Column], monitor: &MonitorInfo, gap: i32) -> (ok: bool)
    ensures
        ok == (columns@.len() == 0 || slot_arithmetic_fits(columns@, monitor.work_area, gap)),
{
    let ghost cols = columns@;
    let ghost area = monitor.work_area;
    if columns.len() == 0 {
        return true;
    }
    if columns.len() >= 2147483647 {
        return false;
    }
    let (left, top, right, bottom) = monitor.work_area;
    let l = left as i64;
    let t = top as i64;
    let r = right as i64;
    let b = bottom as i64;
    let g = gap as i64;
    let tiled = count_tiled(columns);
    proof {
        lemma_tiled_count_bound(cols);
        lemma_last_tiled(cols);
    }
    let tc = tiled as i64;
    let total = r - l;
    assert(-0x8000_0000 * 0x8000_0000 <= g * (tc + 1) <= 0x8000_0000 * 0x8000_0000) by (nonlinear_arith)
        requires
            -0x8000_0000 <= g <= 0x7fff_ffff,
            0 <= tc + 1 <= 0x8000_0000,
    ;
    let gaps = g * (tc + 1);
    if !(fits(total) && fits(b - t) && fits(gaps) && fits(total - gaps) && fits(2 * g) && fits(total - 2 * g)
        && fits(t + g) && fits((b - t) - 2 * g) && fits(l + g)) {
        return false;
    }
    let usable = total - gaps;
    let span = total - 2 * g;
    let last_tiled_idx = find_last_tiled(columns);
    let mut off = l + g;
    let mut i: usize = 0;
    while i < columns.len()
        invariant
            cols == columns@,
            area == monitor.work_area,
            area == (left, top, right, bottom),
            l == left && r == right && g == gap,
            fits_i32(usable as int) && fits_i32(span as int),
            usable == usable_width(cols, area, gap),
            span == absolute_span(area, gap),
            match last_tiled_idx {
                Some(k) => k == last_tiled(cols),
                None => last_tiled(cols) == -1,
            },
            0 <= i <= cols.len(),
            i <= last_tiled(cols) ==> off == tiled_offset(cols.take(i as int), left as int, gap as int, usable as int)
                && fits_i32(off as int),
            forall|j: int| 0 <= j < i ==> #[trigger] column_arithmetic_fits(cols, j, area, gap),
        decreases cols.len() - i,
    {
        let col = &columns[i];
        assert(col == cols[i as int]);
        proof {
            lemma_last_tiled(cols);
        }
        assert(cols.take(i + 1).drop_last() =~= cols.take(i as int));
        let wp = signed_pct(col.width_percent) as i64;
        assert(-0x8000_0000 * 0x8000_0000 <= span * wp <= 0x8000_0000 * 0x8000_0000
            && -0x8000_0000 * 0x8000_0000 <= usable * wp <= 0x8000_0000 * 0x8000_0000) by (nonlinear_arith)
            requires
                -0x8000_0000 <= span <= 0x7fff_ffff,
                -0x8000_0000 <= usable <= 0x7fff_ffff,
                -0x8000_0000 <= wp <= 0x7fff_ffff,
        ;
        if let Some(x_pct) = col.x_percent {
            let xp = signed_pct(x_pct) as i64;
            assert(-0x8000_0000 * 0x8000_0000 <= span * xp <= 0x8000_0000 * 0x8000_0000) by (nonlinear_arith)
                requires
                    -0x8000_0000 <= span <= 0x7fff_ffff,
                    -0x8000_0000 <= xp <= 0x7fff_ffff,
            ;
            if !(fits(span * xp) && fits(l + g + span * xp / 100) && fits(span * wp)) {
                assert(!column_arithmetic_fits(cols, i as int, area, gap));
                return false;
            }
        } else {
            if !fits(usable * wp) {
                assert(!column_arithmetic_fits(cols, i as int, area, gap));
                return false;
            }
            let share = usable * wp / 100;
            if last_tiled_idx == Some(i) {
                if !(fits(r - g) && fits(r - g - off)) {
                    assert(!column_arithmetic_fits(cols, i as int, area, gap));
                    return false;
                }
            } else {
                if !(fits(share + g) && fits(off + share + g)) {
                    assert(!column_arithmetic_fits(cols, i as int, area, gap));
                    return false;
                }
                off = off + share + g;
            }
        }
        assert(column_arithmetic_fits(cols, i as int, area, gap));
        i = i + 1;
    }
    true
}

// ───────────────────────── slot geometry: laws ─────────────────────────

/// Sum of the shares of `usable` taken by the tiled columns of `cols`.
pub open spec fn tiled_share_sum(cols: Seq<Column>, usable: int) -> int
    decreases cols.len(),
{
    if cols.len() == 0 {
        0
    } else {
        tiled_share_sum(cols.drop_last(), usable) + if is_tiled(cols.last()) {
            percent_of(usable, cols.last().width_percent)
        } else {
            0
        }
    }
}

/// The tiled offset is the left edge and one gap, plus the shares and one gap
/// per tiled column before it.
proof fn lemma_offset_closed_form(prefix: Seq<Column>, left: int, gap: int, usable: int)
    ensures
        tiled_offset(prefix, left, gap, usable) == left + gap + tiled_share_sum(prefix, usable) + gap
            * tiled_count(prefix),
    decreases prefix.len(),
{
    if prefix.len() > 0 {
        lemma_offset_closed_form(prefix.drop_last(), left, gap, usable);
        let t = tiled_count(prefix.drop_last()) as int;
        assert(tiled_offset(prefix, left, gap, usable) == tiled_offset(prefix.drop_last(), left, gap, usable)
            + if is_tiled(prefix.last()) {
            percent_of(usable, prefix.last().width_percent) + gap
        } else {
            0
        });
        if is_tiled(prefix.last()) {
            assert(tiled_count(prefix) == t + 1);
            assert(gap * (t + 1) == gap * t + gap) by (nonlinear_arith);
        } else {
            assert(tiled_count(prefix) == t);
        }
    } else {
        assert(tiled_count(prefix) == 0);
        assert(tiled_share_sum(prefix, usable) == 0);
        assert(gap * tiled_count(prefix) == 0);
    }
}

/// Facts about the prefixes of a column list.
proof fn lemma_prefix(cols: Seq<Column>, j: int)
    requires
        0 <= j <= cols.len(),
    ensures
        tiled_count(cols.take(j)) <= tiled_count(cols),
        tiled_count(cols.take(j)) == tiled_count(cols) <==> last_tiled(cols) < j,
        tiled_percent_sum(cols.take(j)) <= tiled_percent_sum(cols),
    decreases cols.len(),
{
    lemma_last_tiled(cols);
    if j == cols.len() {
        assert(cols.take(j) =~= cols);
    } else {
        assert(cols.take(j) =~= cols.drop_last().take(j));
        lemma_prefix(cols.drop_last(), j);
        lemma_last_tiled(cols.drop_last());
    }
}

/// With a non-negative width and percentages summing to at most 100, the
/// shares are non-negative and at most the matching fraction of the width.
proof fn lemma_share_sum_bound(cols: Seq<Column>, usable: int)
    requires
        usable >= 0,
        tiled_percent_sum(cols) <= 100,
    ensures
        0 <= tiled_percent_sum(cols),
        0 <= tiled_share_sum(cols, usable),
        100 * tiled_share_sum(cols, usable) <= usable * tiled_percent_sum(cols),
    decreases cols.len(),
{
    if cols.len() > 0 {
        let rest = cols.drop_last();
        let c = cols.last();
        let w = c.width_percent as int;
        if is_tiled(c) {
            lemma_share_sum_bound_rest(cols);
            lemma_share_sum_bound(rest, usable);
            let s = tiled_share_sum(rest, usable);
            let p = tiled_percent_sum(rest);
            assert(signed_percent(c.width_percent) == w);
            assert(0 <= (usable * w) / 100 && 100 * ((usable * w) / 100) <= usable * w) by (nonlinear_arith)
                requires
                    usable >= 0,
                    w >= 0,
            ;
            assert(usable * (p + w) == usable * p + usable * w) by (nonlinear_arith);
        } else {
            lemma_share_sum_bound(rest, usable);
        }
    }
}

/// Dropping the last column keeps the tiled percentages within 100.
proof fn lemma_share_sum_bound_rest(cols: Seq<Column>)
    requires
        cols.len() > 0,
        tiled_percent_sum(cols) <= 100,
    ensures
        tiled_percent_sum(cols.drop_last()) <= 100,
        is_tiled(cols.last()) ==> cols.last().width_percent <= 100,
{
    lemma_percent_sum_nonneg(cols.drop_last());
}

proof fn lemma_percent_sum_nonneg(cols: Seq<Column>)
    ensures
        tiled_percent_sum(cols) >= 0,
    decreases cols.len(),
{
    if cols.len() > 0 {
        lemma_percent_sum_nonneg(cols.drop_last());
    }
}

/// The shares of a prefix are the shares before column `i` plus its own.
proof fn lemma_share_step(cols: Seq<Column>, i: int, usable: int)
    requires
        0 <= i < cols.len(),
    ensures
        tiled_share_sum(cols.take(i + 1), usable) == tiled_share_sum(cols.take(i), usable) + if is_tiled(
            cols[i],
        ) {
            percent_of(usable, cols[i].width_percent)
        } else {
            0
        },
        tiled_count(cols.take(i + 1)) == tiled_count(cols.take(i)) + if is_tiled(cols[i]) {
            1int
        } else {
            0int
        },
{
    assert(cols.take(i + 1).drop_last() =~= cols.take(i));
}

/// A layout that `Config::validate` accepts stays on screen: when the work
/// area has room for the gaps, every slot starts at or after the left edge plus
/// one gap, has a non-negative width, and ends at or before the right edge
/// minus one gap.
pub proof fn law_validated_layout_stays_on_screen(
    cols: Seq<Column>,
    area: (i32, i32, i32, i32),
    gap: i32,
    i: int,
)
    requires
        columns_fit_on_screen(cols),
        gap >= 0,
        usable_width(cols, area, gap) >= 0,
        absolute_span(area, gap) >= 0,
        0 <= i < cols.len(),
    ensures
        slot_x(cols, i, area, gap) >= area.0 + gap,
        slot_width(cols, i, area, gap) >= 0,
        slot_x(cols, i, area, gap) + slot_width(cols, i, area, gap) <= area.2 - gap,
{
    let g = gap as int;
    let c = cols[i];
    match c.x_percent {
        Some(x) => {
            assert(absolute_column_fits(cols[i]));
            let span = absolute_span(area, gap);
            let xi = x as int;
            let wi = c.width_percent as int;
            assert(signed_percent(x) == xi);
            assert(signed_percent(c.width_percent) == wi);
            assert(0 <= span * xi && 0 <= span * wi && 0 <= (span * xi) / 100 && 0 <= (span * wi) / 100
                && (span * xi) / 100 + (span * wi) / 100 <= span) by (nonlinear_arith)
                requires
                    span >= 0,
                    xi >= 0,
                    wi >= 0,
                    xi + wi <= 100,
            {
                assert(100 * ((span * xi) / 100) <= span * xi);
                assert(100 * ((span * wi) / 100) <= span * wi);
                assert(span * xi + span * wi == span * (xi + wi));
                assert(span * (xi + wi) <= span * 100);
            }
            assert(percent_of(span, c.width_percent) == (span * wi) / 100);
            assert(slot_width(cols, i, area, gap) == percent_of(span, c.width_percent));
            assert(slot_width(cols, i, area, gap) >= 0);
        },
        None => {
            let usable = usable_width(cols, area, gap);
            let tc = tiled_count(cols) as int;
            lemma_last_tiled(cols);
            lemma_offset_closed_form(cols.take(i), area.0 as int, g, usable);
            lemma_prefix(cols, i);
            lemma_prefix(cols, i + 1);
            lemma_share_step(cols, i, usable);
            lemma_share_sum_bound(cols.take(i + 1), usable);
            lemma_share_sum_bound(cols.take(i), usable);
            let m = tiled_count(cols.take(i)) as int;
            let s = tiled_share_sum(cols.take(i), usable);
            let s1 = tiled_share_sum(cols.take(i + 1), usable);
            let p1 = tiled_percent_sum(cols.take(i + 1));
            let w = c.width_percent as int;
            lemma_percent_sum_nonneg(cols.take(i));
            assert(tiled_percent_sum(cols.take(i + 1)) == tiled_percent_sum(cols.take(i)) + w) by {
                assert(cols.take(i + 1).drop_last() =~= cols.take(i));
            }
            assert(signed_percent(c.width_percent) == w);
            assert(0 <= usable * w && 0 <= (usable * w) / 100) by (nonlinear_arith)
                requires
                    usable >= 0,
                    w >= 0,
            ;
            assert(s1 <= usable) by (nonlinear_arith)
                requires
                    100 * s1 <= usable * p1,
                    p1 <= 100,
                    usable >= 0,
                    p1 >= 0,
            ;
            assert(g * m >= 0) by (nonlinear_arith)
                requires
                    g >= 0,
                    m >= 0,
            ;
            assert(area_width(area) == usable + g * (tc + 1));
            assert(g * (tc + 1) == g * tc + g) by (nonlinear_arith);
            if i == last_tiled(cols) {
                assert(m + 1 == tc);
                assert(g * m + g == g * tc) by (nonlinear_arith)
                    requires
                        m + 1 == tc,
                ;
            } else {
                assert(m + 1 <= tc - 1);
                assert(g * (m + 1) <= g * tc) by (nonlinear_arith)
                    requires
                        m + 1 <= tc,
                        g >= 0,
                ;
                assert(g * (m + 1) == g * m + g) by (nonlinear_arith);
            }
        },
    }
}

/// The last tiled slot ends exactly at the right edge of the work area minus
/// one gap, whatever the widths sum to: under 100 it stretches to absorb the
/// slack, over 100 it shrinks, below zero once the earlier columns pass the edge.
pub proof fn law_last_tiled_slot_reaches_right_edge(
    cols: Seq<Column>,
    area: (i32, i32, i32, i32),
    gap: i32,
)
    requires
        last_tiled(cols) >= 0,
    ensures
        slot_x(cols, last_tiled(cols), area, gap) + slot_width(cols, last_tiled(cols), area, gap)
            == area.2 - gap,
{
    lemma_last_tiled(cols);
}

/// The first tiled slot starts at the left edge of the work area plus one gap.
pub proof fn law_first_tiled_slot_starts_at_left_edge(
    cols: Seq<Column>,
    area: (i32, i32, i32, i32),
    gap: i32,
    i: int,
)
    requires
        0 <= i < cols.len(),
        is_tiled(cols[i]),
        tiled_count(cols.take(i)) == 0,
    ensures
        slot_x(cols, i, area, gap) == area.0 + gap,
{
    lemma_offset_closed_form(cols.take(i), area.0 as int, gap as int, usable_width(cols, area, gap));
    lemma_no_tiled_no_share(cols.take(i), usable_width(cols, area, gap));
    assert(gap * tiled_count(cols.take(i)) == 0);
}

proof fn lemma_no_tiled_no_share(cols: Seq<Column>, usable: int)
    requires
        tiled_count(cols) == 0,
    ensures
        tiled_share_sum(cols, usable) == 0,
    decreases cols.len(),
{
    if cols.len() > 0 {
        lemma_no_tiled_no_share(cols.drop_last(), usable);
    }
}

/// Tiled slots are laid left to right one gap apart: a tiled column starts
/// exactly one gap after the end of the tiled column before it, with any
/// absolute columns between them taking no room.
pub proof fn law_tiled_slots_are_one_gap_apart(
    cols: Seq<Column>,
    area: (i32, i32, i32, i32),
    gap: i32,
    i: int,
    j: int,
)
    requires
        0 <= i < j < cols.len(),
        is_tiled(cols[i]),
        is_tiled(cols[j]),
        forall|k: int| i < k < j ==> !is_tiled(#[trigger] cols[k]),
    ensures
        slot_x(cols, j, area, gap) == slot_x(cols, i, area, gap) + slot_width(cols, i, area, gap) + gap,
{
    lemma_last_tiled(cols);
    let usable = usable_width(cols, area, gap);
    lemma_offset_unchanged_over_absolute(cols, i + 1, j, area.0 as int, gap as int, usable);
    assert(cols.take(i + 1).drop_last() =~= cols.take(i));
}

/// Absolute columns leave the tiled offset where it was.
proof fn lemma_offset_unchanged_over_absolute(
    cols: Seq<Column>,
    a: int,
    b: int,
    left: int,
    gap: int,
    usable: int,
)
    requires
        0 <= a <= b <= cols.len(),
        forall|k: int| a <= k < b ==> !is_tiled(#[trigger] cols[k]),
    ensures
        tiled_offset(cols.take(b), left, gap, usable) == tiled_offset(cols.take(a), left, gap, usable),
    decreases b - a,
{
    if b > a {
        lemma_offset_unchanged_over_absolute(cols, a, b - 1, left, gap, usable);
        assert(cols.take(b).drop_last() =~= cols.take(b - 1));
        assert(!is_tiled(cols[b - 1]));
    }
}

/// The last tiled slot absorbs exactly what the earlier tiled shares leave of
/// the usable width: its width is the usable width minus those shares, so it
/// turns negative exactly when they exceed the usable width.
pub proof fn law_last_tiled_slot_absorbs_the_rest(cols: Seq<Column>, area: (i32, i32, i32, i32), gap: i32)
    requires
        last_tiled(cols) >= 0,
    ensures
        slot_width(cols, last_tiled(cols), area, gap) == usable_width(cols, area, gap)
            - tiled_share_sum(cols.take(last_tiled(cols)), usable_width(cols, area, gap)),
{
    let k = last_tiled(cols);
    let g = gap as int;
    let usable = usable_width(cols, area, gap);
    lemma_last_tiled(cols);
    lemma_prefix(cols, k);
    lemma_prefix(cols, k + 1);
    lemma_share_step(cols, k, usable);
    lemma_offset_closed_form(cols.take(k), area.0 as int, g, usable);
    let tc = tiled_count(cols) as int;
    let m = tiled_count(cols.take(k)) as int;
    assert(m + 1 == tc);
    assert(g * (tc + 1) == g * m + g + g) by (nonlinear_arith)
        requires
            m + 1 == tc,
    ;
}

/// From below, the shares of the tiled columns fall short of their exact
/// fractions of a non-negative width by less than one pixel each.
proof fn lemma_share_sum_lower_bound(cols: Seq<Column>, usable: int)
    requires
        usable >= 0,
        forall|i: int|
            0 <= i < cols.len() && is_tiled(#[trigger] cols[i]) ==> cols[i].width_percent <= 0x7fff_ffff,
    ensures
        100 * tiled_share_sum(cols, usable) >= usable * tiled_percent_sum(cols) - 99 * tiled_count(cols),
    decreases cols.len(),
{
    if cols.len() > 0 {
        let rest = cols.drop_last();
        let c = cols.last();
        assert forall|i: int| 0 <= i < rest.len() && is_tiled(#[trigger] rest[i]) implies rest[i].width_percent
            <= 0x7fff_ffff by {
            assert(rest[i] == cols[i]);
        }
        lemma_share_sum_lower_bound(rest, usable);
        if is_tiled(c) {
            let w = c.width_percent as int;
            assert(cols[cols.len() - 1] == c);
            assert(signed_percent(c.width_percent) == w);
            let p = tiled_percent_sum(rest);
            assert(100 * ((usable * w) / 100) >= usable * w - 99 && usable * w >= 0) by (nonlinear_arith)
                requires
                    usable >= 0,
                    w >= 0,
            ;
            assert(usable * (p + w) == usable * p + usable * w) by (nonlinear_arith);
        }
    }
}

/// Tiled widths over 100 run off the right edge instead of overlapping: when
/// the tiled columns before the last one already take more than 100 percent,
/// the last tiled slot starts past the right edge of the work area minus one
/// gap and is left with a negative width. This holds whenever the overflow is
/// at least a pixel per earlier tiled column, so that rounding the shares down
/// cannot swallow it.
pub proof fn law_overfull_row_runs_off_the_right_edge(
    cols: Seq<Column>,
    area: (i32, i32, i32, i32),
    gap: i32,
)
    requires
        last_tiled(cols) >= 0,
        usable_width(cols, area, gap) >= 0,
        forall|i: int|
            0 <= i < cols.len() && is_tiled(#[trigger] cols[i]) ==> cols[i].width_percent <= 0x7fff_ffff,
        usable_width(cols, area, gap) * (tiled_percent_sum(cols.take(last_tiled(cols))) - 100) > 99
            * tiled_count(cols.take(last_tiled(cols))),
    ensures
        slot_x(cols, last_tiled(cols), area, gap) > area.2 - gap,
        slot_width(cols, last_tiled(cols), area, gap) < 0,
{
    let k = last_tiled(cols);
    let usable = usable_width(cols, area, gap);
    let front = cols.take(k);
    law_last_tiled_slot_absorbs_the_rest(cols, area, gap);
    law_last_tiled_slot_reaches_right_edge(cols, area, gap);
    lemma_last_tiled(cols);
    assert forall|i: int| 0 <= i < front.len() && is_tiled(#[trigger] front[i]) implies front[i].width_percent
        <= 0x7fff_ffff by {
        assert(front[i] == cols[i]);
    }
    lemma_share_sum_lower_bound(front, usable);
    let p = tiled_percent_sum(front);
    assert(usable * p - 100 * usable == usable * (p - 100)) by (nonlinear_arith);
    assert(100 * (usable - tiled_share_sum(front, usable)) < 0);
}

/// Every slot spans the height of the work area, minus one gap above and one
/// below, wherever the work area sits (a monitor above or below the primary
/// has a negative or a positive top): it starts one gap below the top edge and
/// ends one gap above the bottom edge.
pub proof fn law_slots_span_the_work_area_height(
    s: LayoutSlot,
    cols: Seq<Column>,
    i: int,
    area: (i32, i32, i32, i32),
    gap: i32,
)
    requires
        slot_is(s, cols, i, area, gap),
    ensures
        s.y == area.1 + gap,
        s.height == (area.3 - area.1) - 2 * gap,
        s.y + s.height == area.3 - gap,
{
}

/// The tiled columns of `cols`, in order, without the absolute ones.
pub open spec fn tiled_only(cols: Seq<Column>) -> Seq<Column>
    decreases cols.len(),
{
    if cols.len() == 0 {
        Seq::empty()
    } else if is_tiled(cols.last()) {
        tiled_only(cols.drop_last()).push(cols.last())
    } else {
        tiled_only(cols.drop_last())
    }
}

proof fn lemma_tiled_only_basics(cols: Seq<Column>, usable: int, left: int, gap: int)
    ensures
        tiled_only(cols).len() == tiled_count(cols),
        tiled_count(tiled_only(cols)) == tiled_count(cols),
        forall|k: int| 0 <= k < tiled_only(cols).len() ==> is_tiled(#[trigger] tiled_only(cols)[k]),
        tiled_offset(tiled_only(cols), left, gap, usable) == tiled_offset(cols, left, gap, usable),
        tiled_only(cols).len() > 0 ==> last_tiled(tiled_only(cols)) == tiled_only(cols).len() - 1,
    decreases cols.len(),
{
    if cols.len() > 0 {
        let rest = cols.drop_last();
        lemma_tiled_only_basics(rest, usable, left, gap);
        if is_tiled(cols.last()) {
            let t = tiled_only(cols);
            assert(t.drop_last() =~= tiled_only(rest));
        }
    }
}

/// The tiled columns of a prefix are a prefix of the tiled columns.
proof fn lemma_tiled_only_prefix(cols: Seq<Column>, j: int)
    requires
        0 <= j <= cols.len(),
    ensures
        tiled_only(cols).take(tiled_count(cols.take(j)) as int) == tiled_only(cols.take(j)),
    decreases cols.len(),
{
    lemma_tiled_only_basics(cols, 0, 0, 0);
    if j == cols.len() {
        assert(cols.take(j) =~= cols);
        assert(tiled_only(cols).take(tiled_count(cols) as int) =~= tiled_only(cols));
    } else {
        let rest = cols.drop_last();
        assert(cols.take(j) =~= rest.take(j));
        lemma_tiled_only_prefix(rest, j);
        lemma_prefix(rest, j);
        lemma_tiled_only_basics(rest, 0, 0, 0);
        let m = tiled_count(rest.take(j)) as int;
        assert(tiled_only(cols).take(m) =~= tiled_only(rest).take(m));
    }
}

/// Absolute columns do not disturb their tiled neighbours: each tiled column
/// gets exactly the slot it would get if the layout held its tiled columns
/// alone.
pub proof fn law_absolute_columns_do_not_disturb_tiled(
    cols: Seq<Column>,
    area: (i32, i32, i32, i32),
    gap: i32,
    i: int,
)
    requires
        0 <= i < cols.len(),
        is_tiled(cols[i]),
    ensures
        tiled_only(cols)[tiled_count(cols.take(i)) as int] == cols[i],
        slot_x(tiled_only(cols), tiled_count(cols.take(i)) as int, area, gap) == slot_x(cols, i, area, gap),
        slot_width(tiled_only(cols), tiled_count(cols.take(i)) as int, area, gap) == slot_width(
            cols,
            i,
            area,
            gap,
        ),
{
    let t = tiled_only(cols);
    let k = tiled_count(cols.take(i)) as int;
    let usable = usable_width(cols, area, gap);
    lemma_tiled_only_basics(cols, usable, area.0 as int, gap as int);
    lemma_tiled_only_basics(cols.take(i), usable, area.0 as int, gap as int);
    lemma_tiled_only_prefix(cols, i);
    lemma_tiled_only_prefix(cols, i + 1);
    lemma_share_step(cols, i, usable);
    lemma_prefix(cols, i + 1);
    lemma_prefix(cols, i);
    lemma_last_tiled(cols);
    assert(cols.take(i + 1).drop_last() =~= cols.take(i));
    assert(tiled_only(cols.take(i + 1)) == tiled_only(cols.take(i)).push(cols[i]));
    assert(t.take(k + 1)[k] == t[k]);
    assert(usable_width(t, area, gap) == usable);
    assert(t.take(k) == tiled_only(cols.take(i)));
    assert(i == last_tiled(cols) <==> k == last_tiled(t));
}

} // verus!
