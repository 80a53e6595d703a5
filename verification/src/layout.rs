//! The column-width allocation algorithm.
//!
//! A fixed catalog of process-table columns carries two orderings: a
//! preference order (the order in which columns are greedily admitted
//! while space remains) and a display order (the fixed left-to-right
//! arrangement of the emitted columns). Exactly one column, the
//! command-line column, is expandable: its fixed width is zero, it has
//! top preference so it is always chosen, and every unit of space left
//! over after the greedy pass folds back into it.

use crate::numfmt::dec_seq;
use crate::numfmt::u64_to_string;
use vstd::prelude::*;

verus! {

/// Number of columns in the catalog.
pub const COL_COUNT: usize = 12;

/// The name of the catalog column at preference position `i`.
pub open spec fn col_name(i: int) -> Seq<char> {
    if i == 0 {
        "args"@
    } else if i == 1 {
        "pid"@
    } else if i == 2 {
        "stat"@
    } else if i == 3 {
        "nice"@
    } else if i == 4 {
        "%mem"@
    } else if i == 5 {
        "euser"@
    } else if i == 6 {
        "tname"@
    } else if i == 7 {
        "start_time"@
    } else if i == 8 {
        "psr"@
    } else if i == 9 {
        "cputime"@
    } else if i == 10 {
        "egroup"@
    } else {
        "pgid"@
    }
}

/// The fixed width of the catalog column at preference position `i`;
/// zero for the expandable column.
pub open spec fn col_width(i: int) -> int {
    if i == 0 {
        0
    } else if i == 1 {
        5
    } else if i == 2 {
        4
    } else if i == 3 {
        3
    } else if i == 4 {
        4
    } else if i == 5 {
        8
    } else if i == 6 {
        6
    } else if i == 7 {
        5
    } else if i == 8 {
        3
    } else if i == 9 {
        8
    } else if i == 10 {
        8
    } else {
        5
    }
}

/// The preference positions of the catalog columns listed in display
/// order, left to right.
pub open spec fn display_seq() -> Seq<int> {
    seq![1int, 11, 0, 8, 2, 3, 4, 9, 7, 6, 5, 10]
}

/// The display rank of the column at preference position `i`: its place
/// in the fixed left-to-right arrangement.
pub open spec fn display_rank(i: int) -> int {
    if i == 0 {
        2
    } else if i == 1 {
        0
    } else if i == 2 {
        4
    } else if i == 3 {
        5
    } else if i == 4 {
        6
    } else if i == 5 {
        10
    } else if i == 6 {
        9
    } else if i == 7 {
        8
    } else if i == 8 {
        3
    } else if i == 9 {
        7
    } else if i == 10 {
        11
    } else {
        1
    }
}

/// The space pool the greedy pass starts from: one more than the width
/// not reserved for the expandable column, clamped at zero so that an
/// undersized terminal can never drive the pool negative.
pub open spec fn initial_space(total: int, reserve: int) -> int {
    if total + 1 - reserve >= 0 {
        total + 1 - reserve
    } else {
        0
    }
}

/// The pool after the expandable column is admitted: it is always
/// admitted, and uses one unit for its separator when one is available.
pub open spec fn space_after_expandable(total: int, reserve: int) -> int {
    let s = initial_space(total, reserve);
    if s >= 1 {
        s - 1
    } else {
        0
    }
}

/// The space pool remaining when the greedy pass reaches preference
/// position `i` (for `1 <= i <= COL_COUNT`), having admitted every
/// earlier column whose fixed width fit strictly below the pool.
pub open spec fn space_before(i: int, total: int, reserve: int) -> int
    decreases i,
{
    if i <= 1 {
        space_after_expandable(total, reserve)
    } else {
        let prev = space_before(i - 1, total, reserve);
        if prev > col_width(i - 1) {
            prev - (col_width(i - 1) + 1)
        } else {
            prev
        }
    }
}

/// Whether the column at preference position `i` is selected for the
/// plan. The expandable column always is; a fixed column is selected
/// exactly when its width is strictly below the pool remaining when the
/// greedy pass reaches it.
pub open spec fn is_selected(i: int, total: int, reserve: int) -> bool {
    if i == 0 {
        true
    } else {
        space_before(i, total, reserve) > col_width(i)
    }
}

/// The space left over once the greedy pass has walked the whole
/// catalog; it folds back into the expandable column.
pub open spec fn leftover(total: int, reserve: int) -> int {
    space_before(COL_COUNT as int, total, reserve)
}

/// The width the plan resolves for the column at preference position
/// `i`: the reserve plus all leftover space for the expandable column,
/// the catalog's fixed width for every other column.
pub open spec fn resolved_width(i: int, total: int, reserve: int) -> int {
    if i == 0 {
        reserve + leftover(total, reserve)
    } else {
        col_width(i)
    }
}

/// The plan entries drawn from the first `k` display positions:
/// `(preference position, resolved width)` pairs for the selected
/// columns, in display order.
pub open spec fn plan_prefix(k: int, total: int, reserve: int) -> Seq<(int, int)>
    decreases k,
{
    if k <= 0 {
        Seq::empty()
    } else {
        let rest = plan_prefix(k - 1, total, reserve);
        let i = display_seq()[k - 1];
        if is_selected(i, total, reserve) {
            rest.push((i, resolved_width(i, total, reserve)))
        } else {
            rest
        }
    }
}

/// The full layout plan for a target width and an expandable-column
/// reserve: the selected columns with their resolved widths, in display
/// order.
pub open spec fn spec_plan(total: int, reserve: int) -> Seq<(int, int)> {
    plan_prefix(COL_COUNT as int, total, reserve)
}

/// One resolved column of a layout plan: the preference position of a
/// catalog column together with the width the plan gives it.
pub struct PlanEntry {
    /// Preference position of the column in the catalog.
    pub col: usize,
    /// Resolved width of the column.
    pub width: u32,
}

/// The mathematical value of a sequence of plan entries.
pub open spec fn plan_view(p: Seq<PlanEntry>) -> Seq<(int, int)> {
    p.map_values(|e: PlanEntry| (e.col as int, e.width as int))
}

/// The space pool never grows as the greedy pass advances, and never
/// goes negative.
pub proof fn lemma_space_bounds(i: int, total: int, reserve: int)
    requires
        1 <= i,
    ensures
        0 <= space_before(i, total, reserve) <= space_after_expandable(total, reserve),
    decreases i,
{
    if i > 1 {
        lemma_space_bounds(i - 1, total, reserve);
    }
}

/// The display span of a plan: the sum over its entries of the resolved
/// width plus the one-column separator each entry costs.
pub open spec fn plan_sum(p: Seq<(int, int)>) -> int
    decreases p.len(),
{
    if p.len() == 0 {
        0
    } else {
        plan_sum(p.drop_last()) + p.last().1 + 1
    }
}

/// The span one catalog position contributes to the plan: its resolved
/// width plus a separator if it is selected, nothing otherwise.
spec fn span_if_selected(i: int, total: int, reserve: int) -> int {
    if is_selected(i, total, reserve) {
        resolved_width(i, total, reserve) + 1
    } else {
        0
    }
}

/// The span contributed by the selected fixed columns among preference
/// positions `1 .. i`.
spec fn pref_sum(i: int, total: int, reserve: int) -> int
    decreases i,
{
    if i <= 1 {
        0
    } else {
        pref_sum(i - 1, total, reserve) + span_if_selected(i - 1, total, reserve)
    }
}

/// The span contributed by the selected columns among preference
/// positions `0 .. i`.
spec fn catalog_sum(i: int, total: int, reserve: int) -> int
    decreases i,
{
    if i <= 0 {
        0
    } else {
        catalog_sum(i - 1, total, reserve) + span_if_selected(i - 1, total, reserve)
    }
}

/// The span contributed by the selected columns among the first `k`
/// display positions.
spec fn display_sum(k: int, total: int, reserve: int) -> int
    decreases k,
{
    if k <= 0 {
        0
    } else {
        display_sum(k - 1, total, reserve) + span_if_selected(
            display_seq()[k - 1],
            total,
            reserve,
        )
    }
}

proof fn lemma_plan_sum_push(p: Seq<(int, int)>, e: (int, int))
    ensures
        plan_sum(p.push(e)) == plan_sum(p) + e.1 + 1,
{
    assert(p.push(e).drop_last() =~= p);
    assert(p.push(e).last() == e);
}

proof fn lemma_plan_sum_prefix(k: int, total: int, reserve: int)
    requires
        0 <= k,
    ensures
        plan_sum(plan_prefix(k, total, reserve)) == display_sum(k, total, reserve),
    decreases k,
{
    if k > 0 {
        lemma_plan_sum_prefix(k - 1, total, reserve);
        let i = display_seq()[k - 1];
        if is_selected(i, total, reserve) {
            lemma_plan_sum_push(
                plan_prefix(k - 1, total, reserve),
                (i, resolved_width(i, total, reserve)),
            );
        }
    }
}

proof fn lemma_space_pref_sum(i: int, total: int, reserve: int)
    requires
        1 <= i,
    ensures
        space_before(i, total, reserve) == space_after_expandable(total, reserve) - pref_sum(
            i,
            total,
            reserve,
        ),
    decreases i,
{
    if i > 1 {
        lemma_space_pref_sum(i - 1, total, reserve);
    }
}

proof fn lemma_catalog_pref_sum(i: int, total: int, reserve: int)
    requires
        1 <= i,
    ensures
        catalog_sum(i, total, reserve) == resolved_width(0, total, reserve) + 1 + pref_sum(
            i,
            total,
            reserve,
        ),
    decreases i,
{
    if i > 1 {
        lemma_catalog_pref_sum(i - 1, total, reserve);
    } else {
        assert(catalog_sum(0, total, reserve) == 0);
        assert(pref_sum(1, total, reserve) == 0);
        assert(is_selected(0, total, reserve));
    }
}

proof fn lemma_sums_agree(total: int, reserve: int)
    ensures
        display_sum(COL_COUNT as int, total, reserve) == catalog_sum(
            COL_COUNT as int,
            total,
            reserve,
        ),
{
    let t = total;
    let r = reserve;
    assert(display_sum(0, t, r) == 0);
    assert(catalog_sum(0, t, r) == 0);
    assert(display_seq()[0] == 1);
    assert(display_seq()[1] == 11);
    assert(display_seq()[2] == 0);
    assert(display_seq()[3] == 8);
    assert(display_seq()[4] == 2);
    assert(display_seq()[5] == 3);
    assert(display_seq()[6] == 4);
    assert(display_seq()[7] == 9);
    assert(display_seq()[8] == 7);
    assert(display_seq()[9] == 6);
    assert(display_seq()[10] == 5);
    assert(display_seq()[11] == 10);
    assert(display_sum(1, t, r) == span_if_selected(1, t, r));
    assert(display_sum(2, t, r) == display_sum(1, t, r) + span_if_selected(11, t, r));
    assert(display_sum(3, t, r) == display_sum(2, t, r) + span_if_selected(0, t, r));
    assert(display_sum(4, t, r) == display_sum(3, t, r) + span_if_selected(8, t, r));
    assert(display_sum(5, t, r) == display_sum(4, t, r) + span_if_selected(2, t, r));
    assert(display_sum(6, t, r) == display_sum(5, t, r) + span_if_selected(3, t, r));
    assert(display_sum(7, t, r) == display_sum(6, t, r) + span_if_selected(4, t, r));
    assert(display_sum(8, t, r) == display_sum(7, t, r) + span_if_selected(9, t, r));
    assert(display_sum(9, t, r) == display_sum(8, t, r) + span_if_selected(7, t, r));
    assert(display_sum(10, t, r) == display_sum(9, t, r) + span_if_selected(6, t, r));
    assert(display_sum(11, t, r) == display_sum(10, t, r) + span_if_selected(5, t, r));
    assert(display_sum(12, t, r) == display_sum(11, t, r) + span_if_selected(10, t, r));
    assert(catalog_sum(1, t, r) == span_if_selected(0, t, r));
    assert(catalog_sum(2, t, r) == catalog_sum(1, t, r) + span_if_selected(1, t, r));
    assert(catalog_sum(3, t, r) == catalog_sum(2, t, r) + span_if_selected(2, t, r));
    assert(catalog_sum(4, t, r) == catalog_sum(3, t, r) + span_if_selected(3, t, r));
    assert(catalog_sum(5, t, r) == catalog_sum(4, t, r) + span_if_selected(4, t, r));
    assert(catalog_sum(6, t, r) == catalog_sum(5, t, r) + span_if_selected(5, t, r));
    assert(catalog_sum(7, t, r) == catalog_sum(6, t, r) + span_if_selected(6, t, r));
    assert(catalog_sum(8, t, r) == catalog_sum(7, t, r) + span_if_selected(7, t, r));
    assert(catalog_sum(9, t, r) == catalog_sum(8, t, r) + span_if_selected(8, t, r));
    assert(catalog_sum(10, t, r) == catalog_sum(9, t, r) + span_if_selected(9, t, r));
    assert(catalog_sum(11, t, r) == catalog_sum(10, t, r) + span_if_selected(10, t, r));
    assert(catalog_sum(12, t, r) == catalog_sum(11, t, r) + span_if_selected(11, t, r));
}

/// Law: for every target width at least as large as the reserve, space
/// is fully accounted for: the sum of `resolved_width + 1` over the
/// selected columns is exactly `total + 1` — never over- or
/// under-allocated.
pub proof fn lemma_space_fully_allocated(total: int, reserve: int)
    requires
        0 <= reserve <= total,
    ensures
        plan_sum(spec_plan(total, reserve)) == total + 1,
{
    lemma_plan_sum_prefix(COL_COUNT as int, total, reserve);
    lemma_sums_agree(total, reserve);
    lemma_catalog_pref_sum(COL_COUNT as int, total, reserve);
    lemma_space_pref_sum(COL_COUNT as int, total, reserve);
    assert(space_after_expandable(total, reserve) == total - reserve);
}

/// Law: the expandable command-line column stands in every plan, with
/// its resolved width of reserve plus leftover, however small the
/// target width is; the leftover is clamped at zero, so for any
/// nonnegative reserve the width never goes negative.
pub proof fn lemma_expandable_always_present(total: int, reserve: int)
    ensures
        exists|j: int|
            0 <= j < spec_plan(total, reserve).len() && spec_plan(total, reserve)[j] == (
                0int,
                reserve + leftover(total, reserve),
            ),
        leftover(total, reserve) >= 0,
{
    lemma_space_bounds(COL_COUNT as int, total, reserve);
    lemma_expandable_in_prefix(COL_COUNT as int, total, reserve);
    let e = (0int, reserve + leftover(total, reserve));
    let j = choose|j: int|
        0 <= j < plan_prefix(COL_COUNT as int, total, reserve).len() && plan_prefix(
            COL_COUNT as int,
            total,
            reserve,
        )[j] == e;
    assert(spec_plan(total, reserve) == plan_prefix(COL_COUNT as int, total, reserve));
    assert(0 <= j < spec_plan(total, reserve).len() && spec_plan(total, reserve)[j] == e);
}

proof fn lemma_expandable_in_prefix(k: int, total: int, reserve: int)
    requires
        3 <= k,
    ensures
        exists|j: int|
            0 <= j < plan_prefix(k, total, reserve).len() && plan_prefix(k, total, reserve)[j] == (
                0int,
                reserve + leftover(total, reserve),
            ),
    decreases k,
{
    let e = (0int, reserve + leftover(total, reserve));
    if k == 3 {
        assert(display_seq()[2] == 0);
        assert(is_selected(0, total, reserve));
        let rest = plan_prefix(2, total, reserve);
        assert(resolved_width(0, total, reserve) == reserve + leftover(total, reserve));
        assert(plan_prefix(3, total, reserve) == rest.push(e));
        let j = rest.len() as int;
        assert(rest.push(e)[j] == e);
        assert(0 <= j < plan_prefix(3, total, reserve).len() && plan_prefix(3, total, reserve)[j]
            == e);
    } else {
        lemma_expandable_in_prefix(k - 1, total, reserve);
        let rest = plan_prefix(k - 1, total, reserve);
        let j = choose|j: int| 0 <= j < rest.len() && rest[j] == e;
        let i = display_seq()[k - 1];
        if is_selected(i, total, reserve) {
            assert(plan_prefix(k, total, reserve) == rest.push(
                (i, resolved_width(i, total, reserve)),
            ));
            assert(rest.push((i, resolved_width(i, total, reserve)))[j] == e);
            assert(0 <= j < plan_prefix(k, total, reserve).len() && plan_prefix(
                k,
                total,
                reserve,
            )[j] == e);
        } else {
            assert(plan_prefix(k, total, reserve) == rest);
        }
    }
}

proof fn lemma_display_rank_of_seq(m: int)
    requires
        0 <= m < COL_COUNT as int,
    ensures
        display_rank(display_seq()[m]) == m,
{
    assert(display_seq()[0] == 1);
    assert(display_seq()[1] == 11);
    assert(display_seq()[2] == 0);
    assert(display_seq()[3] == 8);
    assert(display_seq()[4] == 2);
    assert(display_seq()[5] == 3);
    assert(display_seq()[6] == 4);
    assert(display_seq()[7] == 9);
    assert(display_seq()[8] == 7);
    assert(display_seq()[9] == 6);
    assert(display_seq()[10] == 5);
    assert(display_seq()[11] == 10);
}

proof fn lemma_prefix_ordered(k: int, total: int, reserve: int)
    requires
        0 <= k <= COL_COUNT as int,
    ensures
        forall|j: int|
            0 <= j < plan_prefix(k, total, reserve).len() ==> 0 <= #[trigger] plan_prefix(
                k,
                total,
                reserve,
            )[j].0 < COL_COUNT as int && display_rank(plan_prefix(k, total, reserve)[j].0) < k,
        forall|j1: int, j2: int|
            0 <= j1 < j2 < plan_prefix(k, total, reserve).len() ==> display_rank(
                #[trigger] plan_prefix(k, total, reserve)[j1].0,
            ) < display_rank(#[trigger] plan_prefix(k, total, reserve)[j2].0),
    decreases k,
{
    if k > 0 {
        lemma_prefix_ordered(k - 1, total, reserve);
        lemma_display_rank_of_seq(k - 1);
        let rest = plan_prefix(k - 1, total, reserve);
        let i = display_seq()[k - 1];
        if is_selected(i, total, reserve) {
            let e = (i, resolved_width(i, total, reserve));
            assert(plan_prefix(k, total, reserve) == rest.push(e));
            assert(forall|j: int| 0 <= j < rest.len() ==> rest.push(e)[j] == rest[j]);
            assert(rest.push(e)[rest.len() as int] == e);
            assert(0 <= i < COL_COUNT as int) by {
                lemma_display_seq_in_catalog(k - 1);
            }
        }
    }
}

proof fn lemma_display_seq_in_catalog(m: int)
    requires
        0 <= m < COL_COUNT as int,
    ensures
        0 <= display_seq()[m] < COL_COUNT as int,
{
    lemma_display_rank_of_seq(m);
}

/// Law: the emitted plan stands in display order — the display ranks of
/// its entries strictly increase left to right — independent of the
/// preference order that drove the selection.
pub proof fn lemma_plan_in_display_order(total: int, reserve: int)
    ensures
        forall|j: int|
            0 <= j < spec_plan(total, reserve).len() ==> 0 <= #[trigger] spec_plan(
                total,
                reserve,
            )[j].0 < COL_COUNT as int,
        forall|j1: int, j2: int|
            0 <= j1 < j2 < spec_plan(total, reserve).len() ==> display_rank(
                #[trigger] spec_plan(total, reserve)[j1].0,
            ) < display_rank(#[trigger] spec_plan(total, reserve)[j2].0),
{
    lemma_prefix_ordered(COL_COUNT as int, total, reserve);
}

/// The span of the fixed columns among preference positions `1 .. i`,
/// each with its separator, selected or not.
spec fn catalog_span_before(i: int) -> int
    decreases i,
{
    if i <= 1 {
        0
    } else {
        catalog_span_before(i - 1) + col_width(i - 1) + 1
    }
}

proof fn lemma_space_lower_bound(i: int, total: int, reserve: int)
    requires
        1 <= i,
    ensures
        space_before(i, total, reserve) >= space_after_expandable(total, reserve)
            - catalog_span_before(i),
    decreases i,
{
    if i > 1 {
        lemma_space_lower_bound(i - 1, total, reserve);
    }
}

/// Law (the provable part of selection monotonicity): increasing the
/// target width can, in general, drop a fixed column — a wider space
/// pool may admit an earlier, wider column and leave too little for a
/// later, narrower one that a narrower pool had admitted. But once the
/// target width is ample enough to admit the whole catalog, every
/// column selected at any other width is still selected.
pub proof fn lemma_selection_monotonic_when_ample(total1: int, total2: int, reserve: int)
    requires
        0 <= reserve,
        total1 <= total2,
        total2 >= reserve + 79,
    ensures
        forall|i: int|
            0 <= i < COL_COUNT as int && is_selected(i, total1, reserve) ==> is_selected(
                i,
                total2,
                reserve,
            ),
{
    assert(space_after_expandable(total2, reserve) >= 79);
    assert forall|i: int| 0 <= i < COL_COUNT as int implies is_selected(i, total2, reserve) by {
        if i >= 1 {
            lemma_space_lower_bound(i, total2, reserve);
            assert(catalog_span_before(COL_COUNT as int) == 70) by {
                assert(catalog_span_before(1) == 0);
                assert(catalog_span_before(2) == 6);
                assert(catalog_span_before(3) == 11);
                assert(catalog_span_before(4) == 15);
                assert(catalog_span_before(5) == 20);
                assert(catalog_span_before(6) == 29);
                assert(catalog_span_before(7) == 36);
                assert(catalog_span_before(8) == 42);
                assert(catalog_span_before(9) == 46);
                assert(catalog_span_before(10) == 55);
                assert(catalog_span_before(11) == 64);
                assert(catalog_span_before(12) == 70);
            }
            lemma_catalog_span_monotone(i, COL_COUNT as int);
            assert(space_before(i, total2, reserve) >= 9);
            assert(col_width(i) <= 8);
        }
    }
}

proof fn lemma_catalog_span_monotone(i: int, j: int)
    requires
        1 <= i <= j,
    ensures
        catalog_span_before(i) <= catalog_span_before(j),
    decreases j,
{
    if i < j {
        lemma_catalog_span_monotone(i, j - 1);
        assert(col_width(j - 1) >= 0);
    }
}

/// The fixed width of the column at preference position `i`.
pub fn col_fixed_width(i: usize) -> (w: u32)
    requires
        i < COL_COUNT,
    ensures
        w as int == col_width(i as int),
{
    if i == 0 {
        0
    } else if i == 1 {
        5
    } else if i == 2 {
        4
    } else if i == 3 {
        3
    } else if i == 4 {
        4
    } else if i == 5 {
        8
    } else if i == 6 {
        6
    } else if i == 7 {
        5
    } else if i == 8 {
        3
    } else if i == 9 {
        8
    } else if i == 10 {
        8
    } else {
        5
    }
}

/// The name of the column at preference position `i`.
pub fn column_name(i: usize) -> (r: &'static str)
    requires
        i < COL_COUNT,
    ensures
        r@ == col_name(i as int),
{
    if i == 0 {
        "args"
    } else if i == 1 {
        "pid"
    } else if i == 2 {
        "stat"
    } else if i == 3 {
        "nice"
    } else if i == 4 {
        "%mem"
    } else if i == 5 {
        "euser"
    } else if i == 6 {
        "tname"
    } else if i == 7 {
        "start_time"
    } else if i == 8 {
        "psr"
    } else if i == 9 {
        "cputime"
    } else if i == 10 {
        "egroup"
    } else {
        "pgid"
    }
}

/// The preference position of the column shown at display position `k`.
fn display_index(k: usize) -> (i: usize)
    requires
        k < COL_COUNT,
    ensures
        i as int == display_seq()[k as int],
        i < COL_COUNT,
{
    let i: usize = if k == 0 {
        1
    } else if k == 1 {
        11
    } else if k == 2 {
        0
    } else if k == 3 {
        8
    } else if k == 4 {
        2
    } else if k == 5 {
        3
    } else if k == 6 {
        4
    } else if k == 7 {
        9
    } else if k == 8 {
        7
    } else if k == 9 {
        6
    } else if k == 10 {
        5
    } else {
        10
    };
    i
}

/// Builds the layout plan: walks the catalog in preference order to
/// decide which columns fit, folds the leftover space into the
/// expandable column, and emits the selected columns in display order.
pub fn plan(total_width: u32, reserve_for_args: u32) -> (p: Vec<PlanEntry>)
    ensures
        plan_view(p@) == spec_plan(total_width as int, reserve_for_args as int),
{
    let ghost total = total_width as int;
    let ghost reserve = reserve_for_args as int;

    // Greedy admission pass, in preference order.
    let mut space: u64 = (total_width as u64 + 1).saturating_sub(reserve_for_args as u64);
    proof {
        assert(space as int == initial_space(total, reserve));
    }
    if space >= 1 {
        space = space - 1;
    }
    proof {
        assert(space as int == space_after_expandable(total, reserve));
    }
    let mut selected: Vec<bool> = Vec::new();
    selected.push(true);
    let mut i: usize = 1;
    while i < COL_COUNT
        invariant
            1 <= i <= COL_COUNT,
            selected@.len() == i as int,
            space as int == space_before(i as int, total, reserve),
            forall|j: int| 0 <= j < i as int ==> selected@[j] == is_selected(j, total, reserve),
        decreases COL_COUNT - i,
    {
        let w = col_fixed_width(i);
        if space > w as u64 {
            space = space - (w as u64 + 1);
            selected.push(true);
        } else {
            selected.push(false);
        }
        i = i + 1;
    }

    // All leftover space folds back into the expandable column.
    proof {
        assert(space as int == leftover(total, reserve));
        lemma_space_bounds(COL_COUNT as int, total, reserve);
    }
    let expandable_width: u64 = reserve_for_args as u64 + space;
    proof {
        assert(expandable_width as int == resolved_width(0, total, reserve));
        assert(expandable_width <= u32::MAX as u64);
    }

    // Emission pass, in display order.
    let mut p: Vec<PlanEntry> = Vec::new();
    let mut k: usize = 0;
    while k < COL_COUNT
        invariant
            k <= COL_COUNT,
            selected@.len() == COL_COUNT as int,
            forall|j: int|
                0 <= j < COL_COUNT as int ==> selected@[j] == is_selected(j, total, reserve),
            expandable_width as int == resolved_width(0, total, reserve),
            expandable_width <= u32::MAX as u64,
            plan_view(p@) == plan_prefix(k as int, total, reserve),
        decreases COL_COUNT - k,
    {
        let d = display_index(k);
        let ghost p_old = p@;
        if selected[d] {
            let width: u32 = if d == 0 {
                expandable_width as u32
            } else {
                col_fixed_width(d)
            };
            let entry = PlanEntry { col: d, width };
            p.push(entry);
            proof {
                assert(p@.map_values(|e: PlanEntry| (e.col as int, e.width as int)) =~= p_old
                    .map_values(|e: PlanEntry| (e.col as int, e.width as int)).push(
                    (d as int, width as int),
                ));
            }
        }
        k = k + 1;
    }
    p
}

/// The text of one plan entry: the column name, a colon, and the
/// resolved width in decimal.
pub open spec fn entry_text(e: (int, int)) -> Seq<char> {
    col_name(e.0) + ":"@ + dec_seq(e.1)
}

/// The column specification text for a plan: the entry texts joined
/// with commas.
pub open spec fn plan_text(p: Seq<(int, int)>) -> Seq<char>
    decreases p.len(),
{
    if p.len() == 0 {
        Seq::empty()
    } else if p.len() == 1 {
        entry_text(p[0])
    } else {
        plan_text(p.drop_last()) + ","@ + entry_text(p.last())
    }
}

/// The column specification string for a target width and reserve.
pub open spec fn spec_format_string(total: int, reserve: int) -> Seq<char> {
    plan_text(spec_plan(total, reserve))
}

/// Builds the column specification string handed to the process-status
/// tool: `name:width` pairs for the planned columns, comma-joined, in
/// display order.
pub fn format_string(total_width: u32, reserve_for_args: u32) -> (r: String)
    ensures
        r@ == spec_format_string(total_width as int, reserve_for_args as int),
{
    let ghost total = total_width as int;
    let ghost reserve = reserve_for_args as int;
    let p = plan(total_width, reserve_for_args);
    proof {
        lemma_plan_in_display_order(total, reserve);
        assert forall|j: int| 0 <= j < p@.len() implies (#[trigger] p@[j]).col < COL_COUNT by {
            assert(plan_view(p@)[j] == (p@[j].col as int, p@[j].width as int));
            assert(0 <= spec_plan(total, reserve)[j].0 < COL_COUNT as int);
        }
    }
    let mut r = String::new();
    let mut idx: usize = 0;
    proof {
        assert(plan_view(p@).subrange(0, 0) =~= Seq::<(int, int)>::empty());
    }
    while idx < p.len()
        invariant
            idx <= p@.len(),
            plan_view(p@) == spec_plan(total, reserve),
            forall|j: int| 0 <= j < p@.len() ==> (#[trigger] p@[j]).col < COL_COUNT,
            r@ == plan_text(plan_view(p@).subrange(0, idx as int)),
        decreases p@.len() - idx,
    {
        let ghost v = plan_view(p@);
        let ghost r_old = r@;
        if idx > 0 {
            r.append(",");
        }
        let entry_col = p[idx].col;
        let entry_width = p[idx].width;
        r.append(column_name(entry_col));
        r.append(":");
        let digits = u64_to_string(entry_width as u64);
        r.append(digits.as_str());
        proof {
            assert(v[idx as int] == (entry_col as int, entry_width as int));
            assert(entry_text(v[idx as int]) == col_name(entry_col as int) + ":"@ + dec_seq(
                entry_width as int,
            ));
            let pre = v.subrange(0, idx as int + 1);
            assert(pre.drop_last() =~= v.subrange(0, idx as int));
            assert(pre.last() == v[idx as int]);
            if idx == 0 {
                assert(r_old == Seq::<char>::empty());
                assert(plan_text(pre) == entry_text(v[0]));
                assert(r@ =~= plan_text(pre));
            } else {
                assert(plan_text(pre) == plan_text(v.subrange(0, idx as int)) + ","@ + entry_text(
                    v[idx as int],
                ));
                assert(r@ =~= plan_text(pre));
            }
        }
        idx = idx + 1;
    }
    proof {
        assert(plan_view(p@).subrange(0, p@.len() as int) =~= plan_view(p@));
    }
    r
}

} // verus!
