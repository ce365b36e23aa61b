//! What a query over a grid of pixels is good for: which pixels it selects,
//! whatever the answers, and which it selects when the answers are true.

use crate::raster::{
    asked, depth, entry, found_after, membership, pending_after, Coverage, PixelRect,
};
use vstd::arithmetic::power2::{lemma2_to64, lemma_pow2_unfold, pow2};
use vstd::prelude::*;
use vstd::seq_lib::{lemma_no_dup_in_concat, lemma_seq_concat_contains_all_elements};

verus! {

proof fn lemma_rows_point(rect: PixelRect, n: nat, x: u32, y: u32)
    requires
        !rect.is_empty(),
        n <= rect.height(),
    ensures
        rect.rows(n).contains((x, y)) <==> rect.x0 <= x < rect.x1 && rect.y0 <= y < rect.y0 + n,
    decreases n,
{
    if n > 0 {
        let upper = rect.rows((n - 1) as nat);
        let last = (rect.y0 + n - 1) as u32;
        let row = rect.row(last);
        lemma_rows_point(rect, (n - 1) as nat, x, y);
        lemma_seq_concat_contains_all_elements(upper, row, (x, y));
        if rect.x0 <= x < rect.x1 && y == last {
            assert(row[x - rect.x0] == (x, y));
        }
    }
}

proof fn lemma_rows_no_duplicates(rect: PixelRect, n: nat)
    requires
        !rect.is_empty(),
        n <= rect.height(),
    ensures
        rect.rows(n).no_duplicates(),
    decreases n,
{
    if n > 0 {
        let upper = rect.rows((n - 1) as nat);
        let last = (rect.y0 + n - 1) as u32;
        let row = rect.row(last);
        lemma_rows_no_duplicates(rect, (n - 1) as nat);
        assert forall|i: int, j: int| 0 <= i < upper.len() && 0 <= j < row.len() implies upper[i]
            != row[j] by {
            lemma_rows_point(rect, (n - 1) as nat, upper[i].0, upper[i].1);
            assert(upper.contains(upper[i]));
        }
        lemma_no_dup_in_concat(upper, row);
    }
}

/// The pixels of a rectangle are those that lie in it.
pub proof fn lemma_pixels_point(rect: PixelRect, x: u32, y: u32)
    ensures
        rect.pixels().contains((x, y)) <==> rect.contains(x, y),
{
    if !rect.is_empty() {
        lemma_rows_point(rect, rect.height(), x, y);
    }
}

/// The pixels of a rectangle name no pixel twice.
pub proof fn lemma_pixels_no_duplicates(rect: PixelRect)
    ensures
        rect.pixels().no_duplicates(),
{
    if !rect.is_empty() {
        lemma_rows_no_duplicates(rect, rect.height());
    }
}

proof fn lemma_rows_len(rect: PixelRect, n: nat)
    requires
        !rect.is_empty(),
    ensures
        rect.rows(n).len() == n * rect.width(),
    decreases n,
{
    let w = rect.width() as int;
    if n > 0 {
        lemma_rows_len(rect, (n - 1) as nat);
        assert((n - 1) * w + w == n * w) by (nonlinear_arith);
    } else {
        assert(0 * w == 0) by (nonlinear_arith);
    }
}

/// A rectangle has as many pixels as its area says.
pub proof fn lemma_pixels_len(rect: PixelRect)
    ensures
        rect.pixels().len() == rect.area(),
{
    let w = rect.width() as int;
    let h = rect.height() as int;
    if rect.is_empty() {
        assert(w * h == 0) by (nonlinear_arith)
            requires
                w == 0 || h == 0,
        ;
    } else {
        lemma_rows_len(rect, rect.height());
        assert(h * w == w * h) by (nonlinear_arith);
    }
}

/// A rectangle that lies inside the annotation is taken whole, and the
/// question about it is the only one: no other rectangle is asked about, and
/// after the answer nothing is pending.
pub proof fn lemma_inside_is_taken_whole(oracle: spec_fn(PixelRect) -> Coverage, rect: PixelRect)
    requires
        !rect.is_empty(),
        oracle(rect) == Coverage::Inside,
    ensures
        membership(oracle, rect) == rect.pixels(),
        forall|part: PixelRect| asked(oracle, rect, part) <==> part == rect,
        pending_after(entry(rect), Coverage::Inside) == Seq::<PixelRect>::empty(),
        found_after(entry(rect), Seq::empty(), Coverage::Inside) == rect.pixels(),
{
    assert(entry(rect).drop_last() =~= Seq::<PixelRect>::empty());
    assert(Seq::<(u32, u32)>::empty() + rect.pixels() =~= rect.pixels());
}

/// A rectangle that lies outside the annotation gives no pixel, and the
/// question about it is the only one.
pub proof fn lemma_outside_is_dropped(oracle: spec_fn(PixelRect) -> Coverage, rect: PixelRect)
    requires
        !rect.is_empty(),
        oracle(rect) == Coverage::Outside,
    ensures
        membership(oracle, rect) == Seq::<(u32, u32)>::empty(),
        forall|part: PixelRect| asked(oracle, rect, part) <==> part == rect,
        pending_after(entry(rect), Coverage::Outside) == Seq::<PixelRect>::empty(),
        found_after(entry(rect), Seq::empty(), Coverage::Outside) == Seq::<(u32, u32)>::empty(),
{
    assert(entry(rect).drop_last() =~= Seq::<PixelRect>::empty());
}

/// A rectangle without a pixel gives none, whatever the answers.
pub proof fn lemma_empty_gives_nothing(oracle: spec_fn(PixelRect) -> Coverage, rect: PixelRect)
    requires
        rect.is_empty(),
    ensures
        membership(oracle, rect) == Seq::<(u32, u32)>::empty(),
{
}

proof fn lemma_quadrants_partition(rect: PixelRect, x: u32, y: u32)
    requires
        !rect.is_empty(),
    ensures
        rect.contains(x, y) <==> (rect.top_left().contains(x, y) || rect.top_right().contains(x, y)
            || rect.bottom_left().contains(x, y) || rect.bottom_right().contains(x, y)),
        !(rect.top_left().contains(x, y) && rect.top_right().contains(x, y)),
        !(rect.top_left().contains(x, y) && rect.bottom_left().contains(x, y)),
        !(rect.top_left().contains(x, y) && rect.bottom_right().contains(x, y)),
        !(rect.top_right().contains(x, y) && rect.bottom_left().contains(x, y)),
        !(rect.top_right().contains(x, y) && rect.bottom_right().contains(x, y)),
        !(rect.bottom_left().contains(x, y) && rect.bottom_right().contains(x, y)),
{
}

proof fn lemma_membership_of_quadrants(
    oracle: spec_fn(PixelRect) -> Coverage,
    rect: PixelRect,
    x: u32,
    y: u32,
)
    requires
        !rect.is_empty(),
        !rect.is_unit(),
        oracle(rect) == Coverage::Straddling,
    ensures
        membership(oracle, rect).contains((x, y)) <==> (membership(oracle, rect.top_left()).contains(
            (x, y),
        ) || membership(oracle, rect.top_right()).contains((x, y)) || membership(
            oracle,
            rect.bottom_left(),
        ).contains((x, y)) || membership(oracle, rect.bottom_right()).contains((x, y))),
{
    let a = membership(oracle, rect.top_left());
    let b = membership(oracle, rect.top_right());
    let c = membership(oracle, rect.bottom_left());
    let d = membership(oracle, rect.bottom_right());
    lemma_seq_concat_contains_all_elements(a, b, (x, y));
    lemma_seq_concat_contains_all_elements(a + b, c, (x, y));
    lemma_seq_concat_contains_all_elements(a + b + c, d, (x, y));
}

/// Whatever the answers, a query selects pixels of its rectangle only.
pub proof fn lemma_membership_within(
    oracle: spec_fn(PixelRect) -> Coverage,
    rect: PixelRect,
    x: u32,
    y: u32,
)
    requires
        membership(oracle, rect).contains((x, y)),
    ensures
        rect.contains(x, y),
    decreases rect.width() + rect.height(),
{
    if !rect.is_empty() {
        match oracle(rect) {
            Coverage::Inside => {
                lemma_pixels_point(rect, x, y);
            },
            Coverage::Outside => {},
            Coverage::Straddling => {
                if !rect.is_unit() {
                    lemma_membership_of_quadrants(oracle, rect, x, y);
                    lemma_quadrants_partition(rect, x, y);
                    if membership(oracle, rect.top_left()).contains((x, y)) {
                        lemma_membership_within(oracle, rect.top_left(), x, y);
                    } else if membership(oracle, rect.top_right()).contains((x, y)) {
                        lemma_membership_within(oracle, rect.top_right(), x, y);
                    } else if membership(oracle, rect.bottom_left()).contains((x, y)) {
                        lemma_membership_within(oracle, rect.bottom_left(), x, y);
                    } else {
                        lemma_membership_within(oracle, rect.bottom_right(), x, y);
                    }
                }
            },
        }
    }
}

proof fn lemma_disjoint_parts(
    oracle: spec_fn(PixelRect) -> Coverage,
    rect: PixelRect,
    first: PixelRect,
    second: PixelRect,
)
    requires
        !rect.is_empty(),
        forall|x: u32, y: u32| !(first.contains(x, y) && second.contains(x, y)),
    ensures
        forall|i: int, j: int|
            0 <= i < membership(oracle, first).len() && 0 <= j < membership(oracle, second).len()
                ==> membership(oracle, first)[i] != membership(oracle, second)[j],
{
    let a = membership(oracle, first);
    let b = membership(oracle, second);
    assert forall|i: int, j: int| 0 <= i < a.len() && 0 <= j < b.len() implies a[i] != b[j] by {
        assert(a.contains(a[i]));
        assert(b.contains(b[j]));
        lemma_membership_within(oracle, first, a[i].0, a[i].1);
        lemma_membership_within(oracle, second, b[j].0, b[j].1);
    }
}

/// Whatever the answers, a query selects no pixel twice.
pub proof fn lemma_membership_no_duplicates(oracle: spec_fn(PixelRect) -> Coverage, rect: PixelRect)
    ensures
        membership(oracle, rect).no_duplicates(),
    decreases rect.width() + rect.height(),
{
    if !rect.is_empty() {
        match oracle(rect) {
            Coverage::Inside => {
                lemma_pixels_no_duplicates(rect);
            },
            Coverage::Outside => {},
            Coverage::Straddling => {
                if !rect.is_unit() {
                    let a = membership(oracle, rect.top_left());
                    let b = membership(oracle, rect.top_right());
                    let c = membership(oracle, rect.bottom_left());
                    let d = membership(oracle, rect.bottom_right());
                    lemma_membership_no_duplicates(oracle, rect.top_left());
                    lemma_membership_no_duplicates(oracle, rect.top_right());
                    lemma_membership_no_duplicates(oracle, rect.bottom_left());
                    lemma_membership_no_duplicates(oracle, rect.bottom_right());
                    assert forall|x: u32, y: u32|
                        !(rect.top_left().contains(x, y) && rect.top_right().contains(x, y))
                            && !(rect.top_left().contains(x, y) && rect.bottom_left().contains(x, y))
                            && !(rect.top_left().contains(x, y) && rect.bottom_right().contains(
                            x,
                            y,
                        )) && !(rect.top_right().contains(x, y) && rect.bottom_left().contains(x, y))
                            && !(rect.top_right().contains(x, y) && rect.bottom_right().contains(
                            x,
                            y,
                        )) && !(rect.bottom_left().contains(x, y) && rect.bottom_right().contains(
                            x,
                            y,
                        )) by {
                        lemma_quadrants_partition(rect, x, y);
                    }
                    lemma_disjoint_parts(oracle, rect, rect.top_left(), rect.top_right());
                    lemma_disjoint_parts(oracle, rect, rect.top_left(), rect.bottom_left());
                    lemma_disjoint_parts(oracle, rect, rect.top_left(), rect.bottom_right());
                    lemma_disjoint_parts(oracle, rect, rect.top_right(), rect.bottom_left());
                    lemma_disjoint_parts(oracle, rect, rect.top_right(), rect.bottom_right());
                    lemma_disjoint_parts(oracle, rect, rect.bottom_left(), rect.bottom_right());
                    lemma_no_dup_in_concat(a, b);
                    assert forall|i: int, j: int| 0 <= i < (a + b).len() && 0 <= j < c.len() implies (
                    a + b)[i] != c[j] by {
                        if i < a.len() {
                            assert((a + b)[i] == a[i]);
                        } else {
                            assert((a + b)[i] == b[i - a.len()]);
                        }
                    }
                    lemma_no_dup_in_concat(a + b, c);
                    assert forall|i: int, j: int|
                        0 <= i < (a + b + c).len() && 0 <= j < d.len() implies (a + b + c)[i]
                        != d[j] by {
                        if i < a.len() {
                            assert((a + b + c)[i] == a[i]);
                        } else if i < a.len() + b.len() {
                            assert((a + b + c)[i] == b[i - a.len()]);
                        } else {
                            assert((a + b + c)[i] == c[i - a.len() - b.len()]);
                        }
                    }
                    lemma_no_dup_in_concat(a + b + c, d);
                }
            },
        }
    }
}

/// The answer `coverage` about `rect` is true of the pixels that `covered`
/// names: `Inside` only where all its pixels are covered, `Outside` only
/// where none is, and `Straddling` of a single pixel only where that pixel is
/// not covered.
pub open spec fn true_of(
    coverage: Coverage,
    covered: spec_fn(u32, u32) -> bool,
    rect: PixelRect,
) -> bool {
    match coverage {
        Coverage::Inside => forall|x: u32, y: u32| #[trigger] rect.contains(x, y) ==> covered(x, y),
        Coverage::Outside => forall|x: u32, y: u32|
            #[trigger] rect.contains(x, y) ==> !covered(x, y),
        Coverage::Straddling => rect.is_unit() ==> !covered(rect.x0, rect.y0),
    }
}

/// The answers are true of every rectangle about which a query over `rect`
/// asks.
pub open spec fn faithful(
    oracle: spec_fn(PixelRect) -> Coverage,
    covered: spec_fn(u32, u32) -> bool,
    rect: PixelRect,
) -> bool {
    forall|part: PixelRect| #[trigger]
        asked(oracle, rect, part) ==> true_of(oracle(part), covered, part)
}

proof fn lemma_faithful_on_quadrants(
    oracle: spec_fn(PixelRect) -> Coverage,
    covered: spec_fn(u32, u32) -> bool,
    rect: PixelRect,
)
    requires
        faithful(oracle, covered, rect),
        !rect.is_empty(),
        !rect.is_unit(),
        oracle(rect) == Coverage::Straddling,
    ensures
        faithful(oracle, covered, rect.top_left()),
        faithful(oracle, covered, rect.top_right()),
        faithful(oracle, covered, rect.bottom_left()),
        faithful(oracle, covered, rect.bottom_right()),
{
    assert forall|part: PixelRect| #[trigger]
        asked(oracle, rect.top_left(), part) implies true_of(oracle(part), covered, part) by {
        assert(asked(oracle, rect, part));
    }
    assert forall|part: PixelRect| #[trigger]
        asked(oracle, rect.top_right(), part) implies true_of(oracle(part), covered, part) by {
        assert(asked(oracle, rect, part));
    }
    assert forall|part: PixelRect| #[trigger]
        asked(oracle, rect.bottom_left(), part) implies true_of(oracle(part), covered, part) by {
        assert(asked(oracle, rect, part));
    }
    assert forall|part: PixelRect| #[trigger]
        asked(oracle, rect.bottom_right(), part) implies true_of(oracle(part), covered, part) by {
        assert(asked(oracle, rect, part));
    }
}

/// With true answers a query selects exactly the covered pixels of its
/// rectangle: a pixel is selected if and only if it lies in the rectangle
/// and is covered.
pub proof fn lemma_membership_exact(
    oracle: spec_fn(PixelRect) -> Coverage,
    covered: spec_fn(u32, u32) -> bool,
    rect: PixelRect,
    x: u32,
    y: u32,
)
    requires
        faithful(oracle, covered, rect),
    ensures
        membership(oracle, rect).contains((x, y)) <==> rect.contains(x, y) && covered(x, y),
    decreases rect.width() + rect.height(),
{
    if !rect.is_empty() {
        assert(asked(oracle, rect, rect));
        assert(true_of(oracle(rect), covered, rect));
        match oracle(rect) {
            Coverage::Inside => {
                lemma_pixels_point(rect, x, y);
            },
            Coverage::Outside => {},
            Coverage::Straddling => {
                if !rect.is_unit() {
                    lemma_membership_of_quadrants(oracle, rect, x, y);
                    lemma_quadrants_partition(rect, x, y);
                    lemma_faithful_on_quadrants(oracle, covered, rect);
                    lemma_membership_exact(oracle, covered, rect.top_left(), x, y);
                    lemma_membership_exact(oracle, covered, rect.top_right(), x, y);
                    lemma_membership_exact(oracle, covered, rect.bottom_left(), x, y);
                    lemma_membership_exact(oracle, covered, rect.bottom_right(), x, y);
                }
            },
        }
    }
}

/// A query asks only about rectangles that hold a pixel and lie in its own.
pub proof fn lemma_asked_lies_within(
    oracle: spec_fn(PixelRect) -> Coverage,
    rect: PixelRect,
    part: PixelRect,
)
    requires
        asked(oracle, rect, part),
    ensures
        !part.is_empty(),
        rect.encloses(part),
    decreases rect.width() + rect.height(),
{
    if part != rect {
        if asked(oracle, rect.top_left(), part) {
            lemma_asked_lies_within(oracle, rect.top_left(), part);
        } else if asked(oracle, rect.top_right(), part) {
            lemma_asked_lies_within(oracle, rect.top_right(), part);
        } else if asked(oracle, rect.bottom_left(), part) {
            lemma_asked_lies_within(oracle, rect.bottom_left(), part);
        } else {
            lemma_asked_lies_within(oracle, rect.bottom_right(), part);
        }
    }
}

/// What a query selects depends on the answers to its own questions only:
/// two oracles that agree on every rectangle about which the query asks the
/// first of them give the same pixels, in the same order.
pub proof fn lemma_membership_reads_answers_asked_for(
    first: spec_fn(PixelRect) -> Coverage,
    second: spec_fn(PixelRect) -> Coverage,
    rect: PixelRect,
)
    requires
        forall|part: PixelRect| #[trigger] asked(first, rect, part) ==> first(part) == second(part),
    ensures
        membership(first, rect) == membership(second, rect),
    decreases rect.width() + rect.height(),
{
    if !rect.is_empty() {
        assert(asked(first, rect, rect));
        if first(rect) == Coverage::Straddling && !rect.is_unit() {
            assert forall|part: PixelRect| #[trigger]
                asked(first, rect.top_left(), part) implies first(part) == second(part) by {
                assert(asked(first, rect, part));
            }
            assert forall|part: PixelRect| #[trigger]
                asked(first, rect.top_right(), part) implies first(part) == second(part) by {
                assert(asked(first, rect, part));
            }
            assert forall|part: PixelRect| #[trigger]
                asked(first, rect.bottom_left(), part) implies first(part) == second(part) by {
                assert(asked(first, rect, part));
            }
            assert forall|part: PixelRect| #[trigger]
                asked(first, rect.bottom_right(), part) implies first(part) == second(part) by {
                assert(asked(first, rect, part));
            }
            lemma_membership_reads_answers_asked_for(first, second, rect.top_left());
            lemma_membership_reads_answers_asked_for(first, second, rect.top_right());
            lemma_membership_reads_answers_asked_for(first, second, rect.bottom_left());
            lemma_membership_reads_answers_asked_for(first, second, rect.bottom_right());
        }
    }
}

/// Every cut halves a rectangle both ways, the larger half rounded up: a
/// rectangle that is not wider and not higher than two to the power of `k`
/// pixels is cut `k` deep at most.
pub proof fn lemma_depth_within_power_of_two(
    oracle: spec_fn(PixelRect) -> Coverage,
    rect: PixelRect,
    k: nat,
)
    requires
        rect.width() <= pow2(k),
        rect.height() <= pow2(k),
    ensures
        depth(oracle, rect) <= k,
    decreases rect.width() + rect.height(),
{
    if !(rect.is_empty() || rect.is_unit() || oracle(rect) != Coverage::Straddling) {
        if k == 0 {
            lemma2_to64();
            assert(false);
        } else {
            lemma_pow2_unfold(k);
            let below = (k - 1) as nat;
            lemma_depth_within_power_of_two(oracle, rect.top_left(), below);
            lemma_depth_within_power_of_two(oracle, rect.top_right(), below);
            lemma_depth_within_power_of_two(oracle, rect.bottom_left(), below);
            lemma_depth_within_power_of_two(oracle, rect.bottom_right(), below);
        }
    }
}

/// No query cuts deeper than 32 times, whatever the answers.
pub proof fn lemma_depth_at_most_32(oracle: spec_fn(PixelRect) -> Coverage, rect: PixelRect)
    ensures
        depth(oracle, rect) <= 32,
{
    lemma2_to64();
    lemma_depth_within_power_of_two(oracle, rect, 32);
}

} // verus!
