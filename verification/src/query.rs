//! A whole query in one call, for a caller who can answer on the spot.

use crate::raster::{
    asked, entry, flush, membership, pending_after, split, Coverage,
    MembershipError, PixelMembership, PixelRect, TransformCheck,
};
use crate::raster_laws::{faithful, lemma_asked_lies_within, lemma_membership_exact, true_of};
use vstd::prelude::*;

verus! {

/// The two rectangles share no pixel.
spec fn disjoint(a: PixelRect, b: PixelRect) -> bool {
    a.x1 <= b.x0 || b.x1 <= a.x0 || a.y1 <= b.y0 || b.y1 <= a.y0
}

/// `inner` lies in `outer` and is not all of it.
spec fn strictly_inside(inner: PixelRect, outer: PixelRect) -> bool {
    &&& outer.x0 <= inner.x0
    &&& inner.x1 <= outer.x1
    &&& outer.y0 <= inner.y0
    &&& inner.y1 <= outer.y1
    &&& inner != outer
}

/// `answers` holds, for every rectangle about which a query over `rect`
/// asks, an answer that `oracle` can give to that question.
pub open spec fn answers_of<F: Fn(PixelRect) -> Coverage>(
    oracle: F,
    answers: spec_fn(PixelRect) -> Coverage,
    rect: PixelRect,
) -> bool {
    forall|part: PixelRect| #[trigger]
        asked(answers, rect, part) ==> call_ensures(oracle, (part,), answers(part))
}

/// `pixels` is what a query over `rect` selects on answers that `oracle` can
/// give.
pub open spec fn selected_by<F: Fn(PixelRect) -> Coverage>(
    oracle: F,
    rect: PixelRect,
    pixels: Seq<(u32, u32)>,
) -> bool {
    exists|answers: spec_fn(PixelRect) -> Coverage|
        #[trigger] answers_of(oracle, answers, rect) && pixels == membership(answers, rect)
}

/// The answers given so far are all that `answers` has to agree with.
spec fn agrees(answers: spec_fn(PixelRect) -> Coverage, given: Map<PixelRect, Coverage>) -> bool {
    forall|part: PixelRect| given.dom().contains(part) ==> #[trigger] answers(part) == given[part]
}

/// What the loop of a query keeps true of the rectangles on its stack and
/// the rectangles that it has asked about: the first hold a pixel each, lie
/// in the rectangle of the query and share no pixel with each other; and
/// each of them either lies strictly inside one of the second or shares no
/// pixel with it.
spec fn orderly(rect: PixelRect, pending: Seq<PixelRect>, given: Map<PixelRect, Coverage>) -> bool {
    &&& forall|i: int|
        0 <= i < pending.len() ==> !(#[trigger] pending[i]).is_empty() && rect.encloses(pending[i])
    &&& forall|i: int, j: int|
        0 <= i < j < pending.len() ==> disjoint(#[trigger] pending[i], #[trigger] pending[j])
    &&& forall|i: int, earlier: PixelRect|
        0 <= i < pending.len() && #[trigger] given.dom().contains(earlier) ==> disjoint(
            #[trigger] pending[i],
            earlier,
        ) || strictly_inside(pending[i], earlier)
}

/// A query over one of the rectangles of `stack` asks about `part`.
spec fn asked_in(
    answers: spec_fn(PixelRect) -> Coverage,
    stack: Seq<PixelRect>,
    part: PixelRect,
) -> bool {
    exists|i: int| 0 <= i < stack.len() && asked(answers, #[trigger] stack[i], part)
}

/// Every quadrant that holds a pixel is among those that take the place of
/// a rectangle of more than one pixel.
proof fn lemma_split_holds_quadrants(rect: PixelRect, quadrant: PixelRect)
    requires
        !rect.is_empty(),
        !rect.is_unit(),
        !quadrant.is_empty(),
        quadrant == rect.top_left() || quadrant == rect.top_right() || quadrant
            == rect.bottom_left() || quadrant == rect.bottom_right(),
    ensures
        exists|k: int| 0 <= k < split(rect).len() && #[trigger] split(rect)[k] == quadrant,
{
    let a = entry(rect.bottom_right());
    let b = entry(rect.bottom_left());
    let c = entry(rect.top_right());
    let d = entry(rect.top_left());
    let parts = split(rect);
    assert(parts =~= a + b + c + d);
    if quadrant == rect.bottom_right() {
        assert(parts[0] == quadrant);
    } else if quadrant == rect.bottom_left() {
        assert(parts[a.len() as int] == quadrant);
    } else if quadrant == rect.top_right() {
        assert(parts[(a.len() + b.len()) as int] == quadrant);
    } else {
        assert(parts[(a.len() + b.len() + c.len()) as int] == quadrant);
    }
}

/// What the stack asks about before an answer, it asks about after it,
/// but for the rectangle that the answer was for.
proof fn lemma_asked_after(
    answers: spec_fn(PixelRect) -> Coverage,
    stack: Seq<PixelRect>,
    coverage: Coverage,
    part: PixelRect,
)
    requires
        stack.len() > 0,
        answers(stack.last()) == coverage,
        asked_in(answers, stack, part),
    ensures
        part == stack.last() || asked_in(answers, pending_after(stack, coverage), part),
{
    let top = stack.last();
    let rest = stack.drop_last();
    let after = pending_after(stack, coverage);
    let i = choose|i: int| 0 <= i < stack.len() && asked(answers, #[trigger] stack[i], part);
    if i < rest.len() {
        assert(after[i] == stack[i]);
    } else if part != top {
        assert(stack[i] == top);
        let quadrant = if asked(answers, top.top_left(), part) {
            top.top_left()
        } else if asked(answers, top.top_right(), part) {
            top.top_right()
        } else if asked(answers, top.bottom_left(), part) {
            top.bottom_left()
        } else {
            top.bottom_right()
        };
        assert(asked(answers, quadrant, part));
        lemma_split_holds_quadrants(top, quadrant);
        let k = choose|k: int| 0 <= k < split(top).len() && #[trigger] split(top)[k] == quadrant;
        assert(after[rest.len() + k] == quadrant);
    }
}

/// The quadrants that take the place of a rectangle hold a pixel each, lie
/// strictly inside it, and share no pixel with each other.
proof fn lemma_split_is_orderly(rect: PixelRect)
    requires
        !rect.is_empty(),
    ensures
        forall|k: int|
            0 <= k < split(rect).len() ==> !(#[trigger] split(rect)[k]).is_empty()
                && strictly_inside(split(rect)[k], rect),
        forall|i: int, j: int|
            0 <= i < j < split(rect).len() ==> disjoint(
                #[trigger] split(rect)[i],
                #[trigger] split(rect)[j],
            ),
{
    if !rect.is_unit() {
        let a = entry(rect.bottom_right());
        let b = entry(rect.bottom_left());
        let c = entry(rect.top_right());
        let d = entry(rect.top_left());
        let parts = split(rect);
        assert(parts =~= a + b + c + d);
        assert forall|k: int| 0 <= k < parts.len() implies (parts[k] == rect.bottom_right() && k
            < a.len()) || (parts[k] == rect.bottom_left() && a.len() <= k < a.len() + b.len()) || (
        parts[k] == rect.top_right() && a.len() + b.len() <= k < a.len() + b.len() + c.len()) || (
        parts[k] == rect.top_left() && a.len() + b.len() + c.len() <= k) by {
            if k < a.len() {
                assert(parts[k] == a[k]);
            } else if k < a.len() + b.len() {
                assert(parts[k] == b[k - a.len()]);
            } else if k < a.len() + b.len() + c.len() {
                assert(parts[k] == c[k - a.len() - b.len()]);
            } else {
                assert(parts[k] == d[k - a.len() - b.len() - c.len()]);
            }
        }
    }
}

/// Runs a query over the pixels from `from` up to, not including, `to`, and
/// returns the pixels that lie under the annotation.
///
/// `oracle` says how much of a rectangle the annotation covers. It is asked
/// about the whole rectangle first, and then about the quadrants of each
/// rectangle of which it says that it straddles the rim, down to single
/// pixels. It is never asked twice about one rectangle, and never about a
/// rectangle without a pixel. A map to world space that is singular or not
/// finite is refused before anything is asked.
pub fn pixel_annotation<F: Fn(PixelRect) -> Coverage>(
    from: (u32, u32),
    to: (u32, u32),
    transform: TransformCheck,
    oracle: F,
) -> (result: Result<Vec<(u32, u32)>, MembershipError>)
    requires
        forall|part: PixelRect|
            !part.is_empty() && (PixelRect { x0: from.0, y0: from.1, x1: to.0, y1: to.1 }).encloses(
                part,
            ) ==> call_requires(oracle, (part,)),
    ensures
        match transform {
            TransformCheck::Regular => result matches Ok(pixels) && selected_by(
                oracle,
                PixelRect { x0: from.0, y0: from.1, x1: to.0, y1: to.1 },
                pixels@,
            ),
            TransformCheck::Singular => result matches Err(e) && e
                == MembershipError::SingularTransform,
            TransformCheck::NonFinite => result matches Err(e) && e
                == MembershipError::NonFiniteTransform,
        },
{
    let ghost rect = PixelRect { x0: from.0, y0: from.1, x1: to.0, y1: to.1 };
    let mut query = match PixelMembership::new(from, to, transform) {
        Ok(query) => query,
        Err(e) => {
            return Err(e);
        },
    };
    let ghost mut given: Map<PixelRect, Coverage> = Map::empty();
    proof {
        assert forall|answers: spec_fn(PixelRect) -> Coverage| #[trigger]
            query.outcome(answers) == membership(answers, rect) by {
            lemma_outcome_at_start(answers, rect, query.found(), query.pending());
        }
        assert forall|answers: spec_fn(PixelRect) -> Coverage, part: PixelRect| #[trigger]
            asked(answers, rect, part) implies asked_in(answers, query.pending(), part) by {
            assert(query.pending()[0] == rect);
        }
    }
    loop
        invariant
            query.wf(),
            orderly(rect, query.pending(), given),
            forall|part: PixelRect|
                !part.is_empty() && rect.encloses(part) ==> call_requires(oracle, (part,)),
            forall|part: PixelRect| #[trigger]
                given.dom().contains(part) ==> call_ensures(oracle, (part,), given[part]),
            forall|answers: spec_fn(PixelRect) -> Coverage|
                agrees(answers, given) ==> #[trigger] query.outcome(answers) == membership(
                    answers,
                    rect,
                ),
            forall|answers: spec_fn(PixelRect) -> Coverage, part: PixelRect|
                agrees(answers, given) && #[trigger] asked(answers, rect, part)
                    ==> given.dom().contains(part) || asked_in(answers, query.pending(), part),
        ensures
            query.pending().len() == 0,
        decreases query.work_left(),
    {
        let top = match query.next_rect() {
            Some(top) => top,
            None => {
                break ;
            },
        };
        let ghost before = query;
        let ghost stack = query.pending();
        assert(stack[stack.len() - 1] == top);
        let coverage = oracle(top);
        query.resolve(coverage);
        proof {
            assert(!given.dom().contains(top)) by {
                if given.dom().contains(top) {
                    assert(disjoint(stack[stack.len() - 1], top) || strictly_inside(
                        stack[stack.len() - 1],
                        top,
                    ));
                }
            }
            let ghost earlier = given;
            given = given.insert(top, coverage);
            lemma_split_is_orderly(top);
            lemma_orderly_after(rect, stack, earlier, coverage);
            assert forall|answers: spec_fn(PixelRect) -> Coverage|
                agrees(answers, given) implies #[trigger] query.outcome(answers) == membership(
                answers,
                rect,
            ) by {
                assert(answers(top) == given[top]);
                assert(agrees(answers, earlier)) by {
                    assert forall|part: PixelRect| earlier.dom().contains(part) implies #[trigger] answers(
                        part,
                    ) == earlier[part] by {
                        assert(given.dom().contains(part));
                    }
                }
                assert(before.outcome(answers) == membership(answers, rect));
            }
            assert forall|answers: spec_fn(PixelRect) -> Coverage, part: PixelRect|
                agrees(answers, given) && #[trigger] asked(
                    answers,
                    rect,
                    part,
                ) implies given.dom().contains(part) || asked_in(answers, query.pending(), part) by {
                assert(answers(top) == given[top]);
                assert(agrees(answers, earlier)) by {
                    assert forall|other: PixelRect| earlier.dom().contains(other) implies #[trigger] answers(
                        other,
                    ) == earlier[other] by {
                        assert(given.dom().contains(other));
                    }
                }
                if !earlier.dom().contains(part) {
                    lemma_asked_after(answers, stack, coverage, part);
                }
            }
        }
    }
    proof {
        let answers = |part: PixelRect|
            if given.dom().contains(part) {
                given[part]
            } else {
                Coverage::Outside
            };
        assert(agrees(answers, given));
        assert(query.outcome(answers) == membership(answers, rect));
        assert(query.outcome(answers) =~= query.found());
        assert forall|part: PixelRect| #[trigger] asked(answers, rect, part) implies call_ensures(
            oracle,
            (part,),
            answers(part),
        ) by {
            assert(given.dom().contains(part) || asked_in(answers, query.pending(), part));
        }
        assert(answers_of(oracle, answers, rect));
        assert(query.found() == membership(answers, rect));
        assert(selected_by(oracle, rect, query.found()));
    }
    Ok(query.into_pixels())
}

proof fn lemma_outcome_at_start(
    answers: spec_fn(PixelRect) -> Coverage,
    rect: PixelRect,
    found: Seq<(u32, u32)>,
    pending: Seq<PixelRect>,
)
    requires
        found == Seq::<(u32, u32)>::empty(),
        pending == entry(rect),
    ensures
        found + flush(answers, pending) == membership(answers, rect),
{
    if rect.is_empty() {
        assert(found + flush(answers, pending) =~= membership(answers, rect));
    } else {
        assert(pending.drop_last() =~= Seq::<PixelRect>::empty());
        assert(flush(answers, pending.drop_last()) =~= Seq::<(u32, u32)>::empty());
        assert(found + flush(answers, pending) =~= membership(answers, rect));
    }
}

proof fn lemma_orderly_after(
    rect: PixelRect,
    stack: Seq<PixelRect>,
    given: Map<PixelRect, Coverage>,
    coverage: Coverage,
)
    requires
        stack.len() > 0,
        orderly(rect, stack, given),
    ensures
        orderly(
            rect,
            pending_after(stack, coverage),
            given.insert(stack.last(), coverage),
        ),
{
    let top = stack.last();
    let rest = stack.drop_last();
    let after = pending_after(stack, coverage);
    let known = given.insert(top, coverage);
    let parts = if coverage == Coverage::Straddling {
        split(top)
    } else {
        Seq::<PixelRect>::empty()
    };
    assert(after =~= rest + parts);
    assert(!top.is_empty() && rect.encloses(top)) by {
        assert(stack[stack.len() - 1] == top);
    }
    lemma_split_is_orderly(top);
    assert forall|i: int| 0 <= i < after.len() implies (if i < rest.len() {
        after[i] == stack[i]
    } else {
        after[i] == parts[i - rest.len()] && !after[i].is_empty() && strictly_inside(after[i], top)
    }) by {
        if i >= rest.len() {
            assert(after[i] == parts[i - rest.len()]);
        }
    }
    assert forall|i: int| 0 <= i < after.len() implies !(#[trigger] after[i]).is_empty()
        && rect.encloses(after[i]) by {
        if i < rest.len() {
            assert(after[i] == stack[i]);
        }
    }
    assert forall|i: int, j: int| 0 <= i < j < after.len() implies disjoint(
        #[trigger] after[i],
        #[trigger] after[j],
    ) by {
        if j < rest.len() {
            assert(disjoint(stack[i], stack[j]));
        } else if i < rest.len() {
            assert(disjoint(stack[i], stack[stack.len() - 1]));
        } else {
            assert(disjoint(parts[i - rest.len()], parts[j - rest.len()]));
        }
    }
    assert forall|i: int, earlier: PixelRect|
        0 <= i < after.len() && #[trigger] known.dom().contains(earlier) implies disjoint(
        #[trigger] after[i],
        earlier,
    ) || strictly_inside(after[i], earlier) by {
        if earlier == top {
            if i < rest.len() {
                assert(disjoint(stack[i], stack[stack.len() - 1]));
            }
        } else {
            assert(given.dom().contains(earlier));
            if i < rest.len() {
                assert(disjoint(stack[i], earlier) || strictly_inside(stack[i], earlier));
            } else {
                assert(disjoint(stack[stack.len() - 1], earlier) || strictly_inside(
                    stack[stack.len() - 1],
                    earlier,
                ));
            }
        }
    }
}

/// With an oracle that answers truly, a query returns exactly the covered
/// pixels of its rectangle: a pixel is among those returned if and only if
/// it lies in the rectangle and is covered.
pub proof fn lemma_true_oracle_selects_covered<F: Fn(PixelRect) -> Coverage>(
    oracle: F,
    covered: spec_fn(u32, u32) -> bool,
    rect: PixelRect,
    pixels: Seq<(u32, u32)>,
    x: u32,
    y: u32,
)
    requires
        selected_by(oracle, rect, pixels),
        forall|part: PixelRect, c: Coverage|
            !part.is_empty() && rect.encloses(part) && call_ensures(oracle, (part,), c) ==> true_of(
                c,
                covered,
                part,
            ),
    ensures
        pixels.contains((x, y)) <==> rect.contains(x, y) && covered(x, y),
{
    let answers = choose|answers: spec_fn(PixelRect) -> Coverage|
        #[trigger] answers_of(oracle, answers, rect) && pixels == membership(answers, rect);
    assert forall|part: PixelRect| #[trigger] asked(answers, rect, part) implies true_of(
        answers(part),
        covered,
        part,
    ) by {
        lemma_asked_lies_within(answers, rect, part);
        assert(call_ensures(oracle, (part,), answers(part)));
    }
    assert(faithful(answers, covered, rect));
    lemma_membership_exact(answers, covered, rect, x, y);
}

} // verus!
