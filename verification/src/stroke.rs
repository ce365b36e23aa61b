//! The brush: from pointer samples to the shapes that a stroke paints.
//!
//! A stroke begins with a dab where the pointer goes down and grows by one
//! segment each time the pointer has moved far enough from the last point
//! that was painted. The engine keeps the state of the stroke and decides,
//! sample by sample, what is painted. It never measures: coordinates and
//! radii are of a type `S` that the caller chooses, and each sample says
//! whether it lies beyond the radius.

use vstd::prelude::*;

verus! {

/// Names the viewport in which a pointer sample was taken.
pub type ViewportId = u64;

/// A point of world space.
#[derive(Debug)]
pub struct Point<S> {
    pub x: S,
    pub y: S,
}

impl<S: Copy> Clone for Point<S> {
    fn clone(&self) -> (copy: Self)
        ensures
            copy == *self,
    {
        *self
    }
}

impl<S: Copy> Copy for Point<S> {

}

/// A tool for editing an annotation. Only the pencil paints.
#[derive(Debug)]
pub enum Tool<S> {
    Pencil { radius: S },
    Rubber { radius: S },
    Polygon {  },
}

impl<S: Copy> Clone for Tool<S> {
    fn clone(&self) -> (copy: Self)
        ensures
            copy == *self,
    {
        *self
    }
}

impl<S: Copy> Copy for Tool<S> {

}

/// The stroke in progress, if any.
#[derive(Debug)]
pub enum StrokeState<S> {
    /// The pointer is up.
    Idle,
    /// The pointer is down: `last_point` is the last point that was painted,
    /// `viewport` the viewport in which the stroke began.
    Stroking { last_point: Point<S>, viewport: ViewportId },
}

impl<S: Copy> Clone for StrokeState<S> {
    fn clone(&self) -> (copy: Self)
        ensures
            copy == *self,
    {
        *self
    }
}

impl<S: Copy> Copy for StrokeState<S> {

}

/// What the pointer did.
#[derive(Debug)]
pub enum PointerEvent<S> {
    /// The button is down with the pointer at `point` in `viewport`.
    /// `beyond_radius` says whether `point` lies farther from the last point
    /// of the stroke than the radius of the tool; it is not read when no
    /// stroke is in progress.
    Held { point: Point<S>, viewport: ViewportId, beyond_radius: bool },
    /// The button went up.
    Released,
    /// The pointer left the viewport for another part of the screen.
    FocusLost,
}

impl<S: Copy> Clone for PointerEvent<S> {
    fn clone(&self) -> (copy: Self)
        ensures
            copy == *self,
    {
        *self
    }
}

impl<S: Copy> Copy for PointerEvent<S> {

}

/// A shape to be united with the painted region.
#[derive(Debug)]
pub enum StrokeShape<S> {
    /// A disk round `center`.
    Circle { center: Point<S>, radius: S },
    /// The region that a disk sweeps on its way from `from` to `to`.
    Capsule { from: Point<S>, to: Point<S>, radius: S },
}

impl<S: Copy> Clone for StrokeShape<S> {
    fn clone(&self) -> (copy: Self)
        ensures
            copy == *self,
    {
        *self
    }
}

impl<S: Copy> Copy for StrokeShape<S> {

}

/// Why a pointer event was refused.
#[derive(Clone, Copy, Debug, PartialEq, Eq, Structural)]
pub enum StrokeError {
    /// The active tool paints nothing yet.
    ToolNotImplemented,
}

/// Whether the event reaches the tool. Losing the focus never does: it ends
/// the stroke whatever the tool.
pub open spec fn reaches_tool<S>(event: PointerEvent<S>) -> bool {
    !(event is FocusLost)
}

/// The event is refused: it reaches a tool that is not the pencil.
pub open spec fn refused<S>(tool: Option<Tool<S>>, event: PointerEvent<S>) -> bool {
    reaches_tool(event) && (tool matches Some(t) && !(t is Pencil))
}

/// The stroke after an event that is not refused.
pub open spec fn state_after<S>(
    tool: Option<Tool<S>>,
    state: StrokeState<S>,
    event: PointerEvent<S>,
) -> StrokeState<S> {
    match event {
        PointerEvent::Released => StrokeState::Idle,
        PointerEvent::FocusLost => StrokeState::Idle,
        PointerEvent::Held { point, viewport, beyond_radius } => match tool {
            Some(Tool::Pencil { radius }) => match state {
                StrokeState::Idle => StrokeState::Stroking { last_point: point, viewport },
                StrokeState::Stroking { last_point, viewport: active } => if viewport == active
                    && beyond_radius {
                    StrokeState::Stroking { last_point: point, viewport: active }
                } else {
                    state
                },
            },
            _ => state,
        },
    }
}

/// The shape that an event paints, if it paints one.
pub open spec fn shape_painted<S>(
    tool: Option<Tool<S>>,
    state: StrokeState<S>,
    event: PointerEvent<S>,
) -> Option<StrokeShape<S>> {
    match event {
        PointerEvent::Held { point, viewport, beyond_radius } => match tool {
            Some(Tool::Pencil { radius }) => match state {
                StrokeState::Idle => Some(StrokeShape::Circle { center: point, radius }),
                StrokeState::Stroking { last_point, viewport: active } => if viewport == active
                    && beyond_radius {
                    Some(StrokeShape::Capsule { from: last_point, to: point, radius })
                } else {
                    None
                },
            },
            _ => None,
        },
        _ => None,
    }
}

/// What an event does: where it is refused, the error says so and the
/// stroke stays as it was; otherwise the result is the shape that it paints,
/// if any, and the stroke goes on as `state_after` says.
pub open spec fn taken<S>(
    tool: Option<Tool<S>>,
    before: StrokeState<S>,
    event: PointerEvent<S>,
    result: Result<Option<StrokeShape<S>>, StrokeError>,
    after: StrokeState<S>,
) -> bool {
    if refused(tool, event) {
        result == Err::<Option<StrokeShape<S>>, StrokeError>(StrokeError::ToolNotImplemented)
            && after == before
    } else {
        result == Ok::<Option<StrokeShape<S>>, StrokeError>(shape_painted(tool, before, event))
            && after == state_after(tool, before, event)
    }
}

/// `far` is what `beyond` says of a sample at `point` in `viewport`, where the
/// sample is measured at all: with the pencil in hand and a stroke in
/// progress in that viewport, `beyond` is asked whether `point` lies farther
/// from the last point painted than the radius of the pencil.
pub open spec fn measured<S, F: Fn(Point<S>, Point<S>, S) -> bool>(
    tool: Option<Tool<S>>,
    state: StrokeState<S>,
    point: Point<S>,
    viewport: ViewportId,
    beyond: F,
    far: bool,
) -> bool {
    match (tool, state) {
        (
            Some(Tool::Pencil { radius }),
            StrokeState::Stroking { last_point, viewport: active },
        ) => viewport == active ==> call_ensures(beyond, (last_point, point, radius), far),
        _ => true,
    }
}

/// The editing state of an annotation: the tool in hand and the stroke in
/// progress. The painted region itself is kept by the caller, who unites it
/// with each shape that the annotation hands out.
#[derive(Debug)]
pub struct Annotation<S> {
    active_tool: Option<Tool<S>>,
    stroke: StrokeState<S>,
}

impl<S: Copy> Clone for Annotation<S> {
    fn clone(&self) -> (copy: Self)
        ensures
            copy == *self,
    {
        *self
    }
}

impl<S: Copy> Copy for Annotation<S> {

}

impl<S: Copy> Annotation<S> {
    /// The tool in hand.
    pub closed spec fn tool(&self) -> Option<Tool<S>> {
        self.active_tool
    }

    /// The stroke in progress.
    pub closed spec fn state(&self) -> StrokeState<S> {
        self.stroke
    }

    /// An annotation as it is created or loaded: no tool, no stroke.
    pub fn new() -> (annotation: Annotation<S>)
        ensures
            annotation.tool() is None,
            annotation.state() is Idle,
    {
        Annotation { active_tool: None, stroke: StrokeState::Idle }
    }

    /// The tool in hand.
    pub fn active_tool(&self) -> (tool: Option<Tool<S>>)
        ensures
            tool == self.tool(),
    {
        self.active_tool
    }

    /// The stroke in progress.
    pub fn stroke(&self) -> (state: StrokeState<S>)
        ensures
            state == self.state(),
    {
        self.stroke
    }

    /// The last point painted by the stroke in progress.
    pub fn last_point(&self) -> (point: Option<Point<S>>)
        ensures
            point == match self.state() {
                StrokeState::Idle => None,
                StrokeState::Stroking { last_point, viewport } => Some(last_point),
            },
    {
        match self.stroke {
            StrokeState::Idle => None,
            StrokeState::Stroking { last_point, viewport } => Some(last_point),
        }
    }

    /// The viewport in which the stroke in progress began.
    pub fn active_viewport(&self) -> (id: Option<ViewportId>)
        ensures
            id == match self.state() {
                StrokeState::Idle => None,
                StrokeState::Stroking { last_point, viewport } => Some(viewport),
            },
    {
        match self.stroke {
            StrokeState::Idle => None,
            StrokeState::Stroking { last_point, viewport } => Some(viewport),
        }
    }

    /// Takes another tool in hand, or none. A stroke in progress ends.
    pub fn set_active_tool(&mut self, tool: Option<Tool<S>>)
        ensures
            final(self).tool() == tool,
            final(self).state() is Idle,
    {
        self.active_tool = tool;
        self.stroke = StrokeState::Idle;
    }

    /// Ends editing: the tool is put down and a stroke in progress ends.
    pub fn stop_edit(&mut self)
        ensures
            final(self).tool() is None,
            final(self).state() is Idle,
    {
        self.active_tool = None;
        self.stroke = StrokeState::Idle;
    }

    /// Takes a pointer event and says what it paints.
    ///
    /// With the pencil in hand, the first sample of a stroke paints a circle
    /// and begins the stroke in its viewport. A later sample paints a capsule
    /// from the last point painted, and becomes the last point, where it
    /// comes from that viewport and lies beyond the radius; otherwise it
    /// changes nothing. Release and loss of focus end the stroke. Without a
    /// tool nothing is painted. With a tool that paints nothing yet the
    /// event is refused and nothing changes, but that loss of focus still
    /// ends the stroke.
    pub fn pointer(&mut self, event: PointerEvent<S>) -> (result: Result<
        Option<StrokeShape<S>>,
        StrokeError,
    >)
        ensures
            final(self).tool() == old(self).tool(),
            taken(old(self).tool(), old(self).state(), event, result, final(self).state()),
    {
        match event {
            PointerEvent::FocusLost => {
                self.stroke = StrokeState::Idle;
                Ok(None)
            },
            PointerEvent::Released => match self.active_tool {
                Some(Tool::Rubber { radius }) => Err(StrokeError::ToolNotImplemented),
                Some(Tool::Polygon {  }) => Err(StrokeError::ToolNotImplemented),
                _ => {
                    self.stroke = StrokeState::Idle;
                    Ok(None)
                },
            },
            PointerEvent::Held { point, viewport, beyond_radius } => match self.active_tool {
                None => Ok(None),
                Some(Tool::Rubber { radius }) => Err(StrokeError::ToolNotImplemented),
                Some(Tool::Polygon {  }) => Err(StrokeError::ToolNotImplemented),
                Some(Tool::Pencil { radius }) => match self.stroke {
                    StrokeState::Idle => {
                        self.stroke = StrokeState::Stroking { last_point: point, viewport };
                        Ok(Some(StrokeShape::Circle { center: point, radius }))
                    },
                    StrokeState::Stroking { last_point, viewport: active } => {
                        if viewport == active && beyond_radius {
                            self.stroke = StrokeState::Stroking { last_point: point, viewport: active };
                            Ok(Some(StrokeShape::Capsule { from: last_point, to: point, radius }))
                        } else {
                            Ok(None)
                        }
                    },
                },
            },
        }
    }
    /// Takes a sample of the pointer with the button down, and measures it
    /// as far as that is needed: `beyond` is asked whether the sample lies
    /// farther from the last point painted than the radius, and only where
    /// the pencil is in hand and the sample comes from the viewport of the
    /// stroke in progress. The sample then counts as the event `Held` with
    /// that answer.
    pub fn pointer_held<F: Fn(Point<S>, Point<S>, S) -> bool>(
        &mut self,
        point: Point<S>,
        viewport: ViewportId,
        beyond: F,
    ) -> (result: Result<Option<StrokeShape<S>>, StrokeError>)
        requires
            forall|from: Point<S>, to: Point<S>, radius: S|
                call_requires(beyond, (from, to, radius)),
        ensures
            final(self).tool() == old(self).tool(),
            exists|far: bool| #[trigger]
                measured(old(self).tool(), old(self).state(), point, viewport, beyond, far)
                    && taken(
                    old(self).tool(),
                    old(self).state(),
                    PointerEvent::Held { point, viewport, beyond_radius: far },
                    result,
                    final(self).state(),
                ),
    {
        let ghost tool = self.tool();
        let ghost state = self.state();
        let far = match (self.active_tool, self.stroke) {
            (
                Some(Tool::Pencil { radius }),
                StrokeState::Stroking { last_point, viewport: active },
            ) => viewport == active && beyond(last_point, point, radius),
            _ => false,
        };
        let result = self.pointer(PointerEvent::Held { point, viewport, beyond_radius: far });
        proof {
            let witness = match (tool, state) {
                (
                    Some(Tool::Pencil { radius }),
                    StrokeState::Stroking { last_point, viewport: active },
                ) => if viewport == active {
                    far
                } else {
                    false
                },
                _ => false,
            };
            assert(measured(tool, state, point, viewport, beyond, witness));
            let event = PointerEvent::Held { point, viewport, beyond_radius: witness };
            let given = PointerEvent::Held { point, viewport, beyond_radius: far };
            assert(refused(tool, event) == refused(tool, given));
            assert(shape_painted(tool, state, event) == shape_painted(tool, state, given));
            assert(state_after(tool, state, event) == state_after(tool, state, given));
            assert(taken(tool, state, event, result, self.state()));
        }
        result
    }
}

/// The stroke after a run of events, taken one after the other.
pub open spec fn state_after_all<S>(
    tool: Option<Tool<S>>,
    state: StrokeState<S>,
    events: Seq<PointerEvent<S>>,
) -> StrokeState<S>
    decreases events.len(),
{
    if events.len() == 0 {
        state
    } else {
        state_after(tool, state_after_all(tool, state, events.drop_last()), events.last())
    }
}

/// The shapes that a run of events paints, in their order.
pub open spec fn shapes_painted<S>(
    tool: Option<Tool<S>>,
    state: StrokeState<S>,
    events: Seq<PointerEvent<S>>,
) -> Seq<StrokeShape<S>>
    decreases events.len(),
{
    if events.len() == 0 {
        Seq::empty()
    } else {
        let earlier = shapes_painted(tool, state, events.drop_last());
        match shape_painted(tool, state_after_all(tool, state, events.drop_last()), events.last()) {
            Some(shape) => earlier.push(shape),
            None => earlier,
        }
    }
}

/// A stroke is confined to the viewport in which it began: samples from
/// other viewports, however many, paint nothing and leave the stroke as it
/// was.
pub proof fn lemma_other_viewports_paint_nothing<S>(
    tool: Option<Tool<S>>,
    last_point: Point<S>,
    active: ViewportId,
    events: Seq<PointerEvent<S>>,
)
    requires
        forall|i: int|
            0 <= i < events.len() ==> (#[trigger] events[i] matches PointerEvent::Held {
                viewport,
                ..
            } && viewport != active),
    ensures
        state_after_all(tool, StrokeState::Stroking { last_point, viewport: active }, events)
            == (StrokeState::Stroking { last_point, viewport: active }),
        shapes_painted(tool, StrokeState::Stroking { last_point, viewport: active }, events)
            == Seq::<StrokeShape<S>>::empty(),
    decreases events.len(),
{
    if events.len() > 0 {
        lemma_other_viewports_paint_nothing(tool, last_point, active, events.drop_last());
        assert(events.last() == events[events.len() - 1]);
    }
}

/// Samples that do not lie beyond the radius, however many, paint nothing
/// and leave the last point of the stroke where it was.
pub proof fn lemma_near_samples_paint_nothing<S>(
    tool: Option<Tool<S>>,
    last_point: Point<S>,
    active: ViewportId,
    events: Seq<PointerEvent<S>>,
)
    requires
        forall|i: int|
            0 <= i < events.len() ==> (#[trigger] events[i] matches PointerEvent::Held {
                beyond_radius,
                ..
            } && !beyond_radius),
    ensures
        state_after_all(tool, StrokeState::Stroking { last_point, viewport: active }, events)
            == (StrokeState::Stroking { last_point, viewport: active }),
        shapes_painted(tool, StrokeState::Stroking { last_point, viewport: active }, events)
            == Seq::<StrokeShape<S>>::empty(),
    decreases events.len(),
{
    if events.len() > 0 {
        lemma_near_samples_paint_nothing(tool, last_point, active, events.drop_last());
        assert(events.last() == events[events.len() - 1]);
    }
}

/// The distance is measured from the last point painted, not from the last
/// sample: after any number of samples that do not lie beyond the radius,
/// the first sample that does paints a capsule that begins at the last point
/// painted before them, and becomes the last point itself.
pub proof fn lemma_far_sample_paints_from_last_point<S>(
    radius: S,
    last_point: Point<S>,
    active: ViewportId,
    near: Seq<PointerEvent<S>>,
    far: Point<S>,
)
    requires
        forall|i: int|
            0 <= i < near.len() ==> (#[trigger] near[i] matches PointerEvent::Held {
                beyond_radius,
                ..
            } && !beyond_radius),
    ensures
        ({
            let tool = Some(Tool::Pencil { radius });
            let begun = StrokeState::Stroking { last_point, viewport: active };
            let events = near.push(
                PointerEvent::Held { point: far, viewport: active, beyond_radius: true },
            );
            &&& shapes_painted(tool, begun, events) == seq![
                StrokeShape::Capsule { from: last_point, to: far, radius },
            ]
            &&& state_after_all(tool, begun, events) == (StrokeState::Stroking {
                last_point: far,
                viewport: active,
            })
        }),
{
    let tool = Some(Tool::Pencil { radius });
    let begun = StrokeState::Stroking { last_point, viewport: active };
    let events = near.push(PointerEvent::Held { point: far, viewport: active, beyond_radius: true });
    lemma_near_samples_paint_nothing(tool, last_point, active, near);
    assert(events.drop_last() =~= near);
    assert(shapes_painted(tool, begun, events) =~= seq![
        StrokeShape::Capsule { from: last_point, to: far, radius },
    ]);
}

/// A stroke begins with a circle where the pointer goes down, in the
/// viewport of that sample.
pub proof fn lemma_stroke_begins_with_a_circle<S>(
    radius: S,
    point: Point<S>,
    viewport: ViewportId,
    beyond_radius: bool,
)
    ensures
        ({
            let tool = Some(Tool::Pencil { radius });
            let event = PointerEvent::Held { point, viewport, beyond_radius };
            &&& shape_painted(tool, StrokeState::Idle, event) == Some(
                StrokeShape::Circle { center: point, radius },
            )
            &&& state_after(tool, StrokeState::Idle, event) == (StrokeState::Stroking {
                last_point: point,
                viewport,
            })
        }),
{
}

/// A last point is kept only while the pointer is down: release and loss of
/// focus end the stroke, whatever the tool and the state.
pub proof fn lemma_release_ends_the_stroke<S>(tool: Option<Tool<S>>, state: StrokeState<S>)
    ensures
        state_after(tool, state, PointerEvent::Released) is Idle,
        state_after(tool, state, PointerEvent::FocusLost) is Idle,
        shape_painted(tool, state, PointerEvent::Released) is None,
        shape_painted(tool, state, PointerEvent::FocusLost) is None,
{
}

} // verus!
