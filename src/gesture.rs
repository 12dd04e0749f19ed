use vstd::prelude::*;
use crate::events::{EventQueue, GestureEvent, event_record};

verus! {

/// The discrete part of a node's gesture state: whether a pointer holds it,
/// and whether a single tap waits to be emitted. The clock values that go
/// with it (press time, tap times) are kept by the caller, who classifies a
/// release and decides when a pending tap is due.
#[derive(Clone, Copy, Debug, PartialEq, Eq, Structural)]
pub struct TapState {
    pub grabbing: bool,
    pub single_pending: bool,
}

/// What a release did, so that the caller can update its clock values:
/// on `DoubleTap` it forgets the last tap time; on `SingleScheduled` it
/// records the tap time and the time at which the tap becomes due.
#[derive(Clone, Copy, Debug, PartialEq, Eq, Structural)]
pub enum ReleaseKind {
    /// The node was not held: nothing happens.
    Ignored,
    /// A drag ended that was not a tap.
    Drag,
    /// A tap came within the double-tap gap of the previous one.
    DoubleTap,
    /// A tap was scheduled to be emitted later.
    SingleScheduled,
}

/// The state after a button-down sample: the node is held.
pub open spec fn pressed(st: TapState) -> TapState {
    TapState { grabbing: true, single_pending: st.single_pending }
}

/// The events of a button-down sample: a drag starts only on the first one.
pub open spec fn press_events(st: TapState, id: i32) -> Seq<i32> {
    if st.grabbing {
        Seq::empty()
    } else {
        event_record(GestureEvent::DragStart(id))
    }
}

/// How a button-up sample is classified. `is_tap` says that the press was
/// short and still enough; `within_double_gap` that the previous tap on this
/// node is recent enough to pair with this one.
pub open spec fn release_kind(st: TapState, is_tap: bool, within_double_gap: bool) -> ReleaseKind {
    if !st.grabbing {
        ReleaseKind::Ignored
    } else if !is_tap {
        ReleaseKind::Drag
    } else if within_double_gap {
        ReleaseKind::DoubleTap
    } else {
        ReleaseKind::SingleScheduled
    }
}

/// The state after a button-up sample.
pub open spec fn released(st: TapState, is_tap: bool, within_double_gap: bool) -> TapState {
    match release_kind(st, is_tap, within_double_gap) {
        ReleaseKind::Ignored => st,
        ReleaseKind::Drag => TapState { grabbing: false, single_pending: st.single_pending },
        ReleaseKind::DoubleTap => TapState { grabbing: false, single_pending: false },
        ReleaseKind::SingleScheduled => TapState { grabbing: false, single_pending: true },
    }
}

/// The events of a button-up sample: the drag ends, followed by a double tap
/// where the release pairs with the previous tap.
pub open spec fn release_events(st: TapState, id: i32, is_tap: bool, within_double_gap: bool) -> Seq<
    i32,
> {
    match release_kind(st, is_tap, within_double_gap) {
        ReleaseKind::Ignored => Seq::empty(),
        ReleaseKind::DoubleTap => event_record(GestureEvent::DragEnd(id)) + event_record(
            GestureEvent::DoubleTap(id),
        ),
        _ => event_record(GestureEvent::DragEnd(id)),
    }
}

/// The state after a frame's check of a pending tap; `due` says that its
/// scheduled time has come.
pub open spec fn polled(st: TapState, due: bool) -> TapState {
    if st.single_pending && due {
        TapState { grabbing: st.grabbing, single_pending: false }
    } else {
        st
    }
}

/// The events of that check: the pending tap, once it is due.
pub open spec fn poll_events(st: TapState, id: i32, due: bool) -> Seq<i32> {
    if st.single_pending && due {
        event_record(GestureEvent::Tap(id))
    } else {
        Seq::empty()
    }
}

impl TapState {
    /// Not held, nothing pending.
    pub fn idle() -> (r: TapState)
        ensures
            !r.grabbing,
            !r.single_pending,
    {
        TapState { grabbing: false, single_pending: false }
    }

    /// A button-down sample on node `id`. Returns whether this sample began
    /// the press, in which case the caller captures the grab offset and the
    /// press time and origin.
    pub fn press(&mut self, id: i32, queue: &mut EventQueue) -> (begun: bool)
        ensures
            begun == !old(self).grabbing,
            *final(self) == pressed(*old(self)),
            final(queue)@ == old(queue)@ + press_events(*old(self), id),
    {
        if self.grabbing {
            assert(queue@ =~= old(queue)@ + press_events(*old(self), id));
            false
        } else {
            self.grabbing = true;
            queue.push(GestureEvent::DragStart(id));
            true
        }
    }

    /// A button-up sample on node `id`.
    pub fn release(
        &mut self,
        id: i32,
        is_tap: bool,
        within_double_gap: bool,
        queue: &mut EventQueue,
    ) -> (r: ReleaseKind)
        ensures
            r == release_kind(*old(self), is_tap, within_double_gap),
            *final(self) == released(*old(self), is_tap, within_double_gap),
            final(queue)@ == old(queue)@ + release_events(
                *old(self),
                id,
                is_tap,
                within_double_gap,
            ),
    {
        if !self.grabbing {
            assert(queue@ =~= old(queue)@ + release_events(
                *old(self),
                id,
                is_tap,
                within_double_gap,
            ));
            return ReleaseKind::Ignored;
        }
        self.grabbing = false;
        queue.push(GestureEvent::DragEnd(id));
        if !is_tap {
            ReleaseKind::Drag
        } else if within_double_gap {
            self.single_pending = false;
            queue.push(GestureEvent::DoubleTap(id));
            assert(queue@ =~= old(queue)@ + release_events(
                *old(self),
                id,
                is_tap,
                within_double_gap,
            ));
            ReleaseKind::DoubleTap
        } else {
            self.single_pending = true;
            ReleaseKind::SingleScheduled
        }
    }

    /// The frame's check of a pending tap on node `id`. Returns whether a tap
    /// was emitted.
    pub fn poll(&mut self, id: i32, due: bool, queue: &mut EventQueue) -> (emitted: bool)
        ensures
            emitted == (old(self).single_pending && due),
            *final(self) == polled(*old(self), due),
            final(queue)@ == old(queue)@ + poll_events(*old(self), id, due),
    {
        if self.single_pending && due {
            self.single_pending = false;
            queue.push(GestureEvent::Tap(id));
            true
        } else {
            assert(queue@ =~= old(queue)@ + poll_events(*old(self), id, due));
            false
        }
    }
}

/// A short, still press and release that does not pair with an earlier tap
/// ends the drag and emits no tap yet; the tap stays pending through every
/// check before it is due, and comes out exactly once, at the first check
/// when it is due.
pub proof fn lemma_single_tap_is_deferred(st: TapState, id: i32, checks: Seq<bool>)
    requires
        !st.grabbing,
    ensures
        ({
            let held = pressed(st);
            let up = released(held, true, false);
            &&& press_events(st, id) == event_record(GestureEvent::DragStart(id))
            &&& release_events(held, id, true, false) == event_record(GestureEvent::DragEnd(id))
            &&& up.single_pending
            &&& poll_events(up, id, false) == Seq::<i32>::empty()
            &&& polled(up, false) == up
            &&& poll_events(up, id, true) == event_record(GestureEvent::Tap(id))
            &&& !polled(up, true).single_pending
            &&& poll_events(polled(up, true), id, true) == Seq::<i32>::empty()
        }),
{
}

/// A second tap within the double-tap gap of a first one emits a double tap
/// and cancels the first tap's pending single tap: no later check emits it,
/// whether or not its time has come.
pub proof fn lemma_double_tap_cancels_single(st: TapState, id: i32, due: bool)
    requires
        !st.grabbing,
    ensures
        ({
            let first = released(pressed(st), true, false);
            let second_held = pressed(first);
            let second = released(second_held, true, true);
            &&& first.single_pending
            &&& press_events(first, id) == event_record(GestureEvent::DragStart(id))
            &&& release_events(second_held, id, true, true) == event_record(
                GestureEvent::DragEnd(id),
            ) + event_record(GestureEvent::DoubleTap(id))
            &&& !second.single_pending
            &&& !second.grabbing
            &&& poll_events(second, id, due) == Seq::<i32>::empty()
        }),
{
}

} // verus!
