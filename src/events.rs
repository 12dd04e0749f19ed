use vstd::prelude::*;

verus! {

/// Event type codes of the outgoing queue.
pub const DRAG_START: i32 = 1;
pub const DRAG_END: i32 = 2;
pub const TAP: i32 = 10;
pub const DOUBLE_TAP: i32 = 11;

/// A gesture notification about one node.
#[derive(Clone, Copy, Debug, PartialEq, Eq, Structural)]
pub enum GestureEvent {
    DragStart(i32),
    DragEnd(i32),
    Tap(i32),
    DoubleTap(i32),
}

/// The four integers that encode an event in the queue:
/// type code, node id, tap count (0 for drags), and a reserved zero.
pub open spec fn event_record(e: GestureEvent) -> Seq<i32> {
    match e {
        GestureEvent::DragStart(id) => seq![DRAG_START, id, 0, 0],
        GestureEvent::DragEnd(id) => seq![DRAG_END, id, 0, 0],
        GestureEvent::Tap(id) => seq![TAP, id, 1, 0],
        GestureEvent::DoubleTap(id) => seq![DOUBLE_TAP, id, 2, 0],
    }
}

/// Outgoing events, four integers each, drained once per frame.
pub struct EventQueue {
    data: Vec<i32>,
}

impl View for EventQueue {
    type V = Seq<i32>;

    closed spec fn view(&self) -> Seq<i32> {
        self.data@
    }
}

impl EventQueue {
    pub fn new() -> (r: EventQueue)
        ensures
            r@ == Seq::<i32>::empty(),
    {
        EventQueue { data: Vec::new() }
    }

    /// Appends the record of `e`.
    pub fn push(&mut self, e: GestureEvent)
        ensures
            final(self)@ == old(self)@ + event_record(e),
    {
        let (code, id, count) = match e {
            GestureEvent::DragStart(id) => (DRAG_START, id, 0),
            GestureEvent::DragEnd(id) => (DRAG_END, id, 0),
            GestureEvent::Tap(id) => (TAP, id, 1),
            GestureEvent::DoubleTap(id) => (DOUBLE_TAP, id, 2),
        };
        self.data.push(code);
        self.data.push(id);
        self.data.push(count);
        self.data.push(0);
        assert(self.data@ =~= old(self)@ + event_record(e));
    }

    /// Number of integers queued (four per event).
    pub fn len(&self) -> (r: usize)
        ensures
            r == self@.len(),
    {
        self.data.len()
    }

    /// Hands out everything queued, in order, and leaves the queue empty.
    pub fn drain(&mut self) -> (r: Vec<i32>)
        ensures
            r@ == old(self)@,
            final(self)@ == Seq::<i32>::empty(),
    {
        let mut out: Vec<i32> = Vec::new();
        std::mem::swap(&mut out, &mut self.data);
        out
    }

    /// Drops everything queued.
    pub fn clear(&mut self)
        ensures
            final(self)@ == Seq::<i32>::empty(),
    {
        self.data.clear();
        assert(self.data@ =~= Seq::<i32>::empty());
    }
}

} // verus!
