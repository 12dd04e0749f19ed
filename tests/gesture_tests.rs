use canvas_engine::events::{EventQueue, GestureEvent};
use canvas_engine::gesture::{ReleaseKind, TapState};

#[test]
fn event_records_use_type_codes() {
    let mut q = EventQueue::new();
    q.push(GestureEvent::DragStart(3));
    q.push(GestureEvent::DragEnd(3));
    q.push(GestureEvent::Tap(3));
    q.push(GestureEvent::DoubleTap(3));
    assert_eq!(q.len(), 16);
    assert_eq!(
        q.drain(),
        vec![1, 3, 0, 0, 2, 3, 0, 0, 10, 3, 1, 0, 11, 3, 2, 0]
    );
    assert_eq!(q.len(), 0);
    assert!(q.drain().is_empty());
}

#[test]
fn press_emits_drag_start_once() {
    let mut q = EventQueue::new();
    let mut st = TapState::idle();
    assert!(st.press(7, &mut q));
    assert!(!st.press(7, &mut q));
    assert!(st.grabbing);
    assert_eq!(q.drain(), vec![1, 7, 0, 0]);
}

#[test]
fn single_tap_is_emitted_only_when_due() {
    let mut q = EventQueue::new();
    let mut st = TapState::idle();
    st.press(5, &mut q);
    assert_eq!(st.release(5, true, false, &mut q), ReleaseKind::SingleScheduled);
    assert_eq!(q.drain(), vec![1, 5, 0, 0, 2, 5, 0, 0]);
    assert!(st.single_pending);
    assert!(!st.poll(5, false, &mut q));
    assert!(q.drain().is_empty());
    assert!(st.poll(5, true, &mut q));
    assert_eq!(q.drain(), vec![10, 5, 1, 0]);
    assert!(!st.poll(5, true, &mut q));
    assert!(q.drain().is_empty());
}

#[test]
fn double_tap_cancels_pending_single() {
    let mut q = EventQueue::new();
    let mut st = TapState::idle();
    st.press(2, &mut q);
    st.release(2, true, false, &mut q);
    st.press(2, &mut q);
    assert_eq!(st.release(2, true, true, &mut q), ReleaseKind::DoubleTap);
    assert!(!st.single_pending);
    assert!(!st.poll(2, true, &mut q));
    assert_eq!(
        q.drain(),
        vec![1, 2, 0, 0, 2, 2, 0, 0, 1, 2, 0, 0, 2, 2, 0, 0, 11, 2, 2, 0]
    );
}

#[test]
fn long_press_is_a_drag() {
    let mut q = EventQueue::new();
    let mut st = TapState::idle();
    st.press(1, &mut q);
    assert_eq!(st.release(1, false, true, &mut q), ReleaseKind::Drag);
    assert!(!st.single_pending);
    assert_eq!(q.drain(), vec![1, 1, 0, 0, 2, 1, 0, 0]);
}

#[test]
fn release_without_press_is_ignored() {
    let mut q = EventQueue::new();
    let mut st = TapState::idle();
    assert_eq!(st.release(1, true, true, &mut q), ReleaseKind::Ignored);
    assert_eq!(q.len(), 0);
}
