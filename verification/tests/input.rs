use rlay::input::phase_after_report;
use rlay::{MouseButton, PointerGesture, PointerId, PointerPhase, PointerRegistry, TouchPhase};

fn registry() -> PointerRegistry<(i32, i32), i32> {
    PointerRegistry::new(0)
}

#[test]
fn pointer_phase_advances_after_end_frame() {
    let mut input = registry();
    input.set_mouse_down((1, 1), true);
    let first = input.pointer(PointerId::Mouse).unwrap().phase;
    input.end_frame();
    let second = input.pointer(PointerId::Mouse).unwrap().phase;
    input.end_frame();
    input.set_mouse_down((1, 1), false);
    let third = input.pointer(PointerId::Mouse).unwrap().phase;

    assert_eq!(first, PointerPhase::PressedThisFrame);
    assert_eq!(second, PointerPhase::Pressed);
    assert_eq!(third, PointerPhase::ReleasedThisFrame);
}

#[test]
fn released_pointers_leave_after_the_frame() {
    let mut input = registry();
    input.set_touch(3, (5, 5), true);
    input.end_frame();
    input.remove_touch(3, (6, 6));
    assert_eq!(input.pointer(PointerId::Touch(3)).unwrap().phase, PointerPhase::ReleasedThisFrame);
    input.end_frame();
    assert!(input.pointer(PointerId::Touch(3)).is_none());
    assert!(input.pointers().is_empty());
}

#[test]
fn phase_table_matches_reports() {
    assert_eq!(phase_after_report(false, false), PointerPhase::Hover);
    assert_eq!(phase_after_report(false, true), PointerPhase::PressedThisFrame);
    assert_eq!(phase_after_report(true, true), PointerPhase::Pressed);
    assert_eq!(phase_after_report(true, false), PointerPhase::ReleasedThisFrame);
    assert!(PointerPhase::Pressed.is_down());
    assert!(PointerPhase::PressedThisFrame.is_down());
    assert!(!PointerPhase::Hover.is_down());
    assert!(!PointerPhase::ReleasedThisFrame.is_down());
    assert!(!PointerPhase::Released.is_down());
}

#[test]
fn positions_and_sequences_follow_the_contact() {
    let mut input = registry();
    input.set_touch(1, (0, 0), true);
    input.set_touch(2, (50, 50), true);
    input.set_touch(1, (10, 0), true);
    let first = input.pointer(PointerId::Touch(1)).unwrap();
    assert_eq!(first.sequence, 0);
    assert_eq!(first.position, (10, 0));
    assert_eq!(first.previous_position, (0, 0));
    assert_eq!(first.start_position, (0, 0));
    assert_eq!(input.pointer(PointerId::Touch(2)).unwrap().sequence, 1);

    let order: Vec<PointerId> = input.pointers().iter().map(|p| p.id).collect();
    assert_eq!(order, vec![PointerId::Touch(1), PointerId::Touch(2)]);

    input.set_touch(1, (12, 0), false);
    assert_eq!(input.pointer(PointerId::Touch(1)).unwrap().start_position, (12, 0));
}

#[test]
fn mouse_position_keeps_button_state() {
    let mut input = registry();
    input.set_mouse_button((0, 0), MouseButton::Right, true);
    input.set_mouse_position((4, 4));
    let mouse = input.pointer(PointerId::Mouse).unwrap();
    assert_eq!(mouse.phase, PointerPhase::Pressed);
    assert_eq!(mouse.mouse_button, Some(MouseButton::Right));
    assert_eq!(mouse.position, (4, 4));
}

#[test]
fn scroll_input_is_per_frame() {
    let mut input = registry();
    input.set_touch(9, (1, 1), false);
    input.replace_scroll_input(PointerId::Touch(9), 15, Some(TouchPhase::Moved));
    let p = input.pointer(PointerId::Touch(9)).unwrap();
    assert_eq!(p.scroll_delta, 15);
    assert_eq!(p.scroll_phase, Some(TouchPhase::Moved));
    input.end_frame();
    let p = input.pointer(PointerId::Touch(9)).unwrap();
    assert_eq!(p.scroll_delta, 0);
    assert_eq!(p.scroll_phase, None);

    input.replace_scroll_input(PointerId::Mouse, 3, None);
    assert!(input.pointer(PointerId::Mouse).is_none());
}

#[test]
fn consuming_delta_catches_up_the_previous_position() {
    let mut input = registry();
    input.set_touch(4, (0, 0), true);
    input.set_touch(4, (0, 30), true);
    input.replace_scroll_input(PointerId::Touch(4), 8, Some(TouchPhase::Started));
    input.mark_scroll_gesture(PointerId::Touch(4));
    input.consume_pointer_delta(PointerId::Touch(4));
    let p = input.pointer(PointerId::Touch(4)).unwrap();
    assert_eq!(p.previous_position, (0, 30));
    assert_eq!(p.scroll_delta, 0);
    assert_eq!(p.scroll_phase, None);
    assert_eq!(p.gesture, PointerGesture::Scroll);
}

#[test]
fn captures_follow_their_pointer() {
    let mut input = registry();
    input.set_touch(1, (0, 0), true);
    input.capture_pointer(PointerId::Touch(1), "slider");
    assert_eq!(input.pointer_capture(PointerId::Touch(1)), Some("slider"));
    input.capture_pointer(PointerId::Touch(1), "knob");
    assert_eq!(input.pointer_capture(PointerId::Touch(1)), Some("knob"));
    input.release_pointer_capture(PointerId::Touch(1));
    assert_eq!(input.pointer_capture(PointerId::Touch(1)), None);

    input.capture_pointer(PointerId::Touch(1), "slider");
    input.end_frame();
    input.remove_touch(1, (0, 0));
    input.end_frame();
    assert_eq!(input.pointer_capture(PointerId::Touch(1)), None);
}

#[test]
fn two_pressed_touches_make_a_pinch_pair() {
    let mut input = registry();
    input.set_touch(1, (0, 0), true);
    input.set_mouse_down((5, 5), true);
    input.set_touch(2, (10, 0), true);
    input.set_touch(3, (20, 0), false);
    let touches = input.pressed_touches();
    assert_eq!(touches.len(), 2);
    assert_eq!(touches[0].id, PointerId::Touch(1));
    assert_eq!(touches[1].id, PointerId::Touch(2));
    assert!(input.any_pressed());
}
