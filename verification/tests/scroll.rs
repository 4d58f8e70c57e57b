use rlay::scroll::{
    can_drag, claimed_by_other, consume_order, drag_scrolls, momentum_runs, wheel_step,
    DragClaims, ScrollClaim, WheelGesture,
};
use rlay::{PointerGesture, PointerId, PointerPhase, TouchPhase};

const IDLE: WheelGesture = WheelGesture { scrolling: false, ended: false };

#[test]
fn wheel_started_resets_existing_momentum_step() {
    let step = wheel_step(IDLE, Some(TouchPhase::Started));
    assert_eq!(step.gesture, WheelGesture { scrolling: true, ended: false });
    assert!(step.clear_momentum);
    assert!(step.apply_delta);

    let after_end = WheelGesture { scrolling: false, ended: true };
    let restart = wheel_step(after_end, Some(TouchPhase::Started));
    assert_eq!(restart.gesture, WheelGesture { scrolling: true, ended: false });
}

#[test]
fn wheel_momentum_starts_after_wheel_phase_ends_step() {
    let moving = wheel_step(IDLE, Some(TouchPhase::Moved));
    assert_eq!(moving.gesture, WheelGesture { scrolling: true, ended: false });
    assert!(!moving.clear_momentum);
    assert!(moving.apply_delta);
    assert!(!momentum_runs(moving.gesture, false));

    let ended = wheel_step(moving.gesture, Some(TouchPhase::Ended));
    assert_eq!(ended.gesture, WheelGesture { scrolling: false, ended: true });
    assert!(!ended.apply_delta);
    assert!(!momentum_runs(ended.gesture, false));

    let cancelled = wheel_step(moving.gesture, Some(TouchPhase::Cancelled));
    assert_eq!(cancelled.gesture, ended.gesture);

    assert!(momentum_runs(IDLE, false));
    assert!(!momentum_runs(IDLE, true));
}

#[test]
fn unphased_wheel_input_keeps_the_gesture() {
    let g = WheelGesture { scrolling: true, ended: true };
    let step = wheel_step(g, None);
    assert_eq!(step.gesture, g);
    assert!(!step.clear_momentum);
    assert!(!step.apply_delta);
}

#[test]
fn only_touch_contacts_drag_content() {
    assert!(!can_drag(true, PointerId::Mouse, PointerPhase::Pressed));
    assert!(can_drag(true, PointerId::Touch(1), PointerPhase::Pressed));
    assert!(can_drag(true, PointerId::Touch(1), PointerPhase::PressedThisFrame));
    assert!(!can_drag(true, PointerId::Touch(1), PointerPhase::Hover));
    assert!(!can_drag(true, PointerId::Touch(1), PointerPhase::ReleasedThisFrame));
    assert!(!can_drag(false, PointerId::Touch(1), PointerPhase::Pressed));
}

#[test]
fn touch_drag_scrolls_after_slop_or_scroll_gesture() {
    assert!(!drag_scrolls(PointerGesture::Tap, false));
    assert!(drag_scrolls(PointerGesture::Tap, true));
    assert!(drag_scrolls(PointerGesture::Scroll, false));
}

#[test]
fn two_finger_drag_claims_one_container_per_finger() {
    let claims = vec![ScrollClaim { pointer: PointerId::Touch(1), scroll_id: "list".to_owned() }];
    assert!(claimed_by_other(&claims, PointerId::Touch(2), "list"));
    assert!(!claimed_by_other(&claims, PointerId::Touch(1), "list"));
    assert!(!claimed_by_other(&claims, PointerId::Touch(2), "other"));
}

#[test]
fn consume_order_puts_mouse_first_then_touches_by_id() {
    let ids = [
        PointerId::Touch(9),
        PointerId::Mouse,
        PointerId::Touch(2),
        PointerId::Touch(9),
        PointerId::Touch(4),
    ];
    assert_eq!(
        consume_order(&ids),
        vec![PointerId::Mouse, PointerId::Touch(2), PointerId::Touch(4), PointerId::Touch(9)]
    );
    assert!(consume_order(&[]).is_empty());
}

#[test]
fn drag_claims_follow_pressed_pointers() {
    let mut claims: DragClaims<i32> = DragClaims::new();
    assert!(claims.claim_of(PointerId::Touch(1)).is_none());

    claims.claim(PointerId::Touch(1), "list", 5);
    claims.claim(PointerId::Touch(1), "other", 7);
    claims.claim(PointerId::Touch(2), "grid", 9);
    assert_eq!(claims.claim_of(PointerId::Touch(1)), Some(("list", 5)));
    assert_eq!(claims.claim_of(PointerId::Touch(2)), Some(("grid", 9)));
    assert!(claims.taken_by_other(PointerId::Touch(2), "list"));
    assert!(!claims.taken_by_other(PointerId::Touch(1), "list"));
    assert!(!claims.taken_by_other(PointerId::Touch(1), "other"));

    claims.retain_pressed(&[PointerId::Touch(2)]);
    assert!(claims.claim_of(PointerId::Touch(1)).is_none());
    assert_eq!(claims.claim_of(PointerId::Touch(2)), Some(("grid", 9)));
    assert!(!claims.taken_by_other(PointerId::Touch(2), "list"));
}

#[test]
fn a_container_follows_one_finger_at_a_time() {
    let mut claims: DragClaims<i32> = DragClaims::new();
    claims.claim(PointerId::Touch(1), "list", 5);
    claims.claim(PointerId::Touch(2), "list", 9);
    assert_eq!(claims.claim_of(PointerId::Touch(1)), Some(("list", 5)));
    assert!(claims.claim_of(PointerId::Touch(2)).is_none());

    claims.retain_pressed(&[PointerId::Touch(2)]);
    claims.claim(PointerId::Touch(2), "list", 9);
    assert_eq!(claims.claim_of(PointerId::Touch(2)), Some(("list", 9)));
}
