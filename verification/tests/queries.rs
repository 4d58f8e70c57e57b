use rlay::result::{
    element_is_pressed, pointer_over, pointer_over_ids, pointer_target, pointers_pressing,
    topmost_hit,
};
use rlay::{MouseButton, PointerGesture, PointerHit, PointerId, PointerPhase};

fn hit(pointer_id: PointerId, phase: PointerPhase, element: Option<&str>) -> PointerHit<(f32, f32)> {
    PointerHit {
        pointer_id,
        position: (10.0, 10.0),
        phase,
        element_id: element.map(str::to_owned),
        mouse_button: None,
        gesture: PointerGesture::Tap,
    }
}

#[test]
fn layout_result_exposes_pointer_over_query_on_hits() {
    let hits = vec![hit(PointerId::Mouse, PointerPhase::Hover, Some("button"))];
    assert!(pointer_over(&hits, "button"));
    assert!(!pointer_over(&hits, "other"));
    assert_eq!(pointer_over_ids(&hits), vec!["button"]);
}

#[test]
fn pointer_over_ids_lists_each_target_once_in_order() {
    let hits = vec![
        hit(PointerId::Touch(1), PointerPhase::Pressed, Some("b")),
        hit(PointerId::Touch(2), PointerPhase::Pressed, None),
        hit(PointerId::Touch(3), PointerPhase::Pressed, Some("a")),
        hit(PointerId::Touch(4), PointerPhase::Hover, Some("b")),
    ];
    assert_eq!(pointer_over_ids(&hits), vec!["b", "a"]);
    let none: Vec<PointerHit<(f32, f32)>> = Vec::new();
    assert!(pointer_over_ids(&none).is_empty());
}

#[test]
fn layout_result_reports_independent_touch_target_presses() {
    let hits = vec![
        hit(PointerId::Touch(1), PointerPhase::PressedThisFrame, Some("left")),
        hit(PointerId::Touch(2), PointerPhase::Pressed, Some("right")),
        hit(PointerId::Mouse, PointerPhase::Hover, Some("left")),
        hit(PointerId::Touch(3), PointerPhase::ReleasedThisFrame, Some("right")),
    ];
    assert!(element_is_pressed(&hits, "left"));
    assert!(element_is_pressed(&hits, "right"));
    assert!(!element_is_pressed(&hits, "missing"));
    assert_eq!(pointers_pressing(&hits, "left"), vec![0]);
    assert_eq!(pointers_pressing(&hits, "right"), vec![1]);
}

#[test]
fn hover_alone_is_not_a_press() {
    let mut h = hit(PointerId::Mouse, PointerPhase::Hover, Some("button"));
    h.mouse_button = Some(MouseButton::Left);
    let hits = vec![h];
    assert!(pointer_over(&hits, "button"));
    assert!(!element_is_pressed(&hits, "button"));
    assert!(pointers_pressing(&hits, "button").is_empty());
}

#[test]
fn topmost_hit_prefers_later_overlapping_elements() {
    assert_eq!(topmost_hit(&[true, false, true, false]), Some(2));
    assert_eq!(topmost_hit(&[true]), Some(0));
    assert_eq!(topmost_hit(&[false, false]), None);
    assert_eq!(topmost_hit(&[]), None);
}

#[test]
fn captured_pointer_keeps_its_target() {
    assert_eq!(pointer_target(Some("slider"), Some("other")), Some("slider".to_owned()));
    assert_eq!(pointer_target(Some("slider"), None), Some("slider".to_owned()));
    assert_eq!(pointer_target(None, Some("other")), Some("other".to_owned()));
    assert_eq!(pointer_target(None, None), None);
}
