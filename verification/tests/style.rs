use rlay::style::captures_hits;
use rlay::{AlignX, AlignY, Direction, PointerCapture, TextAlign, TextWrap};

#[test]
fn style_defaults() {
    assert_eq!(Direction::default(), Direction::Row);
    assert_eq!(AlignX::default(), AlignX::Left);
    assert_eq!(AlignY::default(), AlignY::Top);
    assert_eq!(PointerCapture::default(), PointerCapture::Capture);
    assert_eq!(TextWrap::default(), TextWrap::Words);
    assert_eq!(TextAlign::default(), TextAlign::Left);
}

#[test]
fn pass_through_floating_does_not_capture_hits() {
    assert!(captures_hits(None));
    assert!(captures_hits(Some(PointerCapture::Capture)));
    assert!(!captures_hits(Some(PointerCapture::PassThrough)));
}
