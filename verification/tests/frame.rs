use rlay::{FrameArena, LayoutError, Pushed, TextPlacement};

#[test]
fn arena_reports_unbalanced_frames() {
    let mut frame = FrameArena::new();

    frame.open();

    assert_eq!(frame.check_closed().unwrap_err(), LayoutError::UnclosedElements);
}

#[test]
fn arena_tracks_the_open_slot() {
    let mut frame = FrameArena::new();
    let panel = frame.open();
    assert_eq!(frame.open_index(), panel.index);
    assert_eq!(panel, Pushed { flushed_text: None, index: 1 });
}

#[test]
fn closing_the_root_is_unbalanced() {
    let mut frame = FrameArena::new();
    assert_eq!(frame.close(), Err(LayoutError::UnbalancedClose));
    assert_eq!(frame.open_index(), 0);
    assert_eq!(frame.check_closed(), Ok(()));
    frame.open();
    assert_eq!(frame.close(), Ok(()));
    assert_eq!(frame.open_index(), 0);
    assert_eq!(frame.check_closed(), Ok(()));
}

#[test]
fn arena_builds_nested_children() {
    let mut frame = FrameArena::new();
    let row = frame.open();
    let child = frame.child();
    frame.close().unwrap();
    assert_eq!(frame.children(0), vec![row.index]);
    assert_eq!(frame.children(row.index), vec![child.index]);
    assert!(frame.children(child.index).is_empty());
    assert_eq!(frame.len(), 3);
}

#[test]
fn text_first_stays_inline_until_a_sibling_arrives() {
    let mut frame = FrameArena::new();
    let label = frame.open();
    assert_eq!(frame.text(), TextPlacement::Inline(label.index));
    assert!(frame.has_inline_text(label.index));
    assert!(frame.children(label.index).is_empty());

    let icon = frame.child();
    assert_eq!(icon, Pushed { flushed_text: Some(2), index: 3 });
    assert!(!frame.has_inline_text(label.index));
    assert_eq!(frame.children(label.index), vec![2, 3]);

    assert_eq!(
        frame.text(),
        TextPlacement::Child(Pushed { flushed_text: None, index: 4 })
    );
    assert_eq!(frame.children(label.index), vec![2, 3, 4]);
}

#[test]
fn second_inline_text_flushes_the_first() {
    let mut frame = FrameArena::new();
    assert_eq!(frame.text(), TextPlacement::Inline(0));
    assert_eq!(
        frame.text(),
        TextPlacement::Child(Pushed { flushed_text: Some(1), index: 2 })
    );
    assert_eq!(frame.children(0), vec![1, 2]);
}
