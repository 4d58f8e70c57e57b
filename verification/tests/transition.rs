use rlay::transition::{
    begin_exit, changed_properties, complete_frame, exit_insert_index, handler_runs, initial_phase,
    nested_exits, override_plan, retarget, runtime_survives, should_enter, starts_exit,
    Completion, OverridePlan, PropertyChanges,
};
use rlay::{
    TransitionEnterTrigger, TransitionExitOrdering, TransitionExitTrigger, TransitionInteraction,
    TransitionProperties, TransitionState,
};

fn no_changes() -> PropertyChanges {
    PropertyChanges {
        x: false,
        relative_x: false,
        y: false,
        relative_y: false,
        width: false,
        height: false,
        background: false,
        overlay: false,
        radius: false,
        border_color: false,
        border_width: false,
    }
}

#[test]
fn property_groups_are_unions_of_members() {
    assert_eq!(TransitionProperties::x() | TransitionProperties::y(), TransitionProperties::position());
    assert_eq!(
        TransitionProperties::width() | TransitionProperties::height(),
        TransitionProperties::dimensions()
    );
    assert_eq!(
        TransitionProperties::position() | TransitionProperties::dimensions(),
        TransitionProperties::bounds()
    );
    assert_eq!(
        TransitionProperties::border_color() | TransitionProperties::border_width(),
        TransitionProperties::border()
    );
    assert_eq!(TransitionProperties::all().bits(), 0x1ff);
    assert!(TransitionProperties::bounds().contains(TransitionProperties::x()));
    assert!(!TransitionProperties::x().contains(TransitionProperties::bounds()));
    assert!(TransitionProperties::bounds().intersects(TransitionProperties::width()));
    assert!(!TransitionProperties::border().intersects(TransitionProperties::width()));
    assert!(TransitionProperties::empty().is_empty());
    assert_eq!(TransitionProperties::from_bits(0x200), None);
    assert_eq!(TransitionProperties::from_bits(16), Some(TransitionProperties::background_color()));
    assert_eq!(TransitionProperties::from_bits_truncate(0xffff), TransitionProperties::all());
}

#[test]
fn flag_set_operations() {
    let mut p = TransitionProperties::x();
    p.insert(TransitionProperties::overlay_color());
    assert_eq!(p.bits(), 33);
    p.remove(TransitionProperties::x());
    assert_eq!(p, TransitionProperties::overlay_color());
    assert_eq!(
        TransitionProperties::bounds().difference(TransitionProperties::position()),
        TransitionProperties::dimensions()
    );
    assert_eq!(
        TransitionProperties::bounds().intersection(TransitionProperties::width()),
        TransitionProperties::width()
    );
    assert_eq!(
        TransitionProperties::corner_radius().union(TransitionProperties::width()).bits(),
        68
    );
}

#[test]
fn only_configured_changes_start_animating() {
    let mut c = no_changes();
    c.x = true;
    c.relative_x = true;
    c.width = true;
    c.background = true;
    let configured = TransitionProperties::x() | TransitionProperties::background_color();
    assert_eq!(
        changed_properties(configured, c, false, false),
        TransitionProperties::x() | TransitionProperties::background_color()
    );
}

#[test]
fn parent_motion_alone_does_not_move_a_child() {
    let mut c = no_changes();
    c.y = true;
    c.relative_y = false;
    assert!(changed_properties(TransitionProperties::all(), c, false, false).is_empty());
    assert_eq!(changed_properties(TransitionProperties::all(), c, true, false), TransitionProperties::y());
}

#[test]
fn viewport_resize_snaps_geometry() {
    let mut c = no_changes();
    c.width = true;
    c.x = true;
    c.relative_x = true;
    c.overlay = true;
    assert_eq!(
        changed_properties(TransitionProperties::all(), c, false, true),
        TransitionProperties::overlay_color()
    );
}

#[test]
fn enter_trigger_rules() {
    assert!(should_enter(true, false, TransitionEnterTrigger::SkipOnFirstParentFrame));
    assert!(!should_enter(true, true, TransitionEnterTrigger::SkipOnFirstParentFrame));
    assert!(should_enter(true, true, TransitionEnterTrigger::OnFirstParentFrame));
    assert!(!should_enter(false, false, TransitionEnterTrigger::OnFirstParentFrame));
    let (state, active) = initial_phase(true, TransitionProperties::width());
    assert_eq!(state, TransitionState::Entering);
    assert_eq!(active, TransitionProperties::width());
    let (state, active) = initial_phase(false, TransitionProperties::width());
    assert_eq!(state, TransitionState::Idle);
    assert!(active.is_empty());
}

#[test]
fn exit_trigger_rules() {
    assert!(starts_exit(false, true, TransitionExitTrigger::SkipWhenParentExits, true));
    assert!(!starts_exit(false, true, TransitionExitTrigger::SkipWhenParentExits, false));
    assert!(starts_exit(false, true, TransitionExitTrigger::WhenParentExits, false));
    assert!(!starts_exit(true, true, TransitionExitTrigger::WhenParentExits, false));
    assert!(!starts_exit(false, false, TransitionExitTrigger::WhenParentExits, true));

    assert!(runtime_survives(true, true, TransitionState::Idle, false, TransitionExitTrigger::SkipWhenParentExits, true));
    assert!(runtime_survives(false, false, TransitionState::Exiting, false, TransitionExitTrigger::SkipWhenParentExits, false));
    assert!(!runtime_survives(false, true, TransitionState::Exiting, true, TransitionExitTrigger::WhenParentExits, true));
    assert!(!runtime_survives(false, false, TransitionState::Idle, false, TransitionExitTrigger::WhenParentExits, true));
}

#[test]
fn exit_ordering_places_the_subtree() {
    assert_eq!(exit_insert_index(TransitionExitOrdering::Underneath, 3, 5), 0);
    assert_eq!(exit_insert_index(TransitionExitOrdering::Natural, 3, 5), 3);
    assert_eq!(exit_insert_index(TransitionExitOrdering::Natural, 9, 5), 5);
    assert_eq!(exit_insert_index(TransitionExitOrdering::Above, 3, 5), 5);
}

#[test]
fn retarget_restarts_and_accumulates() {
    let configured = TransitionProperties::all();
    assert_eq!(
        retarget(TransitionState::Exiting, TransitionProperties::x(), TransitionProperties::empty(), configured),
        Some(configured)
    );
    assert_eq!(
        retarget(TransitionState::Transitioning, TransitionProperties::x(), TransitionProperties::width(), configured),
        Some(TransitionProperties::x() | TransitionProperties::width())
    );
    assert_eq!(
        retarget(TransitionState::Idle, TransitionProperties::empty(), TransitionProperties::empty(), configured),
        None
    );
}

#[test]
fn frame_steps() {
    assert!(!handler_runs(TransitionState::Idle, false));
    assert!(!handler_runs(TransitionState::Entering, true));
    assert!(handler_runs(TransitionState::Entering, false));
    assert!(handler_runs(TransitionState::Exiting, true));
    assert_eq!(
        complete_frame(TransitionState::Exiting, true),
        Completion { state: TransitionState::Exiting, exit_complete: true, snap_to_target: false }
    );
    assert_eq!(
        complete_frame(TransitionState::Transitioning, true),
        Completion { state: TransitionState::Idle, exit_complete: false, snap_to_target: true }
    );
    assert_eq!(
        complete_frame(TransitionState::Entering, false),
        Completion { state: TransitionState::Entering, exit_complete: false, snap_to_target: false }
    );
}

#[test]
fn override_plans() {
    let idle = override_plan(TransitionState::Idle, TransitionProperties::all(), false, TransitionInteraction::Disable);
    assert!(!idle.bounds && !idle.non_interactive && !idle.fix_width);
    let moving = override_plan(
        TransitionState::Transitioning,
        TransitionProperties::x() | TransitionProperties::width(),
        false,
        TransitionInteraction::Disable,
    );
    assert_eq!(
        moving,
        OverridePlan {
            fix_width: true,
            fix_height: false,
            bounds: true,
            background: false,
            overlay: false,
            radius: false,
            border_color: false,
            border_width: false,
            non_interactive: true,
        }
    );
    let reparented = override_plan(
        TransitionState::Transitioning,
        TransitionProperties::width(),
        true,
        TransitionInteraction::Allow,
    );
    assert!(!reparented.fix_width && reparented.bounds && !reparented.non_interactive);
    let exiting_paint = override_plan(
        TransitionState::Exiting,
        TransitionProperties::background_color(),
        false,
        TransitionInteraction::Disable,
    );
    assert!(exiting_paint.bounds && exiting_paint.background && !exiting_paint.non_interactive);
}

#[test]
fn nested_exit_defers_to_the_outer_exit() {
    let hashes = [10u32, 20, 30];
    let inside = vec![
        vec![false, false, false],
        vec![true, false, false],
        vec![false, false, false],
    ];
    assert_eq!(nested_exits(&hashes, &inside), vec![false, true, false]);
}

#[test]
fn defaults() {
    assert_eq!(TransitionState::default(), TransitionState::Idle);
    assert_eq!(TransitionInteraction::default(), TransitionInteraction::Disable);
    assert_eq!(TransitionEnterTrigger::default(), TransitionEnterTrigger::SkipOnFirstParentFrame);
    assert_eq!(TransitionExitTrigger::default(), TransitionExitTrigger::SkipWhenParentExits);
    assert_eq!(TransitionExitOrdering::default(), TransitionExitOrdering::Underneath);
}

#[test]
fn exit_starts_once_with_every_configured_property() {
    let configured = TransitionProperties::width().union(TransitionProperties::background_color());
    assert_eq!(begin_exit(TransitionState::Idle, configured), Some(configured));
    assert_eq!(begin_exit(TransitionState::Transitioning, configured), Some(configured));
    assert_eq!(begin_exit(TransitionState::Entering, configured), Some(configured));
    assert_eq!(begin_exit(TransitionState::Exiting, configured), None);
}
