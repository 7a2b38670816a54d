use factory_planner::drag_plane::{DragBox, DragPanController, DragState, HitState, PlaneScroll,
    PointerSample, update_plane_scroll};
use factory_planner::geometry::Vec2;

fn v(x: i64, y: i64) -> Vec2 {
    Vec2 { x, y }
}

fn sample(pressed: bool, released: bool, position: Option<Vec2>) -> PointerSample {
    PointerSample { pressed, released, position }
}

#[test]
fn absolute_position_adds_scroll_offset() {
    let plane = PlaneScroll { scroll_position: v(7, -3) };
    assert_eq!(plane.absolute_position(v(10, 10)), v(17, 7));
}

#[test]
fn scroll_delta_shifts_absolute_positions() {
    let mut plane = PlaneScroll { scroll_position: v(7, -3) };
    plane.apply_scroll_delta(v(5, 5));
    assert_eq!(plane.scroll_position, v(12, 2));
    assert_eq!(plane.absolute_position(v(10, 10)), v(22, 12));
}

#[test]
fn wheel_scroll_applies_only_while_hovered() {
    let mut plane = PlaneScroll { scroll_position: v(0, 0) };
    update_plane_scroll(&mut plane, HitState::Hovered, v(3, 4));
    assert_eq!(plane.scroll_position, v(3, 4));
    update_plane_scroll(&mut plane, HitState::Pressed, v(10, 10));
    assert_eq!(plane.scroll_position, v(3, 4));
    update_plane_scroll(&mut plane, HitState::NoHit, v(10, 10));
    assert_eq!(plane.scroll_position, v(3, 4));
}

#[test]
fn end_to_end_drag_then_pan() {
    let mut controller = DragPanController::new();
    let mut boxes = vec![DragBox { id: 1, position: v(10, 10) }];
    let mut plane = PlaneScroll { scroll_position: v(0, 0) };

    // Press at (50, 50) over the box: a drag session starts, box unmoved.
    let hits = vec![HitState::Pressed];
    let lost = controller.tick(
        sample(true, false, Some(v(50, 50))),
        &hits,
        &mut boxes,
        HitState::NoHit,
        &mut plane,
    );
    assert!(!lost);
    assert!(matches!(controller.state, DragState::DraggingBox { .. }));
    assert_eq!(boxes[0].position, v(10, 10));

    // Move to (70, 40): box follows the pointer delta.
    let hits = vec![HitState::Hovered];
    controller.tick(sample(false, false, Some(v(70, 40))), &hits, &mut boxes,
        HitState::NoHit, &mut plane);
    assert_eq!(boxes[0].position, v(30, 0));
    assert_eq!(plane.absolute_position(boxes[0].position), v(30, 0));

    // Release: back to idle.
    controller.tick(sample(false, true, Some(v(70, 40))), &hits, &mut boxes,
        HitState::NoHit, &mut plane);
    assert_eq!(controller.state, DragState::Idle);

    // Press over empty surface at (70, 40): a pan session starts.
    let hits = vec![HitState::NoHit];
    controller.tick(sample(true, false, Some(v(70, 40))), &hits, &mut boxes,
        HitState::Pressed, &mut plane);
    assert!(matches!(controller.state, DragState::PanningSurface { .. }));

    // Move to (90, 30): the surface pans by the pointer delta.
    controller.tick(sample(false, false, Some(v(90, 30))), &hits, &mut boxes,
        HitState::Pressed, &mut plane);
    assert_eq!(plane.scroll_position, v(20, -10));
    assert_eq!(boxes[0].position, v(30, 0));
}

#[test]
fn press_during_pan_is_ignored() {
    let mut controller = DragPanController::new();
    let mut boxes = vec![DragBox { id: 1, position: v(0, 0) }];
    let mut plane = PlaneScroll { scroll_position: v(0, 0) };

    // Start a pan.
    let hits = vec![HitState::NoHit];
    controller.tick(sample(true, false, Some(v(0, 0))), &hits, &mut boxes,
        HitState::Pressed, &mut plane);
    let pan_state = controller.state;
    assert!(matches!(pan_state, DragState::PanningSurface { .. }));

    // A new press over the box while panning: evaluated only from idle, so
    // the pan session survives and the box stays put.
    let hits = vec![HitState::Pressed];
    controller.tick(sample(true, false, Some(v(5, 5))), &hits, &mut boxes,
        HitState::Pressed, &mut plane);
    assert_eq!(controller.state, pan_state);
    assert_eq!(boxes[0].position, v(0, 0));
    assert_eq!(plane.scroll_position, v(5, 5));
}

#[test]
fn first_pressed_box_wins_tie_break() {
    let mut controller = DragPanController::new();
    let mut boxes = vec![
        DragBox { id: 10, position: v(0, 0) },
        DragBox { id: 20, position: v(100, 100) },
    ];
    let mut plane = PlaneScroll { scroll_position: v(0, 0) };

    let hits = vec![HitState::Pressed, HitState::Pressed];
    controller.tick(sample(true, false, Some(v(0, 0))), &hits, &mut boxes,
        HitState::NoHit, &mut plane);
    controller.tick(sample(false, false, Some(v(1, 2))), &hits, &mut boxes,
        HitState::NoHit, &mut plane);
    assert_eq!(boxes[0].position, v(1, 2));
    assert_eq!(boxes[1].position, v(100, 100));
}

#[test]
fn unknown_pointer_keeps_session_and_positions() {
    let mut controller = DragPanController::new();
    let mut boxes = vec![DragBox { id: 1, position: v(10, 10) }];
    let mut plane = PlaneScroll { scroll_position: v(0, 0) };

    let hits = vec![HitState::Pressed];
    controller.tick(sample(true, false, Some(v(50, 50))), &hits, &mut boxes,
        HitState::NoHit, &mut plane);

    // Pointer leaves the window: no update, session persists.
    let hits = vec![HitState::NoHit];
    controller.tick(sample(false, false, None), &hits, &mut boxes,
        HitState::NoHit, &mut plane);
    assert!(matches!(controller.state, DragState::DraggingBox { .. }));
    assert_eq!(boxes[0].position, v(10, 10));

    // Pointer returns: the move applies relative to the original press.
    controller.tick(sample(false, false, Some(v(60, 45))), &hits, &mut boxes,
        HitState::NoHit, &mut plane);
    assert_eq!(boxes[0].position, v(20, 5));
}

#[test]
fn press_with_unknown_position_records_zero_start() {
    let mut controller = DragPanController::new();
    let mut boxes = vec![DragBox { id: 1, position: v(10, 10) }];
    let mut plane = PlaneScroll { scroll_position: v(0, 0) };

    let hits = vec![HitState::Pressed];
    controller.tick(sample(true, false, None), &hits, &mut boxes,
        HitState::NoHit, &mut plane);
    assert!(matches!(controller.state, DragState::DraggingBox { .. }));

    controller.tick(sample(false, false, Some(v(5, 7))), &hits, &mut boxes,
        HitState::NoHit, &mut plane);
    assert_eq!(boxes[0].position, v(15, 17));
}

#[test]
fn missing_drag_target_resets_to_idle() {
    let mut controller = DragPanController::new();
    let mut boxes = vec![DragBox { id: 1, position: v(10, 10) }];
    let mut plane = PlaneScroll { scroll_position: v(0, 0) };

    let hits = vec![HitState::Pressed];
    controller.tick(sample(true, false, Some(v(50, 50))), &hits, &mut boxes,
        HitState::NoHit, &mut plane);
    assert!(matches!(controller.state, DragState::DraggingBox { .. }));

    // The box is despawned mid-drag by an external actor.
    boxes.clear();
    let hits: Vec<HitState> = vec![];
    let lost = controller.tick(sample(false, false, Some(v(70, 40))), &hits, &mut boxes,
        HitState::NoHit, &mut plane);
    assert!(lost);
    assert_eq!(controller.state, DragState::Idle);
    assert_eq!(plane.scroll_position, v(0, 0));
}

#[test]
fn press_and_release_same_tick_ends_idle() {
    let mut controller = DragPanController::new();
    let mut boxes = vec![DragBox { id: 1, position: v(10, 10) }];
    let mut plane = PlaneScroll { scroll_position: v(0, 0) };

    let hits = vec![HitState::Pressed];
    controller.tick(sample(true, true, Some(v(50, 50))), &hits, &mut boxes,
        HitState::NoHit, &mut plane);
    assert_eq!(controller.state, DragState::Idle);
    assert_eq!(boxes[0].position, v(10, 10));
}

#[test]
fn press_over_nothing_stays_idle() {
    let mut controller = DragPanController::new();
    let mut boxes = vec![DragBox { id: 1, position: v(10, 10) }];
    let mut plane = PlaneScroll { scroll_position: v(0, 0) };

    let hits = vec![HitState::Hovered];
    controller.tick(sample(true, false, Some(v(50, 50))), &hits, &mut boxes,
        HitState::NoHit, &mut plane);
    assert_eq!(controller.state, DragState::Idle);
}
