use engine::scene_tools::{
    camera_mode_switch, end_gizmo_drag_unless_dragging, handle_keyboard_shortcuts, handle_play_stop_button, select_on_click, CameraView, SceneViewMode,
    ShortcutKeys, TransformTool,
};

fn no_keys() -> ShortcutKeys {
    ShortcutKeys { q: false, w: false, e: false, r: false, num1: false, num3: false, num7: false, num0: false, ctrl: false }
}

#[test]
fn tool_keys_select_tools() {
    let mut tool = TransformTool::View;
    let keys = ShortcutKeys { w: true, ..no_keys() };
    let views = handle_keyboard_shortcuts(&keys, &mut tool, SceneViewMode::Mode2D);
    assert_eq!(tool, TransformTool::Move);
    assert!(views.is_empty());

    let keys = ShortcutKeys { e: true, ..no_keys() };
    handle_keyboard_shortcuts(&keys, &mut tool, SceneViewMode::Mode2D);
    assert_eq!(tool, TransformTool::Rotate);

    let keys = ShortcutKeys { r: true, ..no_keys() };
    handle_keyboard_shortcuts(&keys, &mut tool, SceneViewMode::Mode2D);
    assert_eq!(tool, TransformTool::Scale);

    let keys = ShortcutKeys { q: true, ..no_keys() };
    handle_keyboard_shortcuts(&keys, &mut tool, SceneViewMode::Mode2D);
    assert_eq!(tool, TransformTool::View);
}

#[test]
fn last_tool_key_wins() {
    let mut tool = TransformTool::View;
    let keys = ShortcutKeys { q: true, w: true, e: true, ..no_keys() };
    handle_keyboard_shortcuts(&keys, &mut tool, SceneViewMode::Mode3D);
    assert_eq!(tool, TransformTool::Rotate);
}

#[test]
fn no_key_keeps_tool() {
    let mut tool = TransformTool::Scale;
    let views = handle_keyboard_shortcuts(&no_keys(), &mut tool, SceneViewMode::Mode3D);
    assert_eq!(tool, TransformTool::Scale);
    assert!(views.is_empty());
}

#[test]
fn numpad_views_in_3d() {
    let mut tool = TransformTool::Move;
    let keys = ShortcutKeys { num1: true, num3: true, num7: true, num0: true, ..no_keys() };
    let views = handle_keyboard_shortcuts(&keys, &mut tool, SceneViewMode::Mode3D);
    assert_eq!(views, vec![CameraView::Front, CameraView::Right, CameraView::Top, CameraView::Perspective]);
}

#[test]
fn numpad_views_with_ctrl() {
    let mut tool = TransformTool::Move;
    let keys = ShortcutKeys { num1: true, num3: true, num7: true, ctrl: true, ..no_keys() };
    let views = handle_keyboard_shortcuts(&keys, &mut tool, SceneViewMode::Mode3D);
    assert_eq!(views, vec![CameraView::Back, CameraView::Left, CameraView::Bottom]);
}

#[test]
fn numpad_ignored_in_2d() {
    let mut tool = TransformTool::Move;
    let keys = ShortcutKeys { num1: true, num0: true, ..no_keys() };
    let views = handle_keyboard_shortcuts(&keys, &mut tool, SceneViewMode::Mode2D);
    assert!(views.is_empty());
}

#[test]
fn play_button_requests() {
    let mut play = false;
    let mut stop = false;
    handle_play_stop_button(false, true, &mut play, &mut stop);
    assert!(play && !stop);

    let mut play = false;
    let mut stop = false;
    handle_play_stop_button(true, true, &mut play, &mut stop);
    assert!(!play && stop);

    let mut play = false;
    let mut stop = false;
    handle_play_stop_button(true, false, &mut play, &mut stop);
    assert!(!play && !stop);

    let mut play = true;
    let mut stop = false;
    handle_play_stop_button(true, false, &mut play, &mut stop);
    assert!(play && !stop);
}

#[test]
fn mode_switch_only_on_change() {
    assert_eq!(camera_mode_switch(SceneViewMode::Mode2D, SceneViewMode::Mode3D), Some(SceneViewMode::Mode3D));
    assert_eq!(camera_mode_switch(SceneViewMode::Mode3D, SceneViewMode::Mode2D), Some(SceneViewMode::Mode2D));
    assert_eq!(camera_mode_switch(SceneViewMode::Mode3D, SceneViewMode::Mode3D), None);
}

#[test]
fn drag_state_cleared_when_not_dragging() {
    let mut entity = Some(7u64);
    let mut axis = Some(1u8);
    end_gizmo_drag_unless_dragging(true, &mut entity, &mut axis);
    assert_eq!((entity, axis), (Some(7), Some(1)));
    end_gizmo_drag_unless_dragging(false, &mut entity, &mut axis);
    assert_eq!((entity, axis), (None, None));
}

#[test]
fn click_selects_hovered_entity() {
    let mut selected = Some(3u64);
    select_on_click(true, false, false, false, false, false, Some(8), &mut selected);
    assert_eq!(selected, Some(8));
    select_on_click(true, false, false, false, false, false, None, &mut selected);
    assert_eq!(selected, None);
    let mut selected = Some(3u64);
    select_on_click(true, true, false, false, false, false, Some(8), &mut selected);
    assert_eq!(selected, Some(3));
    select_on_click(true, false, true, false, false, false, Some(8), &mut selected);
    assert_eq!(selected, Some(3));
    select_on_click(true, false, false, false, true, true, None, &mut selected);
    assert_eq!(selected, Some(3));
    select_on_click(true, false, false, false, true, false, Some(9), &mut selected);
    assert_eq!(selected, Some(9));
    select_on_click(false, false, false, false, false, false, None, &mut selected);
    assert_eq!(selected, Some(9));
}
