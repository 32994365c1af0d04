//! Scene view tools: the transform tool, the 2D/3D mode, keyboard shortcuts
//! and the play/stop button of the toolbar.

use vstd::prelude::*;

verus! {

/// The gizmo that the scene view shows for the selected entity.
#[derive(Debug, Clone, Copy, PartialEq, Eq, Structural)]
pub enum TransformTool {
    /// No gizmo, the view only (Q).
    View,
    /// Move gizmo (W).
    Move,
    /// Rotation gizmo (E).
    Rotate,
    /// Scale gizmo (R).
    Scale,
}

/// Whether the scene view shows the scene flat or in perspective.
#[derive(Debug, Clone, Copy, PartialEq, Eq, Structural)]
pub enum SceneViewMode {
    Mode2D,
    Mode3D,
}

/// The axes in which the gizmos move, rotate and scale.
#[derive(Debug, Clone, Copy, PartialEq, Eq, Structural)]
pub enum TransformSpace {
    Local,
    World,
}

/// A preset direction of the scene camera.
#[derive(Debug, Clone, Copy, PartialEq, Eq, Structural)]
pub enum CameraView {
    Front,
    Back,
    Right,
    Left,
    Top,
    Bottom,
    Perspective,
}

/// The keys pressed in one frame that the scene view reacts to, and whether
/// Ctrl is held.
#[derive(Debug, Clone, Copy, PartialEq, Eq, Structural)]
pub struct ShortcutKeys {
    pub q: bool,
    pub w: bool,
    pub e: bool,
    pub r: bool,
    pub num1: bool,
    pub num3: bool,
    pub num7: bool,
    pub num0: bool,
    pub ctrl: bool,
}

/// The tool after the tool shortcuts of one frame: Q, W, E and R select View,
/// Move, Rotate and Scale, and of several pressed together the last in that
/// list wins.
pub open spec fn tool_after_keys(keys: ShortcutKeys, current: TransformTool) -> TransformTool {
    if keys.r {
        TransformTool::Scale
    } else if keys.e {
        TransformTool::Rotate
    } else if keys.w {
        TransformTool::Move
    } else if keys.q {
        TransformTool::View
    } else {
        current
    }
}

/// The view that one numpad key asks for, if pressed.
pub open spec fn view_if(pressed: bool, view: CameraView) -> Seq<CameraView> {
    if pressed {
        seq![view]
    } else {
        Seq::empty()
    }
}

/// The camera views that the numpad shortcuts of one frame ask for, in the
/// order they are applied: 1 front (back with Ctrl), 3 right (left with
/// Ctrl), 7 top (bottom with Ctrl), 0 perspective; in 3D mode only.
pub open spec fn camera_views_for(keys: ShortcutKeys, mode: SceneViewMode) -> Seq<CameraView> {
    if mode == SceneViewMode::Mode3D {
        view_if(keys.num1, if keys.ctrl { CameraView::Back } else { CameraView::Front })
            + view_if(keys.num3, if keys.ctrl { CameraView::Left } else { CameraView::Right })
            + view_if(keys.num7, if keys.ctrl { CameraView::Bottom } else { CameraView::Top })
            + view_if(keys.num0, CameraView::Perspective)
    } else {
        Seq::empty()
    }
}

/// Applies the keyboard shortcuts of one frame: sets the current tool and
/// returns the camera views to apply, in order.
pub fn handle_keyboard_shortcuts(
    keys: &ShortcutKeys,
    current_tool: &mut TransformTool,
    scene_view_mode: SceneViewMode,
) -> (views: Vec<CameraView>)
    ensures
        *final(current_tool) == tool_after_keys(*keys, *old(current_tool)),
        views@ == camera_views_for(*keys, scene_view_mode),
{
    if keys.q {
        *current_tool = TransformTool::View;
    }
    if keys.w {
        *current_tool = TransformTool::Move;
    }
    if keys.e {
        *current_tool = TransformTool::Rotate;
    }
    if keys.r {
        *current_tool = TransformTool::Scale;
    }
    let mut views: Vec<CameraView> = Vec::new();
    if scene_view_mode == SceneViewMode::Mode3D {
        if keys.num1 {
            if keys.ctrl {
                views.push(CameraView::Back);
            } else {
                views.push(CameraView::Front);
            }
        }
        let ghost after1 = views@;
        if keys.num3 {
            if keys.ctrl {
                views.push(CameraView::Left);
            } else {
                views.push(CameraView::Right);
            }
        }
        let ghost after3 = views@;
        if keys.num7 {
            if keys.ctrl {
                views.push(CameraView::Bottom);
            } else {
                views.push(CameraView::Top);
            }
        }
        let ghost after7 = views@;
        if keys.num0 {
            views.push(CameraView::Perspective);
        }
        proof {
            let k = *keys;
            assert(after1 =~= view_if(k.num1, if k.ctrl { CameraView::Back } else { CameraView::Front }));
            assert(after3 =~= after1 + view_if(k.num3, if k.ctrl { CameraView::Left } else { CameraView::Right }));
            assert(after7 =~= after3 + view_if(k.num7, if k.ctrl { CameraView::Bottom } else { CameraView::Top }));
            assert(views@ =~= after7 + view_if(k.num0, CameraView::Perspective));
        }
    } else {
        proof {
            assert(views@ =~= Seq::<CameraView>::empty());
        }
    }
    views
}

/// What the play/stop button of the toolbar asks for when clicked: play when
/// the scene is not playing, stop when it is. A request already raised stays
/// raised.
pub fn handle_play_stop_button(
    is_playing: bool,
    clicked: bool,
    play_request: &mut bool,
    stop_request: &mut bool,
)
    ensures
        *final(play_request) == (*old(play_request) || (clicked && !is_playing)),
        *final(stop_request) == (*old(stop_request) || (clicked && is_playing)),
{
    if clicked {
        if !is_playing {
            *play_request = true;
        } else {
            *stop_request = true;
        }
    }
}

/// The mode the scene camera has to switch to after the toolbar changed the
/// view mode from `previous` to `current`; none when it did not change.
pub fn camera_mode_switch(previous: SceneViewMode, current: SceneViewMode) -> (r: Option<
    SceneViewMode,
>)
    ensures
        r == (if previous == current {
            None::<SceneViewMode>
        } else {
            Some(current)
        }),
{
    if previous != current {
        Some(current)
    } else {
        None
    }
}

/// Ends a frame of the scene view: when the pointer is not dragging, the
/// gizmo drag (the entity dragged and the axis it moves along) is over.
pub fn end_gizmo_drag_unless_dragging(
    dragged: bool,
    dragging_entity: &mut Option<u64>,
    drag_axis: &mut Option<u8>,
)
    ensures
        *final(dragging_entity) == (if dragged {
            *old(dragging_entity)
        } else {
            None::<u64>
        }),
        *final(drag_axis) == (if dragged {
            *old(drag_axis)
        } else {
            None::<u8>
        }),
{
    if !dragged {
        *dragging_entity = None;
        *drag_axis = None;
    }
}

/// Whether the pointer drives the camera in this frame: a drag with the
/// middle or the right button, or with the left button while Alt is held.
pub open spec fn camera_drag(middle_drag: bool, right_drag: bool, left_drag: bool, alt: bool) -> bool {
    middle_drag || right_drag || (alt && left_drag)
}

/// Handles a click in the scene view: a click that is neither a drag nor a
/// camera move selects the entity under the pointer, or clears the selection
/// when there is none; otherwise the selection stays.
pub fn select_on_click(
    clicked: bool,
    dragged: bool,
    middle_drag: bool,
    right_drag: bool,
    left_drag: bool,
    alt: bool,
    hovered_entity: Option<u64>,
    selected_entity: &mut Option<u64>,
)
    ensures
        *final(selected_entity) == (if clicked && !dragged && !camera_drag(
            middle_drag,
            right_drag,
            left_drag,
            alt,
        ) {
            hovered_entity
        } else {
            *old(selected_entity)
        }),
{
    let is_camera_control = middle_drag || right_drag || (alt && left_drag);
    if clicked && !dragged && !is_camera_control {
        *selected_entity = hovered_entity;
    }
}

} // verus!
