//! Editor logic of the engine: collider settings, layer ordering, dock
//! layouts, scene view shortcuts, the prefab editor, the panels' file lists
//! and navigation, and the small text readers of the inspector.

pub mod map_manager;
pub mod layer_ordering;
pub mod collider_settings;
pub mod hex_color;
pub mod text;
pub mod lua_params;
pub mod scene_tools;
pub mod dock_layout;
pub mod editor_ui;
pub mod texture_inspector;
pub mod sprite_picker;
pub mod paths;
pub mod prefab;
pub mod performance;
pub mod map_view;
pub mod hierarchy;
pub mod resources;
pub mod script_component;
pub mod debug_info;
