# engine — editor logic

The logic of the engine's editor, with its behaviour stated in contracts and
proved by Verus.

- `src/` is the verified library: collider settings, the ordering of tilemap
  layers, dock layouts and the project's custom layouts, the scene view's
  keyboard shortcuts, the texture inspector and sprite picker states, the UI
  prefab editor's checks, the hierarchy, maps and resources panels, and the
  text readers of the inspector (colors, script parameters, paths).
- `app/` holds what the library does not: reading and writing project files,
  serde records of the library's types, the egui_dock layouts, and the
  floating-point geometry of the 3D scene view.
- `tests/` runs the library on concrete values.
