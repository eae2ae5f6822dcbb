# crile

The core of a small 2D game engine and its editor, verified with Verus.

`src/` is the verified library:

- `ecs`: an archetype-based entity component system (`World`, `Archetype`,
  `ComponentArray`), scenes that arrange entities in a parent/child hierarchy
  (`Scene`), and the checks and rebuilding behind saving and loading scenes
  (`SceneSerializer`).
- `events`: key and mouse button codes and the per-window keyboard and mouse state.
- `graphics`: hexadecimal colors, window settings, and the allocator that decides
  where uniform data goes in GPU buffers; creating the buffers and writing them is a
  renderer's work, which this crate does not include.
- `editor`: project paths and the editor's play/stop/save/load decisions.
- `hashmap`: the pass-through hasher and the hash maps and sets the library keeps.

Components are opaque to the library: a world stores values of any type `C`, keyed
by a component type id and checked against the type's size and alignment.

`app/` is the host side: file access, the TOML text of scenes, projects and
preferences, windows and their events on winit, the editor's panels on egui, the system
clipboard, and the
floating-point components, colors and cameras built on glam.
