# nogame

A small first-person 3D game (wgpu, egui, rapier3d) whose decision and
bookkeeping logic is a library verified with Verus.

- `src/` — the verified library:
  - `game_manager.rs`: screens, levels, frame-rate tiers, asset lists, held keys;
  - `session.rs`: the state machine that turns window, device and frame events
    into the next state and the actions the window layer performs;
  - `model_import.rs`: door and hinge names of scene nodes, pairing doors with
    hinges, the texture cache, RGB to RGBA, block sizes, the shared index buffer;
  - `scene.rs`: light-tile cache, loading progress, numbering doors across meshes;
  - `meshes.rs`: door tags, colliders to build, door motion and swing, draw plans;
  - `ui.rs`: the loading caption and bar length.
- `tests/` — tests of the library on concrete values.
- `app/` — the program: window, GPU, physics, audio and floating-point
  geometry, calling the library for every decision. Shaders are read at run
  time from `./shaders/`, assets from `./assets/`.
