# gravity_funnel

A cartoon solar system drawn on a "gravity funnel" (a softened Newtonian
potential rendered as a sheet), with trails behind the orbiting bodies, a
documentation window and a small 2D N-body demo.

- `src/` is the verified library: the bounded trails (`trail`), the registry
  that pairs every body with its trail (`registry`), the names of bodies
  spawned at run time (`naming`) and the documentation tabs (`doc_tab`).
- `app/` is the Bevy program around it: rendering, input, the egui window,
  random spawning, and all floating-point geometry and physics
  (`app/physics.rs`), which the verified library does not take.
- `tests/` exercises the library on concrete values.
