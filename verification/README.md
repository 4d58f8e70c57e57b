# rlay

A headless layout engine, split in two:

- `src/` is the verified library (Verus). It holds everything that is
  decided on plain values: FNV hashing and stable element ids, the pointer
  registry and its per-frame lifecycle, pointer captures, the slot tree
  behind the immediate-mode frame builder, node checks and capacity limits,
  greedy word wrapping as a measuring state machine, transition lifecycles
  and property flags, scroll gesture decisions, and pointer queries over hit
  records. Every public function has a contract, and the laws that tie
  several calls together are public proof functions next to the code they
  speak of.
- `app/` is ordinary Rust around it: the `f32` geometry, sizing and
  placement passes, text measurement and line boxes, animation curves,
  scroll physics, and a macroquad renderer. It calls the library for each
  decision listed above.

`tests/` exercises the library on concrete values.
