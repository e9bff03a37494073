# flywheelmc_wasm

The host side of a plugin that runs WebAssembly modules inside a Minecraft
server, written in Verus.

- `src/` is the verified library:
  - `le` and `types`: guest pointers and the little-endian layout of the
    values that cross the guest boundary;
  - `runner::callctx`: bounds-checked reads and writes of a guest's linear
    memory, with the laws that a read gives back what a write stored;
  - `runner::event`: the events queued for a guest and how a guest reads
    them back;
  - `runner::player`: the one-to-one registry of player sessions, kept in a
    `bimap::BiBTreeMap`;
  - `sig` and `import_defs`: the names of the host functions a guest can
    import and the functions a guest can export, the block-list format of
    `flywheel_world_set_blocks` with its reader (which reads a list exactly
    when the guest's memory holds it laid out in that format), and the
    monotonic clock behind `flywheel_system_dur_since_epoch`.
- `app/` is the Bevy plugin around it: the wasmtime engine and linker, the
  async host functions and the ECS systems. It calls the library for every
  decision and performs the calls into wasmtime, Bevy and the server crates.
- `tests/` runs the library on concrete values.
