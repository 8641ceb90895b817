# rayforge

A small ray tracer whose integer and text logic is a verified Verus library.

- `src/splitmix.rs` — the SplitMix64 state walk and output mixer, with proofs
  that the mixer is a bijection, that the walk does not repeat within 2^64
  draws, and that rejection sampling always stops.
- `src/rng.rs` — the generator: `next_u64`, `next_u32`, `range_u64`,
  `shuffle`, `split`, `Default`.
- `src/text.rs` — trimming, splitting, decimal parsing and printing, stated
  over the characters of the strings.
- `src/config.rs` — the `key = value` configuration store and its typed
  getters.
- `src/settings.rs` — the camera's whole-number and text settings, their
  defaults, and how a configuration overrides them key by key.
- `src/error.rs` — configuration and render errors, with their messages.
- `src/render.rs` — how rows are handed out to rendering threads and how the
  finished bands are put back together behind the PPM header.
- `app/` — the program: vectors, rays, spheres, the camera and the threaded
  render loop, which work in floating point.
