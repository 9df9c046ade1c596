# wasm_portfolio

The integer logic behind a set of browser demos, verified with Verus:

- `src/fb.rs`: the Solar Siege framebuffer and its backdrop.
- `src/sand.rs`: the falling-sand simulation: brush, gravity with
  acceleration, sinking, sliding and flowing water, and the pixel colours of
  a frame. `src/sand_laws.rs` proves that a tick only rearranges material,
  never moves stone and never lifts sand, and what a brush stroke may change.
- `src/scores.rs`: the high-score table, its stored text format, parsing and
  ranking. `src/scores_laws.rs` proves that storing then loading a table
  gives it back.
- `src/siege.rs`: the Solar Siege rules: waves and budgets, enemy mix,
  scoring and combos, lives and shields, key bindings, name entry.
  `src/siege_laws.rs` proves what every key and event keeps.
- `src/rng.rs`, `src/audio.rs`: the shared xorshift generator and the sound
  gate.

`app/` is the browser side (wasm-bindgen exports, canvas, WebAudio, local
storage) and everything computed in floating point: the path tracer, the
arena physics, the rasteriser and the backdrop gradients.
