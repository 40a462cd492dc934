# guido

The decisions of a Wayland layer-shell UI toolkit, written in Verus and
proved against their contracts.

- `src/surface.rs`: surface ids, configuration builders, how a surface's
  size is requested from the compositor (which axes it owns, what is
  measured), exclusive zones, the queue of surface commands the event loop
  drains, and popup handles.
- `src/session_lock.rs`: the session-lock state machine (requests, the
  compositor's answers, one lock surface per output) as a function from
  state and event to next state.
- `src/secret.rs`: a password buffer that is edited in place and wiped
  wherever it leaves bytes behind.
- `src/renderer/`: the draw-group ordering of flattened commands, the clip
  tree's parent links, the texture caches' eviction (images, text masks and
  transformed text), the recycling of shaped text buffers, and when offscreen resources are held. Drawing itself (GPU
  work, geometry in floating point) is not here.
- `src/renderer_v2/`: the layers of the render-tree renderer.
- `src/platform.rs`, `src/id_map.rs`: the plain values and the small map the
  rest is built on.

`app/` is the unverified shell around the library: the thread-local state
the toolkit's free functions use, logging, and the loop that drives the
session lock against the compositor.
