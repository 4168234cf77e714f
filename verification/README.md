# tze_hud_compositor

The presentation logic of the HUD compositor, written in Verus and proved
against its contracts: the viewer-echo store and its text, the composer echo
(caret blink, caret placement, line windows), the cache re-prime gates, the
alert-banner and painter's tile order, the retained headless lane (its
planner, canonical snapshots and evidence slots), design-token colour
notation, image registration bytes, scene subtree collection, status-bar
and stream-reveal zone text, the streaming-reveal fade slices, the icon
negative cache, and the tab order of notification affordances.

Layout:

- `src/` — the verified library, one module per concern; each public
  function states its result in `ensures`, and the `law_*` proof functions
  state the properties that relate several calls.
- `tests/` — executable tests of the library on concrete values.
- `app/` — the floating-point geometry (linear colours, pixel rectangles)
  and clock adapters (`Duration`, `Instant`) around the library.

GPU work (wgpu pipelines, glyph rasterisation, texture uploads) is not part
of this crate.
