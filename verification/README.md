# ggez-goodies

Useful modules for 2D games: an asset cache, a scene stack, particle
systems, an input indirection layer with state tracking, sprite layering,
tile maps, bitmap font layouts and a tiny entity system.

The library in `src/` is verified with Verus: each public function states
what it returns or changes, and the laws that tie the functions together
are proved as proof functions (their names start with `law_`).

`app/` holds what the verifier does not reason about: floating-point
geometry and smoothing, random numbers and clocks, json and map files,
parallel component systems, and the scene loop over user scenes.

`tests/` runs the library on concrete values.
