# Veldera

The verified core of a client that streams a globe: which tiles to load, keep, show and collide
with, how the camera changes its mode and flies to a place, how the first-person player moves, and
what the panels of the debug interface say and decide.

- `src/` is the library. Everything in it is verified with Verus. Numbers are whole: lengths,
  angles and times are counted in small units, which each module names at its top.
- `tests/` holds the tests of the library.
- `app/` is a client for the command line. It does the floating-point geometry, the network, the
  terrain files and the console.

The laws of the tile streaming stand together in `src/lod/laws.rs`; other modules state theirs
beside the functions they speak of, as public proof functions.
