# game

The rules of a small two-team skirmish (capturable nodes, units that march, drift,
pursue and fight, production, pointer selection), verified with Verus.

- `src/` — the rules as plain values, each function with its contract; positions are an
  opaque type parameter and every distance check is made by the engine, which hands in
  the results.
- `tests/` — concrete scenarios for the rules.
- `app/` — the Godot extension (gdext): the engine classes that measure distances,
  move, draw and read the pointer, and that call the rules each frame.
