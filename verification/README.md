# miningsim

The rules of a 2D mining game, verified with Verus: a tile grid, digging with
tools of different tiers, an inventory and a shop, smelting, conveyor belts
with back-pressure, seeded terrain generation, chunk meshing tables and the
command-line mode choice.

- `src/` is the verified library. Each public function states its result in
  its contract; the laws that span functions are public proof functions
  named `law_*`.
- `app/` is the command-line program around it: argument handling, the save
  file (RON through serde), floating-point world coordinates and player
  collision, and vertex placement for chunk meshes.
- `tests/` runs the library on concrete values.

Terrain generation draws its random rolls from `rand`'s `StdRng` seeded with
the world seed; that draw is the library's one trusted call, and everything
built from the rolls is verified.
