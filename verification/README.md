# necropolis

The rules of ORBITAL NECROPOLIS, a colony-defence game played on a square
tile map: terrain and buildings on the grid, the day/night clock and launch
sequence, power networks, conveyor routing, the enemy flow field, fog of war,
world generation, research, events, drone and enemy decisions, menus, the
tutorial and the save format. They are written in Verus and proved against
their contracts.

- `src/` is the verified library. Each module states its data model with spec
  functions and views; laws that relate several operations (a saved map read
  back gives every cell's terrain, deposit, discovery and walkability again;
  four phase changes lead to the same phase one day later; placing and then
  destroying a building leaves its footprint free and without conveyors and
  every other cell as it was, ...) are public proof functions next to the
  code they are about.
- `tests/` runs the library on concrete values.
- `app/` is the Bevy program around it: windowing, rendering, input, the
  floating-point movement and combat, and the save file on disk.
