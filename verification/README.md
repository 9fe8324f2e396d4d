# strategy

The simulation core of an isometric city-building game, verified with Verus:
resources and warehouses, buildings and their production chains, citizens and
their daily routine (a state machine), wood-cutting and hauling jobs, the
research tree, quests, the developer console, key bindings and menus, path
finding (cheapest paths, proved), the minimap layout, the choice of terrain
sprites, and the software drawing helpers (pixels, lines, markers, faces,
trees, sprite blits plain and scaled, tints, sprite-sheet cutting, draw order).

- `src/` is the library, all of it verified by Verus. Every public function
  states what it returns or changes in a contract; small private helpers carry
  contracts where their callers need them. Laws that relate several functions
  are public proof functions (`lemma_*`).
  The few calls into other code (upper-casing text, pushing a character to a
  string, drawing random numbers with `rand`) go through small trusted
  wrappers whose contracts say what those calls promise.
- `tests/` runs the library on concrete cases.
- `app/` is a program around the library: it reads the configuration (TOML),
  loads sprite sheets (PNG), drives the game clock, the tax income and the
  weather (all fractional), and runs a colony for a few game days without a
  window, optionally saving a picture of it.

Run the program with, for example,
`--days 3 --key Digit3 --cmd "gold 100" --road 0,0,4,0 --frame colony.png` (add
`--grid-minimap` for the tile-grid minimap).
