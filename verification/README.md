# catan

A deterministic engine for the board game Catan, written in Verus: every
rule of the game is a function with a contract, and Verus proves that the
code meets it.

The engine never draws lots. Dice, the arrangement of the tiles and every
other chance event are handed in by the caller, so the same state and the
same action always give the same result.

## Layout

- `src/geometry` — hexagons, the topology of a board (tiles, vertices,
  edges and how they touch) and the laws that tie them together.
- `src/resource` — resource counts, hands and costs.
- `src/board` — tiles, buildings, production, and the placement rules;
  `src/board/invariants.rs` states what the placement rules keep.
- `src/scenario.rs` — a board variant and how its tiles and tokens are laid.
- `src/game.rs` — the turn sequence; `src/game/laws.rs` states what holds
  across the game's actions.
- `src/text.rs` — the messages of the error types.
- `tests/` — scenarios played on concrete boards, among them a whole game.
- `app/` — the desktop client, drawn with `eframe`.
