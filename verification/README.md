# worldedit

Verified planning logic behind a set of WorldEdit-style commands of a
redstone-focused Minecraft server, written in Verus.

- `src/geometry.rs` — block positions and the six facings.
- `src/clipboard.rs` — flipping and rotating a copied region, the block state
  tables they go by, and laws for flipping twice and for composing rotations.
- `src/selection.rs` — shifting, moving and stacking selections, undo regions.
- `src/layout.rs` — schematic footprints, repeated paste grids and the undo box
  that covers them.
- `src/rom.rs` — reading binary weight files, planning a ROM lookup table and
  placing its barrels and circuit modules, and the order in which the ROM
  system command places them.
- `src/container.rs` — comparator signal strength to redstone dust inventories.
- `src/vertical.rs` — finding free spots above or below a player.
- `src/image.rs` — stamping a 28 x 28 bit image.
- `src/names.rs` — file name checks (with the `regex` crate).
- `src/history.rs` — taking undo/redo entries.
- `src/help.rs` — command help text and the table of commands, one per name.

`app/` holds the file-reading edges, player messages and the loops that run
the ROM system and repeated-stack commands against the world; `tests/` runs the
library on concrete inputs.
