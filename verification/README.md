# durak

The card logic of a console game of Durak ("the fool"), verified with Verus.

- `src/` is the library: cards and suits (`card`), building, dealing and
  replenishing the deck (`deck`), hands (`hand`), the cards on the table
  (`table`), the steps of a move (`moves`), the dialogs in which the players
  make them (`dialog`), passing the turn on (`game`),
  shuffling (`shuffle`, with `rand` behind one trusted function), and the
  properties that hold across these operations (`laws`).
- `app/main.rs` is the console program: it reads the players' choices,
  prints the table and runs the game loop with the library's functions.
- `tests/` runs the library on concrete games.
