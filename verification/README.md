# wazir_drop

The rules and data structures of a game engine for the board game "0.1", with their
behaviour stated as Verus contracts and proved.

- `src/`: the verified library — squares, pieces, boards and positions with their
  invariants; legal moves and move generation; the text forms of moves, positions and the
  referee protocol, with parse/print round trips; the referee session as a state machine;
  repetition history; transposition and principal-variation tables; score packing;
  base-128 text encoding of bit streams; wazir-piece-square features with their
  incremental updates, and a linear evaluation kept up to date move by move.
- `app/`: the command-line program that talks to the referee on standard input and
  output. Its player plays the first move the library lists.
- `tests/`: tests of the library on concrete values.
