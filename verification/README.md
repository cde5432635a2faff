# skat_aug23

A double-dummy solver and Monte Carlo player for the card game Skat, verified with Verus.

- `src/` is the verified library: card sets and their text, the rules of play, positions and
  moves, the transposition table and the alpha-beta search, the solvers built on it (win,
  value, every card, skat choice, all games), playouts with perfect information, the Monte
  Carlo search over unseen hands and the games played with it, hand analysis, move ordering,
  and a game played by a user against the solver.
- `tests/` exercises the library on concrete games.
- `app/` is the command-line program: it reads games from JSON files, calls the library and
  prints the results.
