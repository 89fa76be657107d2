# mon2y

Game engines for playtesting board games with Monte Carlo tree search.

The rules of each game are written in Verus: every position has a view
(a mathematical model of the state), and the functions that list the moves
open to a player, carry a move out, and score a finished game are proved
against spec functions over that view.

## Layout

- `src/` — the verified library.
  - `c4`, `nt`, `cs`: Connect Four, No Thanks and Can't Stop.
  - `ebr/`: Emu Bay Railway Company — board, companies, auctions, track,
    dividends, the end of the game and the round summaries.
  - `utwid/`: a small dungeon crawler whose monsters are played by the
    search — level building (the board as a function of the drawn splits
    and goal cell, with exactly one goal), movement, the player's special
    actions, monster spawns and the turn order. Where a step draws random
    numbers, its contract states what holds for every draw.
  - `weighted_random`, `policy`, `actor`, `sender`, `games`, `injectable`:
    the pieces of the search that do not need floating point.
- `tests/` — tests of the library on concrete positions.
- `app/` — what is not verified: the search tree itself (its statistics
  are floating point), the Python bindings, the arena runner and the
  terminal front end of the dungeon crawler.
