# Lightcore rules

The rules of the Lightcore match-3 game as a verified library: every function in `src/` carries a
`requires`/`ensures` contract that Verus proves, and the laws that tie functions together are
proof functions of their own. Four small functions are trusted rather than proved, each a single
call whose contract claims no more than its library documents: `text::push_char` (`String::push`),
and in `run` `random_seed` (`rand::random`), `seeded_rng` (`StdRng::seed_from_u64`) and
`random_index` (`Rng::random_range`); `run` also declares the type `rand::rngs::StdRng`.

- `grid`, `falling`, `gravity`, `spawning`: the board, where a falling light goes, one gravity
  step over the whole board, and which cells a refill reaches.
- `wave`: which lights a removal wave takes, which powers fire next, and the super combo.
- `rewards`: what a removal wave pays.
- `swap`, `shop`, `input`: the player's swaps, the in-level shop and the menu inputs.
- `lifecycle`, `hud`: winning and losing a level, restarts, offers, and what the HUD shows.
- `campaign`, `run`, `storage`, `text`: campaign and run progress, their save texts, and where the
  save files live.
- `light`, `resolution`: light colors and kinds, and the internal render resolution presets.

`app/` is the launcher around the library: it reads the environment and the save files.
