# DynaMaze

A multiplayer game about traversing a shifting maze: each turn, a player slides the loose tile
into a row or column of the board, then walks their token as far as the open paths allow,
trying to reach their target.

## Layout

- `src/` — the game's rules, verified with Verus:
  - `tile`, `parse`: tiles, directions and their rotations; boards drawn with box characters.
  - `board`, `inventory`: the board, inserting the loose tile, moving tokens; what the board holds.
  - `reach`, `targets`, `generate`: which cells a token can walk to; drawing targets; fresh boards.
  - `controller`: turns, keyboard and mouse input, moves, winning.
  - `tutorial`, `demo`: the tutorial's steps and the fixed demonstration game.
  - `menu`, `net`, `meta_net`: lobbies, the synchronized game state and the messages between players.
  - `server`: the relay server's routing and its websocket sessions.
  - `anim`, `gamepad`, `item`, `options`, `player`: smaller pieces.
- `tests/` — tests of the library.
- `app/` — the program around it: the browser client (page, canvas, sound, websocket) and,
  with `--server`, the relay server.
