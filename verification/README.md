# nara

The verified core of a small multiplayer tank shooter (a diep.io-style game):
the rules and data structures of the game server and client, written in
Verus and proved against their contracts.

## Layout

- `src/` — the library, every function verified:
  - `packets`: seeded packet ids, FNV-1a, junk padding sizes and bytes, framing.
  - `channel`: X25519 key agreement, HKDF key separation per direction,
    ChaCha20-Poly1305 with a per-direction message counter, for both ends.
  - `tanks`: the server's sparse set of tanks keyed by generational entity id.
  - `rules`: levelling (`grant_xp`), damage, kill rewards, shape tables, network ids.
  - `tank_tree`: the breadth-first upgrade tree built from tank definitions.
  - `collisions`: contact damage, and the bullet round (strikes, kills, the
    killers' experience, spent bullets), applied in order.
  - `session`: the client's session order and counters over the channel.
  - `tank_gen`, `tank_script`: slugs, defaults, and the layout of the tank
    script files made from the JSON catalogue.
  - `world`: the client's entity lists, stats and leaderboard as server
    packets update them.
  - `chat`, `tank_options`, `scores`, `controls`, `ip_lookup`, `events`: client
    and server decisions (chat logs, input and message headers, upgrade grid
    and stat bars, leaderboard, keyboard input, IP screening, script event
    listeners and administrator commands).
- `tests/` — tests on concrete values, including RFC 7748 vectors.
- `app/` — the server program: WebSocket I/O, bitcode payloads, the Lua tank
  loader and plugin host, the game loop, and the `gen-tanks` converter.

Floating-point state (positions, aim, timers, barrel geometry) is carried by
the library as `f32` bit patterns and interpreted only in `app/`.
