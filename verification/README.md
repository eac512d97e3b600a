# btcmap_api

The request logic of the BTC Map API as a library whose behaviour is stated
in `requires` / `ensures` contracts and proved with Verus.

- `src/` is the verified library: argument checks and error answers, the
  activity feed, area and place search with its merged ranking and paging,
  area images (content types, SVG detection, fitting sizes), users, tokens
  and passwords, Nostr sign-in decisions, the admin dashboard's figures, and
  role, boost and Electrum server changes made by RPC, and the reading of
  the host's disk listing (`df -PB1`).
- Calls into `argon2`, `image`, `time`, `regex`, `uuid` and `names` stand in
  `src/` behind small trusted wrappers whose contracts say what the crates
  document; their results are named where they take more than a few lines
  to state.
- `app/` holds what cannot be verified: JSON shapes with serde's derives,
  actix's error answers, floating-point coordinates, distances and shapes,
  what is read from the host, and the activity feed and area ranking
  endpoints composed over a store interface.
- `tests/` runs the library on concrete values.
