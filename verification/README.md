# embedcache

A content-addressed local embedding cache: same input text and same model
give the same cached vector, so an embedding is computed once.

- `src/` is the verified library. It decides everything the cache does:
  - `key`: the 32-byte blake3 key of `(model, text)`, with a zero byte
    between the two so that no two pairs (with NUL-free model names) hash
    the same bytes;
  - `entry`: the stored value, `[u64 inserted_at LE][u32 dim LE][dim x u32 LE]`,
    with encode/decode and their round-trip laws;
  - `policy`: the configuration (an optional, non-zero time-to-live), what a
    lookup returns for a stored value, and the sweep of expired entries;
  - `order`, `eviction`: size-bounded eviction, oldest first;
  - `stats`, `clock`, `error`.
  Vectors are handled as the bit patterns of their `f32` components.
- `app/` opens the redb database, runs its transactions, converts between
  `f32` and bit patterns, and exposes the cache to Python through PyO3.
- `tests/` exercises the library on concrete values.
