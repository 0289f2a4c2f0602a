# Qwencraft

A voxel sandbox: an endless world of blocks that is generated from a seed, that players
walk, fly, dig and build in, alone in a browser or together on a headless server.

The logic of the game is a library that [Verus](https://github.com/verus-lang/verus)
verifies. The functions in `src/` say in their contracts what they do, and the contracts
are proved.

## What is where

- `src/` is the verified library.
  - The world: `coords`, `block`, `terrain`, `world`, `column_top`, `map`, `building`,
    `physics`, `agent`.
  - What is drawn: `light`, `mesh`, `pool`, `compaction`, `chunk_set`, `chunk_table`,
    `sphere`, `uniforms`, `shader`, `picture`.
  - What is sent and saved: `wire`, `protocol`, `save`, `stream`, `stats`.
  - The server: `opts`, `tls`, `http`, `pages`, `registry`, `session`, `tick`.
  - The page: `input`, `controls`, `frame`, `link`, `tags`, `url`, `text`.
  - `chunk_table_laws`, `pool_laws` and `protocol_laws` hold laws about the modules
    that they are named after; the other modules end with their own.
- `app/` is what surrounds it: sockets, files, the browser, the GPU, and the arithmetic
  of floating-point numbers.
- `tests/` runs the library.

Numbers that are not whole stand in the library by their bits, and meshes in fixed
point: positions in thousandths of a block, colours and light in fixed shares. `app/`
turns them into floating point where they are drawn.

## What is trusted

Seven functions are called without proof, each behind one item that says what is claimed
of it: `getrandom::fill`, `rustls_pemfile::certs`, `rustls_pemfile::private_key`, the
system clock, `String::from_utf8`, `String::push` and `str::to_lowercase`.
