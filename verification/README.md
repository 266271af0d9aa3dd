# equicloud

equicloud keeps the settings and the data of chat clients in sync between a user's
devices. Users log in through Discord; their data lies in ScyllaDB.

- `src/` is the library: key validation, checksums and compressed storage, the
  versioned writes, the sync of a client with the server, the login, migrations, and
  the reply to every request. All of it is verified with Verus.
- `app/` is the server around it: HTTP, the database driver, the requests to Discord
  and the JSON forms of the library's types.
- `tests/` runs the library, with the crates that it is built on, on concrete values.

The library decides and the server acts. Where a request needs several answers from
outside, such as a write that is repeated until the database applies it, the library
holds the state of it and takes one answer at a time (`rounds`, `migration_run`,
`routes::oauth`).

What the library takes on trust are the calls into the crates `ahash`, `base64`,
`hex`, `http`, `itoa`, `rand`, `sha2` and `zstd` and two functions of the standard
library. Each stands behind a small function whose comment says what is claimed of
it.
