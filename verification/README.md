# io-replica

Offline-first replica engine, written in Rust and verified with Verus.

The library maintains a local replica of remote collections of items (mail
first, contacts and calendar next), usable fully offline, and reconciles it
with the remote through a three-way merge against a stored base. It owns no
wire protocol and no on-disk format: its five verbs are coroutines that ask
for what they need, and a consumer answers.

- `src/` is the library. Every item of it is verified: each verb has a view and
  a step function, and is proved to take exactly that step on every reply.
  `src/laws/` states what the engine keeps as a whole.
- `tests/` runs it, verb by verb and over the blocking driver.
- `app/` makes the engine's failures `std::error::Error`s.

| Module | What it holds |
| --- | --- |
| `open`, `upgrade`, `mutate`, `sync`, `rekey` | the verbs |
| `hub` | one item shared by several sources |
| `client` | the blocking driver and its two seams |
| `object`, `placement`, `collection` | the item model |
| `change`, `remote`, `storage`, `coroutine` | what crosses the seams |
| `order`, `sorted`, `value`, `digest` | what the rest is built on |
| `laws` | what holds of all of it |
