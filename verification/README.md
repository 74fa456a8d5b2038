# memhold

A small service that holds a block of memory of a requested size, and tells how
much it holds. `GET /memhold/1.5` holds 1.5 GiB, `GET /memhold/0` gives it back,
and `GET /meminfo` reports. At most 6 GiB can be asked for.

- `src/gib.rs`: the amount of a request, from the bits of its binary64 number to
  bytes, and the rule on which amounts are taken.
- `src/pages.rs`: writing to every page of a buffer.
- `src/mem.rs`: the state, and setting how much is held. A reservation that the
  allocator refuses is tried again at half its size.
- `src/source.rs`: where the room for a buffer comes from.
- `src/lock.rs`: taking the lock on the shared state, poisoned or not.
- `src/clock.rs`: the current time in Beijing as text.
- `src/api.rs`: the two requests and their replies.
- `app/`: the HTTP routes, reading numbers, and the replies as JSON.

Everything in `src/` is verified with Verus. Believed without proof are the
functions marked `external_body`, each with a comment that says what is claimed of
the call it makes, the names `quoted` and `poisoned_guard` for what two of these
calls return, and the declarations of `Mutex`, `MutexGuard` and `PoisonError` as
opaque types.
