# retinue

An endpoint-scoped Reticulum implementation whose protocol logic is proved correct with Verus.

- `src/` is the library: identities, destinations, announces and their freshness and admission,
  packets and carrier frames, reliable channels, the embedded node and its supervising instance,
  the routing endpoint, signed operator commands, MessagePack, and static pages. Each public
  function states what it returns or changes, and the `law_` proof functions state what holds
  across several of them.
- `tests/` runs the library on concrete values.
- `app/` is a tokio shell around it: sockets, timers, tasks and byte streams. The sealing of link
  packets comes in through the `LinkLayer` trait there.

The calls into `ed25519-dalek`, `x25519-dalek`, `sha2`, `hkdf`, `heapless` and `getrandom` stand
behind small trusted functions, each with a comment that says what is believed of it.
