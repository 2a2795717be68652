# lightning_net

Socket handling for running a lightning peer manager on blocking sockets and threads, with the
decisions verified in Verus.

- `src/` holds the decisions: what a socket descriptor passes on when data is sent, what the
  reading and the writing thread of a connection do next, and how a connection is wired up. The
  commands travel over crossbeam channels; what is taken on trust of those is stated in
  `src/channel.rs`.
- `app/` performs the decisions: it owns the sockets and the threads and talks to the peer
  manager.
- `tests/` runs the library on real channels.
