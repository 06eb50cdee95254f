# up4

A userspace P4 switch over UDP, as a verified library and a thin program around
it.

- `src/` is the library: the overlay wire format and its sequence arithmetic,
  configuration, match-action tables and the shipped programs, the receive and
  transmit path of a shard, counters and snapshots, the control channel, the
  compiled back end's object loader and tables, and the traffic generator's
  arithmetic. Verus proves the contract of every function of it but the
  wrappers named below.
- `tests/` runs the library on concrete values.
- `app/` is what touches the host: sockets, threads, signals, files, JSON and
  TOML, and the execution of compiled programs.

The outside functions the library relies on stand behind a handful of small
wrappers. Their contracts are believed, not proved; the comment above each says
what is claimed of the function it calls.
