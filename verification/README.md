# conduit

An SSH tunnel tool — reverse tunnels (`connect`, `expose`), local forwards
(`forward`), each in the foreground or as a managed daemon (`--daemon`), and
the lifecycle commands for managed tunnels (`list`, `status`, `close`, `stop`,
`restart`, `delete`, `logs`) — whose rules are verified with Verus.

- `src/` is the verified library: the parsers for `--remote`, `-L` and `-r`
  specifications and server addresses, the configuration rules of each
  command, the tunnel record and its stored text format, the lifecycle
  transitions of records, the reconnect policy and the text that the
  lifecycle commands print. Contracts are stated over `Seq<char>` models; the
  laws (round trips of the record format and of the specifications, restart
  of a started tunnel, listing order, backoff schedule, distinct forward
  binds) are proof functions.
- `app/` is the program around it: command-line parsing with clap, the
  registry files under `~/.conduit`, process checks, daemonizing, logging and
  the SSH sessions (russh on tokio).
- `tests/` runs the library on concrete values.
