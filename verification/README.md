# someip

A SOME/IP implementation whose logic is verified with Verus.

- `src/` is the verified library: the SOME/IP header and packet codec
  (`someip_codec`), service discovery entries, options and messages
  (`sd_entries`, `sd_options`, `sd_messages`), the offer state machine and the
  service discovery server (`sd_server_sm`, `sd_server`), the decisions of
  clients, servers and fields (`client`, `server`, `field`), the allocation of
  method ids (`method_ids`), and a small binary data format
  (`serde_someip`). Each public function states what it returns in its
  contract, and the `law_*` proof functions state what holds across calls.
- `app/` holds what runs around it: sockets and tasks on tokio, timers, the
  serde traits of the data format, and the client and server loops.
- `tests/` runs the library on concrete values.
