# shuffle

A shuffle service connects the members of a session. The session opens a slice at every
member, every slice opens a queue at every member, and each of them answers its caller
once all that it opened have answered. `src/` decides all of this, and is verified with
Verus; `app/` serves it over gRPC.

- `session`, `slice`, `queue`: what each RPC does next, as a state machine from what
  happened to what is to be done, and the laws of its responses.
- `rpc`: opening RPCs to all peers side by side.
- `streams`: many Queue RPCs on one handler, in whatever order their events come.
- `mesh`: how the requests that one RPC sends meet the RPC that takes them.
- `status`: errors, and the gRPC statuses that they are reported as.
- `message`, `dialer`, `service`: requests and responses, connections, and the handlers
  of a whole service.
