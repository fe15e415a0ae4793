# dspatch_router

The agent router that runs inside a dspatch container. Agents talk to it;
it talks to the engine over one WebSocket.

`src/` is the library, verified with Verus:

- `state_machine`, `feed`, `instance_router`: one agent instance — its
  lifecycle states, which inbound events it takes now and which wait in its
  buffer, and its stack of turn ids.
- `agent_host`, `host_router`: the instances of every agent, talk_to chains
  with cycle detection, conversation reuse, inquiry bubbling to supervisors,
  and the relay to the engine.
- `grpc_service`, `output`: what the router's RPCs decide between their
  awaits, and the engine package of each agent report.
- `wire`, `wal`, `ws_client`, `config`: engine packages, the write-ahead log,
  the engine connection's decisions, and the settings.
- `json`, `channel`: the calls into serde_json, tokio and uuid, each with the
  contract the rest of the library relies on.
- `laws`: properties that span several operations.

Packages are held as JSON text; the contracts speak of them through the
names in `json`.

`app/` is the binary: environment, files, sockets, timers and the waiting
between the two halves of each RPC.
