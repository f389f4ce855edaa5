# peer_connect

A terminal chat in which a registry server records, for each logged-in user,
the address its peer listens on; peers look each other up through the server
and then talk directly over WebSockets.

- `src/` is the verified library:
  - `text.rs`: splitting, trimming, decimal notation, lossy UTF-8 decoding,
    with the split/join laws;
  - `names.rs`: a name-keyed map with distinct keys, viewed as a `Map`;
  - `error.rs`: the request errors and their messages;
  - `server.rs`: the registry, one connection's request handling as a step
    from state and request to new state, registry and broadcast lines, and
    the routing of broadcast lines to connections;
  - `peer.rs`: the menu, commands, notifications, the handling of lines
    from the server, and the login dialogue;
  - `wire.rs`: WebSocket messages as the library sees them, and the channel
    lines that carry server reads and peers' messages apart;
  - `handlers.rs`: the write sides of open connections and the plans for
    sending and looking up;
  - `laws.rs`: properties that span several of the above.
- `app/` runs the programs (`server`, `peer`) with tokio and tungstenite.
- `tests/` exercises the library on concrete values.
