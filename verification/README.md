# rust_p2p

A small peer-to-peer node whose logic is verified with Verus.

- `src/` is the library: peer addresses (`address`), the messages peers exchange
  (`message`), the node with its peer list (`node`), random node identifiers
  (`node_id`, over the `uuid` crate), random gossip order (`sampling`, over `rand`),
  the plan by which one message goes to a list of peers (`fanout`) and the gossip
  loop's decisions (`gossip`). Every function there carries a contract. Properties
  over a series of calls (a series of peer additions or of arriving messages, a
  fan-out that meets a failed send, a peer in later gossip rounds) are stated as
  proof functions in `node.rs` and `fanout.rs`, over the spec functions that the
  contracts use.
- `app/` is the program: it reads `config.toml`, logs to `app.log`, encodes
  messages as JSON, talks TCP with tokio, reads the terminal, and carries out the
  library's plans.
- `tests/` runs the library on concrete values.

Configuration (`config.toml`):

```toml
[broadcast]
address = "127.0.0.1:8080"

[peers]
addresses = ["127.0.0.1:8081", "127.0.0.1:8082"]
```
