# nodp2p

A peer-to-peer chat and file-transfer node built on libp2p: broadcast chat
over gossipsub, private text and files over a request-response protocol,
and discovery of peers on the local network over mDNS.

- `src/` is the verified library (Verus). `node` holds the node's decisions:
  from a network event or a command to the node's next state and the
  actions for the network layer, with the laws that span them (a broadcast
  text, a private text and a non-empty file arrive as sent; every private request is
  answered once). `peer`, `transfer`, `input`, `identity`, `text` hold the
  peer set, file splitting and reassembly, the reading of typed lines, key
  handling and text decoding.
- `app/` is the program around it: the libp2p swarm and its event loop,
  files, the terminal.
- `tests/` runs the library on concrete values.
