# nucleus agent

The agent keeps one WebSocket to its server. Over it the server opens tunnels to
TCP targets near the agent, and the agent reports the state of its device.

- `src/` is the library: the decisions, verified with Verus.
  - `frame`: binary frames and control frames
  - `control`: control commands, read from JSON
  - `tunnel`: the tunnel sessions and the reading side of a TCP connection
  - `connection`: reconnecting, and what each incoming message leads to
  - `health`: subnet masks, addresses, NetworkManager profiles, the heartbeat
  - `messages`: the messages of the protocol
  - `text`: lines, words, prefixes and decimal numbers
- `app/` is the program around it: sockets, files, commands, clocks, JSON.
- `tests/` runs the library on given values.

What the library takes on trust is marked `external_body`, `uninterp` or
`assume_specification`: parsing JSON (`serde_json`), decoding UTF-8 with
replacement characters, the clock, and appending a character to a string.
