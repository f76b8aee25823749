# eternal_terminal

A remote terminal whose session survives disconnects, protocol version 6. A
client, a server and a terminal speak it:

```
client ──TCP 2022── server ──local socket── terminal (pseudo-terminal, shell)
```

`src/` is the library, verified with Verus. It does no input or output: each
part takes what arrived and says what to send, to whom, and what to wait for.

- `wire`, `messages`, `env`, `fault`: the message encoding, and what is wrong
  with bytes that are no message
- `packet`, `framing`, `crypto`: packets, frames, encryption
- `backed`: the resumable connection
- `client`, `session`, `console`: the client's side
- `router`, `server`: the server's side
- `terminal`, `jump`, `fifo`: the terminal's side
- `tunnel`, `forward`: port forwarding
- `ids`, `ssh`, `cli`: credentials, the handshake over ssh, command lines
- `text`, `error`: texts and errors

`app/` is the plumbing around it: sockets, tasks, processes, pseudo-terminals.

What the library promises as a whole stands in its `law_` functions. In
`backed`, for one: a reader that is in step with its writer hands out exactly
what was written, in order, and a reconnect brings it back in step as long as
what it misses is kept and its count fits the 32 bits of the exchange.

What is taken on trust are the calls into `crypto_secretbox`, `zeroize` and
`getrandom`, and three functions of the standard library. Each stands in a
wrapper of its own, with what is claimed of it.
