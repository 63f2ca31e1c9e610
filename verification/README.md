# opc_ua

OPC UA transport: one node's value is one Stream — the binary encoding over
TCP, a secure channel with security policy None, an anonymous session, a Read
and a Write of a ByteString, against a server or the in-process one this crate
carries.

## Layout

- `src/` is the library, verified with Verus. It touches no socket: a `Client`
  and a `Session` are handed the messages that arrived, and append what is to
  be sent.
  - `codec`, `wire`, `node`, `text`: bytes, the binary encoding, node ids, and
    numbers and names in text.
  - `channel`: raw messages, and secure messages in chunks.
  - `service`, `endpoint`, `attribute`: the requests and responses spoken.
  - `client`, `session`, `values`: the two ends of a connection.
  - `conversation`, `history`: what the two ends come to between them, and a
    session over any calls.
  - `transport`: the endpoint, the node on it, send targets and origins.
- `app/` puts the two ends on sockets.
- `tests/` runs the library.

## What is proved

Each reader is held to a function from bytes to a value, a failure and the
bytes that are left (`Parsed`), and each writer to the bytes it appends. The
proof functions named `law_…` relate the two: what is written reads back; a
secure message read from its chunks, whatever their size, is the one that was
sent, and one that is cut or too long is an error; a value that was written is
served back to reads; a call off the activated session is refused and changes
nothing; and over any history of calls, what happened decides who is served
and what a node holds.

Taken on trust are what the standard library does with the clock, with bytes
that are not UTF-8, and with text printed in quotation marks.
