# expect

Drive interactive programs: send input to a process that runs in a terminal of its own, and wait for
the output that is expected of it.

The library in `src/` is written in Verus. It holds what is decided: where a pattern matches in the
output, what a request is answered and when, which bytes are written next and which are left. It
reads, writes and waits for nothing: what a read, a write or a timer has shown is handed in as a
value.

- `text`: bytes, lines and the text they stand for. Output need not be valid UTF-8: patterns are
  looked for in the text that it stands for, and a match is cut out of the bytes behind that text.
- `engine`: sessions that share one event loop. `matching` searches the output, `match_request` holds
  the requests, `transfer` moves bytes, `session` ties them together, `client` and `eventloop` are
  the other ends. `laws` states what holds of all of them.
- `client`: what a user of a session calls.
- `worker`: one session with an event loop of its own.
- `outside`: what is taken from other crates, and what is believed of it.

`app/` runs the library: threads, channels, timers and pseudo terminals. `tests/` runs it on
concrete values.
