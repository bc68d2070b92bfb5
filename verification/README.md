# mcp-tunnel

A public relay and the client that connects a local HTTP service to it. Clients register over a
WebSocket, each gets a subdomain, and the relay routes inbound HTTP requests by the first label of
the `Host` header. The client forwards them to a local server and streams the responses back.

- `src/` is the library, verified with Verus. It holds every decision of both sides as functions
  on plain values: who may use which subdomain (`auth`, `relay`), what the settings are (`config`),
  which headers pass (`headers`), what becomes of a request and of the frames that answer it
  (`requests`), how a response is cut into frames (`forward`), and how a client registers and takes
  requests (`client`). `protocol` has the frames, `text` and `string_map` what the rest builds on.
- `outside` and `tables` are the calls into other crates (base64, sha2, uuid, http, dashmap) and
  into two parts of std. Their contracts are not proved; everything else is.
- `app/` is the program around the library: sockets, timers, JSON and printing.
- `tests/` runs the library.

Sockets, channels and tasks are named in the library by handles, numbers that `app/` maps to the
things themselves.
