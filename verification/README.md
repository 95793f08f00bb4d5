# rustwebserver

A small HTTP server library whose logic is verified with Verus.

- `src/` is the verified library: string operations (`text`), a string map with the
  behaviour of `HashMap<String, String>` (`strmap`), path helpers (`utils`), request and
  header parsing (`http`), route registration, matching and resolution (`routing`), the
  server's route table and per-connection decisions (`server`), and properties that relate
  several functions (`laws`).
- `app/` holds the I/O: reading requests from sockets, writing responses, the thread pool
  that serves connections, and the error type with `thiserror` messages.
- `tests/` runs the library on concrete inputs.

Handlers are a type parameter of the route table; servers use `RouteHandler`, a function
from a request to a response.
