# esotereel

The verified core of the Esotereel video editor's host side, written in
Verus.

- `src/` is the library. Every function in it has a contract that Verus
  proves: the values that cross the C boundary (strings, options, results,
  field values and their C form), the status codes and last error message of
  the GUI helper, the rows of the timeline widget, what each client watches
  and which client each change of the project is sent to, the server's
  answer to each request and the client's handling of each message, the
  command queue, toolbar layouts, property categories, the framing of
  messages on the wire and the registry of connections.
- `src/laws.rs`, and proof functions beside the code they speak of, state
  the properties that hold across calls: reading back what was written
  (field values, frames), what a client is sent after it asks for a range or
  opens a project, that each opened media stream gets a new id.
- `tests/` runs the library on concrete values.
- `app/` is the program and the C surface around the library: sockets,
  threads, raw pointers, and the glue to the editor's core library (the
  project data, media decoding, plugins and message encoding).
