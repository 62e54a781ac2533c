# qtx

The logic of an asynchronous GUI framework on Qt Widgets, with its
behaviour stated in contracts and proved.

- `src/runtime.rs`: the settings handed to Qt and the preparation of the command line
  (NUL-terminated arguments, the errors of a bad command line or an unknown style).
- `src/executor.rs`: the table of tasks that run on Qt's event loop: identifiers handed out,
  freed and reused, and what a poll does to the table.
- `src/reactive.rs`: a value and its subscriptions, kept in a `slab::Slab`: who is told of a
  change and who is dropped after it.
- `src/string.rs`: the reference-counted string built from Qt's UTF-16 text.
- `src/mem.rs`: the layout of a Qt object followed by its Rust data, the size of `malloc`
  blocks and reference counts.
- `src/windows.rs`: when awaiting the main window finishes.

`app/` holds what drives Qt itself: the calls into the C++ side, the raw pointers to Qt
objects, the polling of futures and the closures of subscribers.
