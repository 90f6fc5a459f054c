# project2

The rules of a project of a code editor, verified with Verus.

A project holds worktrees, open buffers and running language servers, and it can be shared with other
participants. The crate under `src/` keeps the state of a project and decides what follows from each
event: a request of the user, a message of another participant, a report of a language server, a change
on disk. Everything that it asks of the world is a plain value (`effects::Effect`, or a plan that a
function returns); nothing in `src/` waits, reads a file or sends a message.

- `src/` is the library. Each function states in its contract what it changes and what it returns, and
  the properties that span several functions are public proof functions.
- `src/outside.rs` holds the functions of other crates that the library calls, with what is taken for
  granted of them: glob matching, line diffs, JSON members, digests and a random number.
- `tests/` runs the library on examples.
- `app/` carries out what the library decides: queues, timers, processes, files, edits and searches on several
  threads.
