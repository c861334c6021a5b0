# canari

Dead man's switch monitoring for cron jobs and background services: a job that
stops pinging raises an alert.

- `src/` is the library: schedules and deadlines, what a ping does to its
  check, the alert loop's decisions, sessions and keys, notifications, and what
  pages, badges, forms and commands show and ask for. Every function carries a
  contract that Verus proves.
- `src/outside.rs` holds everything the library takes on trust: one item for
  each function of another crate or of the standard library, with what is
  claimed of it.
- `app/` is the server and the command line around the library: HTTP, SQLite
  and the terminal.
- `tests/` runs the library with the real crates linked.

## Reading the contracts

Contracts speak of text as `Seq<char>` and of instants as integers, in
seconds since the epoch. A function whose result is a `String` says what its
characters are; a function that can refuse says when it does, and in which
words. Proof functions named `law_…` state what holds across functions: that a
silent job goes down, that a ping in between beats the alert loop's decision,
that quoted text cannot break the document around it.
