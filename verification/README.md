# tinyconnectors_sync

Connector toolkits: reading an account one page at a time, with the walk proved
in Verus.

A provider turns an account into pages of records. It names the action to run
next and takes the reply; the host runs actions and stores state. The Slack
provider walks the channels of a workspace, detours into threads, and carries
its position in one cursor, `<index>|<history>|<thread>|<thread cursor>`.

- `src/` is the library. `src/toolkits/slack.rs` decides where to read next,
  `slack_parse.rs` and `slack_files.rs` what a page carries, `slack_fetch.rs`
  which actions one page takes, and `slack_laws.rs` states what holds of the
  walk as a whole.
- `app/` is the host's side: the async traits, `serde_json` values, and the walk
  as the store holds it.
- `tests/` runs the library.

What is trusted without proof: `String::push`, and the clock and the day
arithmetic of `chrono` in `src/clock.rs`.
