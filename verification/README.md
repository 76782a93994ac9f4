# slowcatch

Read-only fast paths for PowerShell commands, quick checks of edited files and
prompt lookups, as a verified library with a small program around it.

- `src/` is the library. Verus proves what the contracts of its functions say.
  The small functions marked `#[verifier::external_body]`, which call `std`,
  `regex`, `serde_json` or `tree-sitter`, are trusted instead: their contracts
  say what is claimed of those calls, and nothing proves it. What a finder, an
  enricher or a runner gives is up to whoever implements it; the contracts say
  what it is asked for and what is made of its answers. Reading commands is in
  `shell_parse`, searching, listing and showing files in `backends`, the hook
  around an agent's tools in `integrations`, records and their rendering in
  `structured` and `cli`.
- `app/` is the program: the command line, the file system, child processes and
  the Everything index. It answers the questions that the library asks.
- `tests/` runs the library against files in memory.

What an operation shows depends on the file system, which the library does not
touch. An operation is run against the answers so far and ends in its result,
in a failure, or in the next question; the laws in `integrations::execution` say
that what is settled stays settled, that only allowed programs are ever asked
for, and that the questions come to an end.
