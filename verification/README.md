# panedrive

Drive and verify terminal UIs headlessly: press real keys into a running UI,
then read its state from a JSON *state seam* instead of scraping the screen.

## Layout

- `src/` is the library, written in Verus and verified:
  - `json`, `number`, `text`: the seam's data model, exact decimal comparison
    of numeric text, and the character-level helpers the parsers share.
  - `condition`: the condition grammar (`focus`, `a=b`, `a!=b`, `a~=b`,
    `n>=3`, ...) and its evaluation over a seam.
  - `key`: key specs and their encodings for tmux, zellij and raw terminals.
  - `script`: the line-oriented script language.
  - `runner`: a script run as a state machine. Every decision is made there;
    a driver only performs the actions it returns (read the seam, send keys,
    pause, ...). Its laws cover well-formedness, termination under a moving
    clock, the verdicts of `assert` and `wait-until`, settling, and that a
    secret read from the environment never reaches the event track.
  - `harness`: the in-process driver (`Harness`) over a model implementing
    `InProcessUi`, on the same runner with a virtual clock.
  - `backend`: the `PaneBackend` trait and the planning of host calls
    (coalescing of typed runs, argument vectors, screen payloads).
  - `record`: decoding a typed byte stream into a script; how the stream is
    split across calls provably does not matter.
  - `replay`: a recorded session, parsed back as a script, sends exactly the
    bytes it was recorded from.
  - `seam`, `driver`, `cast`, `cli`, `outcome`: seam introspection and
    validation, polling decisions, cast headers, and the command-line
    program's decisions and reports.
- `app/` is the command-line program: argument parsing, processes, files,
  the pseudo-terminal host, the wall clock, and `serde_json` conversion.
- `tests/` exercises the library from outside.
