# better_awake

Better Awake keeps a Linux desktop awake while something worth waiting for is
happening: a session a person started, or an automatic rule that matches what
the machine is doing (a build running, a charger connected, audio playing, a
folder changing). This crate is its verified core.

## Layout

- `src/` — the library, written with Verus. Every public function states what
  it returns in its contract, and the proofs are checked.
  - `provider`, `sampler`, and one module per trigger provider (`process`,
    `power`, `display`, `audio`, `cpu`, `network`, `schedule`, `watch`,
    `fullscreen`): what each kernel interface means, how often it is read, and
    what a provider answers when it cannot read its source.
  - `history`, `redact`, `store`, `preferences`: what is kept across runs,
    how reasons are redacted before they are written, and how stored files
    are judged before they are trusted.
  - `ipc`, `backend`, `service`, `view`: the protocol's edge checks and wire
    shapes; the inhibitor request and the lease decisions; four helpers of
    the service (the merged reason, the history page, attention records, the
    startup report); and what the Status window shows.
  - `steppers`: how the rule editor's stepper buttons move a value.
  - `localtime`, `clock`, `roots`, `paths`, `text`, `entries`: the supporting pieces.
- `app/` — the I/O around the library: reading `/proc` and `/sys`, the zone
  file and the C library's clock, the kernel watch, and the JSON files.
- `tests/` — tests run against the compiled library.
