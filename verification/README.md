# radiodiodj

The library behind RadiodioDJ, a radio automation station: the playlist
engine, auto-playlist generation under rotation rules, the music library's
scan, check and health report, tag write-back, the background analysis
passes, and the stored configuration. Verus proves the library's own
functions against their contracts; the few calls into `std` and outside
crates that it makes stand behind trusted wrappers, listed below.

## Layout

- `src/playlist/` — the playlist state machine (`engine`), its items and
  snapshots (`model`), and block generation (`generate`): cadence, commercial
  buckets, the rotation ladder of the music picker, and even interleaving.
- `src/library/` — what a scan plans and applies (`scanner`, `listing`), how
  its changes land so a moved file keeps its track (`reconcile`), the
  library check and its schedule (`check`), duplicate and missing-track
  findings (`health`), the schema steps, the search and the query pieces
  (`db`), the fingerprint's hash input (`fingerprint`), the tag write-back queue
  (`tag_write`) and the tagged copy it writes (`retag`), the single-flight workers (`waveform_scan`,
  `tag_backfill`), the scan status (`scan_state`) and automatic cue points
  (`auto_cue`).
- `src/persist/` — the configuration with its tuning clamps, and the session
  entries.
- `src/service.rs` — the outage retry schedule around the engine.
- `src/text.rs` — text helpers with their specifications.
- `app/` — the command-line front end: files, SQLite, tag and audio reading,
  and the serialised forms of the library's types.
- `tests/` — the test suite, run against the compiled library.

Calls into `std` and outside crates that the library makes are wrapped by
functions marked `#[verifier::external_body]`: Verus believes their contracts
without proof. Each doc comment names the call and says what the contract
claims of it, and what it leaves unsaid.
