# arc_ledger

The decisions of `arc`, a change, review and integration ledger over plain Git, as a library that
Verus verifies. Git owns content, branches and history; the ledger owns changes, patchsets,
findings, verdicts, verification evidence, claims, holds and a guarded merge.

- `src/` is the library. Every function states in its contract what it returns, and on which inputs
  each refusal comes. The functions take plain values and the library's own types: what Git, the
  file system and the clock say comes in as arguments. Calls into `chrono`, `hex`, `serde_json`,
  `sha2` and `ulid` stand behind small functions whose contracts are stated and not proved.
- `tests/` runs the library on concrete values.
- `app/` is a small program on top of it, with the commands that need nothing but files, Git
  processes and the terminal around the library: `hooks`, `check-writable`, `sandbox`, `export`,
  `events` and `stats`. The other decisions are there to be called as a library.

Where to start: `merge.rs` and `integrate.rs` say what has to hold before a merge is recorded,
`review.rs` and `verify.rs` what a verdict and evidence are bound to, `claims.rs` who works on what,
`dependency.rs` and `graph.rs` which change waits for which, `bundle.rs` and `import.rs` how the
events of a change travel between ledgers, and `rewrite.rs` and `revisions.rs` how recorded
revisions survive a rewritten history. Public proof functions state what holds across functions.
