# bitwig_versions

Version control for Bitwig projects exported as `.dawproject` archives: every
saved version gets a semantic index (tracks, clips, devices, audio files, each
with a fingerprint), a change list against the version before it, and a git
commit. Two histories can be checked for tracks changed differently on both
sides.

## Layout

- `src/` is the library, verified with Verus:
  - `model` — the index, change and conflict types and their mathematical views;
  - `diff` — the change list between two indexes (greedy matching by identity,
    fingerprint, then a fallback key);
  - `conflicts` — three-way conflict detection;
  - `xml`, `dawproject`, `index` — reading project documents parsed by
    roxmltree, and building the semantic index (BLAKE3 fingerprints);
  - `git` — what git's output means, and the steps of a fast-forward pull
    (which command runs next, and the result);
  - `workspace` — workspace paths, configuration, snapshot identifiers and
    records, choosing the newest export or snapshot;
  - `api` — the answers of the HTTP API and the desktop commands;
  - `text` — string helpers and the standard-library string functions used.
- `app/` is the program around it: the HTTP server (axum, tokio), the desktop
  commands, running git, reading and writing files and archives, JSON, and
  reading numbers as `f64`.
- `tests/` runs the library on concrete inputs.
