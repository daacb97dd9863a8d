# gluttony

Finds the build artefacts that developer tools leave on disk
(`node_modules`, `target/`, `__pycache__`, virtual environments, caches of
Gradle, Next.js, Nuxt, Turborepo, Parcel, pytest, tox, Flutter and Mix
builds, the Cargo registry, Xcode's DerivedData, Docker's data), shows how
much room they take, and removes the ones the user picks. The library also
keeps a session trash: what a session moved into it is listed, restored or
emptied, and sessions older than thirty days are purged.

## Layout

- `src/` — the library, written in Verus and proved against its contracts:
  - `scanner` and its submodules: the kinds of artefact, the rules that
    classify a directory from what is known of it (by name where that
    suffices, otherwise by the project files beside it and a `.git` close
    above), the fixed places (Cargo registry, Docker, Go, Ruby), the
    walk's decisions, and a proof over a whole walk that nothing inside a
    skipped or collected directory is collected.
  - `display`: byte sizes and counts for people, the summary table grouped
    by kind, paths shown relative to the home directory.
  - `cleaner`: the cleaning dialogue as a state machine driven by the
    program, with proofs that a dry run deletes nothing, that removing
    everything needs two yeses, that Docker data is only deleted once
    Docker is known to be stopped, and that the yeses (with Docker stopped)
    delete exactly what was chosen.
  - `trash`: sessions, their retention, listing, restoring and the tallies
    of restoring and emptying.
  - `emptying`: emptying the trash as a state machine driven by the
    program, with a proof that nothing is deleted without two yeses.
  - `undoing`: picking a session to restore, as a state machine, with
    proofs that no session or a cancelled pick changes nothing and that a
    pick restores that session only.
  - `update`: reading versions and comparing them.
  - `sort`, `text`, `paths`, `float`: stable ordering, text building, path
    joining, and the rounding of a quotient as a double.
- `app/` — the command-line program: argument parsing, walking the disk,
  prompts, deleting and moving files, the session list on disk and the
  release check over the network.
- `tests/` — tests of the library on concrete values.
