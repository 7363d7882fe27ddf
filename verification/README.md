# plix

The core of the Plix kernel prototype as a verified library: the Auralattice
message fabric, prototype authentication with salted FNV-1a hashes, the
user-centric Everyfile tree, the driver registry, the command line and the
freestanding memory routines. All kernel state is held in explicit values, and
strings are byte slices that end at their first zero byte.

- `src/` — the library; every function carries a contract checked by Verus.
  - `cstr` — zero-terminated strings.
  - `auralattice` — realms and pulses.
  - `auth` — users, sessions, password hashing.
  - `everyfile` — the directory tree, paths and `goto`.
  - `driver` — the driver registry and the architecture consoles.
  - `cli` — command parsing and the bounded output transcript.
  - `memory` — `memset`, `memcpy`, `memmove`, `memcmp`.
  - `kernel` — the boot sequence.
- `tests/` — tests on concrete values.
- `app/` — a hosted program that boots the core for one architecture and
  writes the boot transcript to standard output.
