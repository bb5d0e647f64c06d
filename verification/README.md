# ideps

Installs a project's dependencies without you having to remember which toolchain
it uses: the files in a directory decide which package managers apply, and their
install commands run — mise first, everything else at once.

- `src/` is the verified library (Verus): `detect` (which toolchains the files
  call for), `plan` (the install commands and their order), `run` (what a
  finished, missing or failed command means, and the lines it wrote), `ui` (every
  line the terminal shows, laid out as painted pieces), `cli` (the run mode) and
  `text` (character-level string operations).
- `app/` is the program around it: argument parsing, scanning the directory,
  running the child processes, and drawing on the terminal.
- `tests/` runs the library on concrete projects.
