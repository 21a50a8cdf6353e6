# oomwrap

A guard that runs one command under memory and swap floors, and stops its process
group before the machine freezes. Shims and wrappers put the guard in front of
existing inference commands.

## Layout

- `src/`: the library. It decides; it does no I/O. Its functions are verified with Verus, but for
  two wrappers around functions of the standard library, `text::quoted` and
  `process::from_utf8_lossy`, whose contracts are taken on trust, as is that of `String::push`.
  - `text`, `path`, `bignat`, `rounding`, `number`: strings, paths, and decimal numbers
    in exact integer arithmetic.
  - `size`, `duration`, `meminfo`, `process`, `profile`: what the guard reads.
  - `guard`, `wait`, `stop`, `signal`, `terminal`: a run, step by step. Each says what is to be
    done next and takes what came of it.
  - `shim`, `files`, `install`, `wrap`, `placement`, `job`: shims and wrappers, in the same way.
  - `event`, `report`, `cli`, `skills`: what is written, and what each command begins.
  - `disk`: a model of a disk, with links, and of what the work on files does to it.
  - `safety`, `event_laws`, `wrap_laws`, `install_laws`, `exact`: laws. What holds of every run and
    of its events, of the files on a disk whatever fails, and of whole sizes and spans of time.
- `app/`: the program. It carries out what the library decides.
- `tests/`: tests of the library.
