# kilib

The core of a terminal tool that builds KiCad libraries: it imports Component
Search Engine / Samacsys ZIP archives, and turns parts of the LCSC / EasyEDA
catalogue into KiCad files. The library is written in Rust and proved with Verus.

## Layout

- `src/` — the library. Every function states what it returns, and Verus proves
  it.
  - `text`, `order`, `paths`, `json`, `http` — strings, ordering, paths, and the
    texts that come from outside.
  - `config`, `manifest` — where a library lives, and what it holds.
  - `symlib`, `sexpr` — KiCad symbol libraries: reading, writing, merging.
  - `scan`, `library`, `picker` — what the folders hold.
  - `importer` — from an archive to the library tree; `tree` — what that leaves
    behind.
  - `online` — components from the catalogue, their symbols and footprints.
  - `app` — the state of the application: events in, effects out. `app::laws`,
    `app::quiet` and `app::filed` say what holds of it as a whole.
  - `ui` — what the screens say.
  - `cli` — what the command line does, and what the headless modes print.
- `app/` — the program around it: the terminal, the disk, the network, the
  configuration files, and the floating-point geometry of downloaded parts.
- `tests/` — the library at work, on a disk that is held in memory.

## What is not proved

The proofs rest on a few statements about code outside the library. Each stands
next to a doc comment that says what it claims:

- `text`: upper and lower case, and adding a character to a `String`.
- `config`: the home and configuration folders of the system.
- `manifest`: the current time.
- `importer`: what a ZIP archive holds.
- `http`: whether bytes are UTF-8.
- `json`: what a JSON text holds.
- `ui`: how many columns a text takes.
