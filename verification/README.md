# holefetch

A Linux system fetch tool that themes itself from the desktop's wallpaper.

- `src/` is the verified library (Verus): it turns what is read from the system (files,
  environment variables, program output) into the lines the fetch shows, decides which
  desktop settings to look up and where the wallpaper is kept, extracts the wallpaper's
  palette, and colours the logo and the labels.
  - `text.rs`: character-sequence specifications and verified helpers (`trim`, `lines`,
    `split_whitespace`, `find`, `replace`, decimal printing and parsing).
  - `desktop.rs`: the desktop environment, its settings lookups and their values.
  - `info.rs`: the system information lines.
  - `colour.rs`: palette extraction, logo placeholders, label colouring, wallpaper location.
  - `config.rs`, `cli.rs`: the configuration module list and the command line arguments.
- `app/` runs the program: it reads the system, runs the commands, measures memory, swap and
  disk in floating point, and prints.
- `tests/` exercises the library on concrete inputs.
