# cblang

Tools for the C/Buoy language and the Jib computer, with their behaviour
stated as Verus contracts and proved.

## Layout

- `src/` – the verified library.
  - `text.rs`, `numbers.rs` – character-level text operations and reading and
    writing numbers, each stated over `Seq<char>`.
  - `errors.rs` – locations, output lines and errors, with their views.
  - `comments.rs` – finding and blanking `//` and nested `/* */` comments.
  - `paths.rs` – comparing and resolving paths by their components.
  - `definitions.rs` – the table of `#define` names.
  - `patterns.rs` – the two text patterns, matched with the `regex` crate.
  - `filesystem.rs` – the filesystems the preprocessor reads from.
  - `preprocessor.rs` – the preprocessor and its laws.
  - `compiler.rs` – compiler settings and command-line definitions.
  - `computer.rs` – program images, the settings memory, run control.
  - `code_window.rs`, `memory_view.rs`, `visual.rs` – what the user interface
    of the visual Jib computer holds and decides.
- `tests/` – tests of the library on concrete values.
- `app/` – reading files from disk for the preprocessor.
