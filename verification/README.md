# tere

A terminal file explorer for changing folders quickly: type to search the
listing, move with the keyboard, and leave the program in the folder you
browsed to. This crate is the library behind it, written in Verus: its
functions carry `requires` / `ensures` contracts that Verus proves.

## Layout

- `src/` — the verified library.
  - `paths` — paths as text: components, join, parent, normalization.
    Normalizing keeps an absolute path absolute and a relative one
    relative, leaves no `.` or `..` components, and gives the same result
    when applied twice.
  - `history` — the tree of visited folders. Every operation is stated
    exactly: visiting a child, going up, going to the root, and changing to
    an absolute folder, which is going to the root and visiting each
    component in turn (`visited_chain`), so that the rest of the tree, with
    every folder's last visited child, is kept.
  - `action`, `keys`, `settings` — actions, the keymap, and the settings read
    from the command line, with exact rules for every option, every error and
    every `--map`.
  - `search`, `listing` — building the search pattern, matching the listing,
    and the stable sort of the listing (folders first).
  - `app_state` — the state of the application: cursor and scrolling, the
    search, and the change of folder. The change of folder is a small state
    machine (`CdSearch`): the program reads a folder and hands the outcome to
    `step`, which says what to try next; `law_cd_walk` states what a whole walk
    up to the nearest readable folder gives.
  - `markup`, `help`, `cli_text` — the help text taken from this project's
    user guide, wrapped and styled.
- `tests/` — tests run against the compiled library.
- `app/` — the program: terminal, file system, command-line parsing with
  clap, and the history file as JSON. It runs the loops that wait on the
  terminal or the file system, and turns keys and mouse events into calls of
  the library (which action a key asks for is decided by the keymap in
  `src/`).

## What rests on other code

A few calls are trusted rather than proved; each is a small function marked
`#[verifier::external_body]` with a doc comment that says what is assumed:
`crokey` for reading key combinations, `regex` for compiling and running the
search pattern and for escaping, `textwrap` for wrapping, and a few functions
of the standard library (lower case, the upper case test, pushing a character
onto a string, the kind of an I/O error).
