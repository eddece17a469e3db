# sey

Find and replace across files, with a preview. The rules of the command are a library whose
behaviour is stated in contracts and proved with Verus; the command itself is a thin layer of
input and output around it.

- `src/` is the library.
  - `engine`, `file_types` and `walk` hold what is trusted of the `regex` and `ignore` crates.
  - `text`, `lines`, `segments`, `edit`, `process` and `partial` search a file and replace all or some
    of its matches.
  - `hunks`, `report`, `report_laws`, `style` and `messages` are about output that scrolls by.
  - `input_field`, `keys`, `render`, `found`, `panes`, `session`, `session_laws`, `frame` and
    `outcome` are the full-screen view.
  - `cli`, `pattern` and `batch` lead from the command line to a search and to what becomes of its
    results.
- `tests/` runs the library on examples.
- `app/` is the command: arguments, files, the search thread and the terminal.

What holds of the library as a whole is stated in the proof functions whose names begin with
`law_`.
