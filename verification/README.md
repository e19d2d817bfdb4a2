# aitoolgrep

A line-oriented search, replace and statistics tool for trees of UTF-8 text
files, with a command line and a small graphical window.

The logic of the tool is a Verus library under `src/`:

- `text`: lines of a text (split after each `\n`, an ending `\r\n` or `\n`
  stripped), ASCII case folding, decimal notation.
- `literal`: occurrences, counting and left-to-right replacement of a literal
  text, and the laws that tie line-by-line replacement to replacement in the
  whole text.
- `files`: which directories a walk leaves out, how file bytes become text,
  backup paths, and the path order of a discovery.
- `order`: the component-wise order of paths and a verified merge sort.
- `matcher`: the line matcher, compiled by the `regex` crate.
- `search`, `replace`, `stats`: what one file gives, and how the outcomes of
  all files make a report (counts, warnings, changes); `replace` also holds
  the backup-then-write steps of a file as a small state machine.
- `render`, `gui`: the exact texts of the command-line and window reports;
  `gui` also holds the window's form (it opens in dry-run mode), what its
  buttons do (a real replacement asks for confirmation first), and its
  task status, busy exactly while a result is awaited.
- `error`: the errors that stop a command, with their messages.
- `cli`: the parsed command line, whether it asks for JSON, and the options
  of the command it runs.

`app/` holds what Verus does not check: argument parsing, the directory walk,
file reads and writes, the parallel loop over files, JSON output and the
window itself. It hands the library plain values and prints what comes back.

Started under the name `aitoolgrep-gui` (a copy or link of the program),
the program opens the window instead of reading a command line.

`tests/` runs the library on concrete inputs.
