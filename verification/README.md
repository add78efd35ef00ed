# n_edit

A code editing tool driven by `.ned` scripts: commands embedded in
`//!@` comment lines open a file, locate a place in it by whitespace-free
content and relative indentation (or by line numbers, or as a whole code
block), insert or delete lines there, and write the file back. Every
change is listed as a colored diff.

The library in `src/` is written in Verus and verified:

- `text` — whitespace, indentation, line splitting and decimal helpers
- `model` — lines, files, located blocks, and the contents of commands
- `block` — finding the extent of a brace or indentation code block
- `matcher` — locating the unique place a `Location` describes
- `script` — reading a script into tokens and commands
- `engine` — the state machine that runs commands and records changes
- `output` — the diff listing and error reports (colors through `colored`)
- `error` — the errors of every stage, with their titles, details, hints
- `laws` — properties of the library as a whole, proved

`app/` is the command-line front end: argument handling, reading the
script and the target file, writing the result, printing.
