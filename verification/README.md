# vaultseed

The front end of the VaultSeed password manager, with its logic verified by
Verus.

- `src/` is the verified library: parsing of what the user types (numbers,
  masks, character lists, hexadecimal, identifiers), the command-line
  argument helpers, the confirmation actions and their text, the export
  selection tree, the restriction format editor, the first-session wizard,
  the login flow, the picked entries of every page, and the view models each
  page shows. Every public function has a contract; the laws that relate
  several functions are public proof functions named `law_*`.
- `tests/` runs the library on concrete values.
- `app/` is the program around it: the command line, the Slint window and
  its handlers, threads, files and the clipboard. It calls the vault's core
  and the window's generated types, and hands the library plain values.
