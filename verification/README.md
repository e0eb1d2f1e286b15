# Clipper

Clipboard history for Linux. Clipper watches the system clipboard, keeps a
rolling history of texts and images, and puts any of them back on the clipboard.

- A content that is copied again moves to the front instead of appearing twice.
- The history has at most 200 entries until another size is set.
- An entry that is removed does not come back while its content is still on the
  clipboard.
- An image whose every pixel is transparent is taken to be opaque.
- The history is in memory only, and quitting clears it, unless the user turns
  on that it is kept on disk.

## Layout

`src/` is the library, verified with Verus. `app/` is the program around it: the
window, the clipboard, the database file and the socket. `tests/` runs the
library.

| Module | What it holds |
| --- | --- |
| `model` | the state of the application and what each event does to it |
| `clipper` | the application itself, which follows the model |
| `capture` | transparent images, content hashes |
| `search` | fuzzy matches and their ranking |
| `storage`, `little_endian` | records, tables and pending writes |
| `text` | previews, numbers, white space |
| `view` | what the window shows |
| `icon` | decoding the window icon |
| `paths`, `singleton` | where the files are, and one instance at a time |
| `history_laws`, `persistence_laws`, `storage_laws`, `text_laws`, `view_laws` | what holds of the whole |

Every operation of the application is stated as a function on `model::State`;
the laws are proved over these functions.

The library does no I/O. `Storage` collects write transactions, which the program
commits to the database in their order, and `Storage::load` reads a snapshot of
the tables.

## What is taken on trust

`std::str::from_utf8`, the hash of a byte slice, the score of a fuzzy match and
the PNG decoder are called through small functions whose contracts are not
proved. Each says in its comment what it claims.
