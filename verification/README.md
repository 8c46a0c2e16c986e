# helix-term

The decision core of a modal terminal editor front end, written and proved in Verus.

`src/` holds everything the front end decides, as functions from plain values to plain values:

- `keymap/`: tries of key bindings, how they are merged, looked up, shown and reversed; the
  bindings of Vim
- `compositor/`, `layout`, `geometry`: the stack of layers, how events travel through it, what is
  drawn where
- `effect/`: what the results of background work do to the editor (language servers, debuggers,
  plugins, assistants, file operations)
- `handlers/`: what is put off, gathered, retried or called off
- `fff/`: the cache of file indexes, hashes of paths, the rows of the history
- `logging/`: the bounded queue of records and the rotation of files
- `config`, `health`: which file counts, which error is told, what is reported
- `embed`: driving all of this from a host with its own event loop
- `collections`, `lines`, `paths`, `sorting`, `text`: what the others are built on

Contracts are stated over spec functions in the same files. Properties of several functions are
public proof functions whose names begin with `law_`.

What another crate computes (BLAKE3, JSON, the width and the parts of a text) stands behind small
trusted functions, each with a comment that says what is believed of it.

`tests/` runs the library on concrete values. `app/` is the program around it: files, threads, the
terminal and other programs, and the loops that do what the library decides. What it needs of the
editor itself (documents, panels, stores) are traits there.
