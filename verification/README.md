# mem

`mem` is a small repo-local memory for coding agents, written in Rust and verified with
Verus. It keeps durable project knowledge after it falls out of the current context window.

- `src/` is the library. It holds the rules of the store: memories and their corrections,
  workspace state, episodes, the queue of derived work, vectors, search and recall, the
  command line, and the migration of an older layout. Every function states what it does
  in its contract, and the promises that span several functions are public proof functions
  whose names begin with `law_`.
- `tests/` runs the library on concrete values.
- `app/` is the program around it: SQLite, git, the embedding model, files and output.

The store is modelled as tables of rows. The program loads the rows within one transaction,
runs a command of the library on them, and writes the rows that changed back. Ranks and
scores are places in the total order of floating-point numbers, and vectors are the bit
patterns of their components; arithmetic on them stays in the program.
