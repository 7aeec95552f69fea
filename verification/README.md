# extboard_core

A verified model of JSON Canvas documents and of the server that stores them.

- `src/` is the library, verified with Verus: the document model (`model`),
  validation (`validate`), the mutations (`mutate`) and what they keep
  (`laws`), content revisions and fresh ids over BLAKE3 (`rev`), the store's
  id and listing rules (`store`), and the decisions of the HTTP surface
  (`api`) and of the formatter (`cli`).
- `app/` is the `extd` program around it: the serde form of the model, the
  files on disk, the axum routes and the command line.
- `tests/` exercises the library on concrete documents.
