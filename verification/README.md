# rebase-indexer

A code indexer for rebase: it walks a project, chunks each file, embeds the
chunks with Ollama and keeps them in a per-project LanceDB index.

- `src/` is the verified library:
  - `text`: lines of a text (as `str::lines` splits them) and helpers on characters;
  - `digest`: SHA-256 prefixes in lowercase hex;
  - `chunk`: line-window chunking and the choice between it and grammar chunking;
  - `tschunk`: one chunk per top-level named syntax node, found with tree-sitter;
  - `walk`: which walked files are indexed, and their language tags;
  - `embed`: the embed endpoint, the input clamp and the batch/retry plan;
  - `manifest`: path -> content hash, with the hash itself;
  - `index`: the diff against the previous manifest, what to chunk, what to delete,
    and how chunks pair with their embeddings.
- `app/` is the command-line program: file walking, HTTP, the LanceDB store and
  archive packing, driving the library.
- `tests/` exercises the library on concrete inputs.
