# codebuddy

The logic of a terminal coding assistant that chats with a language model running on the same
machine. It is written in Verus: the functions state in their contracts what they do, and the
contracts are proved. What comes out of another crate is stated as far as that crate fixes it: how
`ratatui` divides an area, for one, is named in the contracts and not spelled out.

## Layout

- `src/` is the verified library.
  - `chat`, `limits`, `memory`: the prompt, the engine's limits, and the KV cache that fits into
    the free memory.
  - `decode`, `stream`: turning generated tokens into text, piece by piece.
  - `app`, `event`: the state of the chat, and what keys, the mouse and reply pieces do to it.
  - `markdown`, `parser`, `highlight`, `style`, `transcript`: replies as styled lines, and the copy
    buttons on their code blocks.
  - `ui`, `terminal`: the window and its parts.
  - `picker`, `cli`, `clipboard`, `engine`, `llama`: choosing a model, the command line's values,
    copying, and what the engines report.
  - `text`, `files`, `std_items`, `tokenizer`, `json`: texts, file names, and what is used of the
    standard library and of the `tokenizers` and `serde_json` crates.
- `tests/` runs the library.
- `app/` is the program around it: the command line, files, the terminal, threads, and the calls
  into the C++ engines.

Functions marked `#[verifier::external_body]` call other crates. Their contracts are not proved;
the comment above each says what is relied on.
