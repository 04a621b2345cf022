# litert_lm

The verified core of a Rust interface to LiteRT-LM, Google's on-device LLM
runtime, written in Verus.

- `src/` is the library that Verus proves:
  - `text.rs`: character-sequence searching and replacing (`contains`,
    `rfind`, `replace`) with their specifications;
  - `json.rs`: JSON string literals for outgoing messages, reading the
    `"text"` field of a reply, stripping the model's `<|"|>` quoting tokens,
    and the laws that tie them together;
  - `error.rs`: the error type, the failures of the C API, and the check that
    a string can be handed to C;
  - `response.rs`: a reply of the model;
  - `engine.rs`: backends, engine configuration, and the settings an engine is
    created with;
  - `conversation.rs`: user messages, conversation setup, and what the C API's
    answers become.
- `app/` makes the calls into the C API (`Engine`, `Session`, `Conversation`)
  and hands every decision to the library.
- `tests/` runs the library on concrete values.
