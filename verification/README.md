# blurt

The logic of Blurt, a private capture-and-recall notebook, as a library
verified with Verus, and the desktop host around it.

- `src/` is the library. Every function in it is verified against its
  `requires`/`ensures`; the few calls into outside crates (AES-GCM, Argon2id,
  HKDF, the CSPRNG, UUID text, Unicode case and character classes) go through
  small trusted wrappers whose contracts say what the crates document.
  - `router`: `@`-chain parsing, the destination picker, natural-language
    matching, routing decisions and voice-transcript normalization.
  - `rag`: chunking, question detection, keyword selection, query terms and
    windows, indexing decisions, grounded answers and the model lifecycle.
  - `schema`: the keyring of slots wrapping one master key, the recovery-key
    codec, destination rows and their paths, stored records, errors.
  - `app`: the command layer's decisions, the boundary types, id text, the
    new-vault keyring, unlock, and the indexing worker's schedule.
  - `text`: character-level helpers and their lemmas.
- `tests/` runs the library on concrete cases.
- `app/` is the Tauri host: commands, SQLite storage, the keyring file, the
  vector store, the embedding and generative models, float-scored ranking,
  and the loop that drives the indexing schedule.
