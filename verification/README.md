# yaad

The verified core of Yaad, a voice-powered memory vault for the menu bar.

- `src/` is the library, with machine-checked proofs of its contracts: the situational trigger
  (`sui`), the ranking of search results (`ranking`, `embeddings`,
  `commands`), the checks and messages of the commands (`commands`), the audio
  session and transcript assembly (`whisper`), download progress (`models`),
  the app data directory (`db`) and the character-level string operations they
  rest on (`text`).
- `app/` is the desktop program around it: the Tauri commands, SQLite and the
  vector index, the embedding and speech models, audio capture and the native
  window capture. Floating-point work (similarities, loudness, resampling,
  image preprocessing) stays there; similarities reach the library as order
  keys (`app/similarity.rs`).
- `tests/` runs the library on concrete values.
