# samsmrti

The logic of Samsmrti, a spaced-repetition desktop app with decks, a
knowledge graph and several study profiles on one machine, written in Verus
and proved against its contracts.

## Layout

- `src/` is the verified library. Each module states what it computes as
  spec functions over `Seq`, `Set` and `Map` views, and proves its code
  against them:
  - importers and parsers: `quizbowl`, `cloze`, `senators`, `anki_decks`,
    `anki_notes`, `anki_models`, `mochi`, `mochi_plan`, `mochi_data`,
    `imports`, `countries`;
  - decks: `deck_tree` (roll-up of counts, subtrees, moving a deck),
    `decks`;
  - content export and import, backups: `content`, `content_data`,
    `content_file`, `backup`;
  - study: `notes`, `review`, `karma` (the day's record step by step), `search`, `search_query`,
    `profiles`, `window_profiles`, `graph`;
  - shared text and JSON handling: `text`, `json`, `dates`.

  The few calls into outside crates (`serde_json`, `flate2`, `chrono`,
  `uuid`) and into std's Unicode tables sit behind small trusted wrappers,
  each with a doc comment that says what its contract claims.
  Laws that span several functions are public proof functions named
  `law_*`.
- `tests/` runs the library on concrete values.
- `app/` is the command-line program around the library: the SQLite
  database, files, zip archives, OCR and the floating-point scheduler. It
  reads and writes, and hands the library plain values.
