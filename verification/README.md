# brochat

The core of a personal character-chat desktop application: SillyTavern
character cards (PNG and JSON), world books, chat context building, the
OpenAI-compatible request body and its server-sent-event stream, and the
settings and record formats kept in the local database.

- `src/` is the library, written and proved with Verus. Each public
  function states its result in its `ensures`; the public `lemma_*` proof
  functions state what holds across functions (a card exported and imported
  again, a PNG chunk embedded and extracted or replaced, settings written
  and read back, an event stream split between two pushes that each stay
  within the per-event byte limit, and so on). Where a law needs a premise
  (JSON nested within the parser's depth limit, for instance) the premise
  is part of its statement.
- `tests/` runs the library on concrete values.
- `app/` is the application around it: the SQLite store, the HTTP client
  and its streaming loop, file reading and writing, and the command layer.
  It converts between its serde types and the library's own.
