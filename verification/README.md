# can_dbc

A parser for DBC files (the text format that describes the messages and signals of a
CAN bus), verified with Verus.

Each parser reads a byte slice that may be the start of a longer input, and returns the
rest of the input with the value read, `ParseError::Error` where the bytes do not match,
or `ParseError::Incomplete` where they end before the grammar can decide.

- `src/outcome.rs`: the specified outcome of a parser (`Parsed`) and how results are held
  to it.
- `src/lexical.rs`: bytes, keywords, numbers, identifiers and quoted text.
- `src/signal.rs`, `src/environment.rs`, `src/attributes.rs`, `src/comments.rs`,
  `src/values.rs`, `src/document.rs`: the elements of a DBC file and the file itself.
- `src/streaming.rs`: every answer but `Incomplete` stays the same when more input follows.
- `src/laws.rs`: the shape of identifiers and quoted text, and non-empty files.
- `app/`: the `f64` values of decimal numbers, which the library keeps as text.
