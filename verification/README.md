# proc_macro2 (verified fallback)

A pure-Rust implementation of procedural-macro tokens, verified with Verus.

- `src/span.rs` — spans as byte ranges, line/column positions, first/last byte.
- `src/source_map.rs` — the source map of parsed strings: line starts,
  binary search from offsets to lines and columns, file lookup, joins.
- `src/ident.rs` — identifier validity after UAX #31 (through `unicode-xid`),
  raw identifiers, comparison and rendering.
- `src/literal.rs` — string, character, byte-string and integer literals.
- `src/token.rs` — punctuation, groups, token trees and streams, and the
  text of a stream.
- `src/detection.rs` — forcing or releasing the fallback implementation.
- `src/unescape.rs` — the escapes of string, character and byte-string
  literals, and the proofs that literals read back as their values.
- `src/text.rs` — appending characters and decimal numbers to strings.

`app/` holds the per-thread source map, the process-wide implementation
choice, float literals and the panicking constructors.

The library models the configuration with span locations and the
semver-exempt extras: spans carry byte offsets into a source map, spans
report their source file, and the debug renderings include spans
(`bytes(lo..hi)`). `src/unescape.rs` reads literals back, and proves that
string, character and byte-string literals read back as what they were
made from.
