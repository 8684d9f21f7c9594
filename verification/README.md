# text_nodes

Operations on text for a node graph: strings that are joined, split, searched, sliced, padded,
trimmed, escaped and capitalized; numbers shown as strings; and what is decided while text is laid out
and turned into geometry. The library is written in Verus, and its functions state what they return in
contracts. Those contracts are proved, but for what is relied on of code outside: see the end.

- `src/` is the library.
  - `text`, `search` and `kmp`: characters, where one run of them occurs in another, and the count of
    overlapping occurrences.
  - `graphemes`: text as the characters that a reader sees.
  - `escape`, `strings`, `casing`, `number`, `serialize`: the nodes.
  - `item`, `attribute`, `mapping`: elements with attributes, and the loop over a list of strings.
  - `align`, `spacing`, `typesetting`, `layout`, `compose`, `shape`: the setting of text.
  - `laws`: what holds across the operations on strings.
- `tests/` runs the library on examples.
- `app/` is ordinary Rust around it: floating point arithmetic, fonts and layouts, and the forms in
  which documents store their values.

The clusters of a text, its letter cases, its title case and its words come from
`unicode-segmentation`, the standard library, `titlecase` and `convert_case`; JSON comes from
`serde_json`. The few functions that call them state, without proof, what is relied on, and the same
holds of `String::push`. What the trait `TextItemAttributes` promises is proved of the items of the
library, and is for other implementors to keep.
