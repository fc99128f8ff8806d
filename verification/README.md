# ron_lsp

Support for editing [RON](https://github.com/ron-rs/ron) documents whose values are of Rust types.
The library is written in Verus: what each function returns is stated in its contract and proved.

- `format`: lays a document out.
- `outline`, `tokens`: what a layout keeps of a document. Where the formatted document is read with
  the outline that the document had, formatting it again changes nothing. Where the tree of a document
  is made of the tokens that its forms ask for, and of nothing else, formatting changes white space
  and trailing commas alone. That leaves out documents with comments or extensions, which formatting
  can drop.
- `completion`: the completions at a position.
- `code_actions`: edits that name structs and add missing fields.
- `edits`: what these edits do to the text of a document, and to what it says where the changed text
  is read with the new parts where they were written.
- `rust_analyzer`: the types of a workspace, read from its source files and looked up by path.
- `tree_sitter_parser`, `annotation_parser`, `ts_utils`: what a document says, and where.
- `syntax`, `rust_syntax`: the boundary to `tree-sitter` and to `syn`. Each call into them stands
  behind a small function whose contract is believed, not proved.
- `lsp`: the values of the language server protocol that the library reads and gives.
- `keyed`, `text`: lists with keys, and strings.

`app/` reads files, holds the types of a workspace behind a lock and speaks the protocol's own types.
