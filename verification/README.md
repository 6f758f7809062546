# pdflib

A reader of PDF files, written in Verus: the tokenizer, the object parser, the cross-reference
machinery and the stream decoders are verified against mathematical specifications of what they
read and produce.

## Layout

- `src/bp.rs`, `src/cc.rs`, `src/tk.rs`, `src/kw.rs`, `src/utils.rs`: bytes, character classes,
  tokens, keywords and number literals.
- `src/op.rs`: objects (`ObjParser`, `Parser`).
- `src/fp.rs`: the file level: header, entry point, indirect objects, cross-reference tables and
  streams (`FileParser`).
- `src/base/`: objects, dictionaries, cross-reference sections, errors, and how objects are
  written back in PDF syntax.
- `src/codecs/`: `/FlateDecode` (with PNG predictors), `/ASCIIHexDecode`, `/ASCII85Decode`, and
  the parsing of `/Filter` and `/DecodeParms`.
- `src/reader/`: readers that resolve references through the cross-reference table:
  `SimpleReader` (one merged table, cached object streams) and `FullReader` (the chain of
  sections as it is), both built on `BaseReader`.
- `src/pages.rs`, `src/browse.rs`, `src/pretty.rs`, `src/preview.rs`: finding pages, the
  commands of an interactive browser, and the layouts it prints.
- `src/laws.rs`: properties that relate several functions (read-back of written strings, names
  and integers, chains of filters, reading lines one after another, the
  browser's history).
- `app/`: two programs: a listing of all objects of a file, and (when run as `pdfwalk`) the
  interactive browser.
- `tests/`: tests of the library.
