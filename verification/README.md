# nml

The elements of NML ("Not a markup language"): the syntax rules of the
markup, the elements they produce, their HTML, and a document parser that
applies the rules to a source text. The library is written in Verus, and
every function of it is proved against its contract but three small
wrappers around outside code, whose contracts are trusted: `chars_to_string`
(std's collection of characters into a `String`), `sha512_hex_digest`
(`crypto`'s SHA-512 as lowercase hex) and `format_with_keys`
(`runtime_format`'s keyed format strings).

## Layout

- `src/` — the verified library.
  - `parser.rs`: the rules in their order, the search for the next match
    (earliest position, then the first rule), the parse of a document or of
    one paragraph, and the state a parse builds (document, semantic tokens,
    reports, open styles and layouts).
  - `document.rs`: elements, their kinds and locations, the document and
    how elements are added to it, reports.
  - `elements/`: one module per element (paragraphs, text, styles,
    sections, raw code, references, links, internal links, lists, layouts,
    media, scripts and Lua code, LaTeX, line breaks), each with its rule,
    its matching on characters, and its HTML.
  - `bindings.rs`: what the calls scripts make through the `nml` bindings
    (styles, raw code, sections, links, layouts) do to a parse.
  - `properties.rs`: `[name=value, ...]` property lists against a schema.
  - `semantics.rs`: semantic tokens and their relative (LSP) encoding.
  - `completion.rs`: completion snippets and their documentation.
  - `text.rs`, `scan.rs`, `chars.rs`, `compile.rs`: text normalisation,
    escapes, scanning, character classes, HTML escaping and numbers.
  - `interop.rs`: conversions between Rust strings and characters.
- `tests/` — tests of the library on concrete documents and values.
- `app/` — what runs around the library: Lua kernels for scripts and the
  glue of their bindings, report printing, style configuration read from JSON, and LaTeX
  rendering with an external program.

Laws that relate several functions are public proof functions whose names
start with `law_`.
