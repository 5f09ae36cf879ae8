# askama (verified core)

A Jinja-like template engine for Rust: the template parser, the escapers,
the built-in filters, the configuration, template lookup and the pieces of
the code generator, written in Verus with their behaviour stated as
contracts and proved.

Layout:

- `src/` — the verified library. `lex`, `expr_parser`, `target_parser` and
  `node_parser` state the template grammar; `template` and `parse` are the
  parser that follows it. `escape`, `filters` and `simple_filters` hold the
  escapers and filters; `config`, `input`, `path`, `args` and `deps` the
  configuration, the template attributes, template lookup and the templates
  a template depends on; `fmt` writes a tree back out as source;
  `generator`, `writables`, `heritage`, `codegen` and `render` hold pieces
  of code generation and rendering (whitespace handling and batched writes,
  what a template declares for inheritance); `block_codegen` is a complete
  generator for templates of literals, expressions, conditions, loops and
  blocks; `derive_input` reads the deriving item's name, generic parameters
  and `where` clause from its tokens; `unescape` reads the text of a
  string literal, escapes included; `template_input` gathers a template's
  metadata (path, syntax, escaper, MIME type) and `macro_call` finds the
  macro a call names and binds its arguments; `node_handling` generates
  the code for literals, expression tags, raw blocks, `break`/`continue`,
  `if`/`match`/`for` blocks, macro calls and the top-level-only tags; `i18n` resolves the localization settings; `helpers` and `rc_str` are run-time
  helpers. `laws` states
  properties of the library as a whole.
- `tests/` — tests run against the compiled library.
- `app/` — file and environment access, TOML decoding of the configuration
  and JSON serialization, around the library.
