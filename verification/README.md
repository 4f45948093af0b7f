# tour

A compile-time HTML template engine, verified with Verus.

`src/` is the library, every function of it verified; its calls into `syn`,
`proc_macro2`, `itoa`, `bytes` and a few std functions stand behind small
trusted wrappers whose contracts say what those functions do:

- `parser`, `delimiter`: splitting a template source into static contents
  and `{{ }}` / `{! !}` / `{% %}` / `{? ?}` / `{# #}` expressions; written
  back, the pieces give the source again.
- `token`, `tokenizer`, `flat`: finer tokenizers and the flat statement
  grammar.
- `lexer`, `syntax`: the statement grammar (`layout`, `use`, `render`,
  `block`, `if`, `for`, ...) over Rust tokens lexed by `proc_macro2` and
  checked by `syn`.
- `ast`, `visitor`: building the syntax tree of a source; `template`: files,
  imports, templates and their validation; `metadata`, `path`: the
  `#[template(..)]` attributes and path resolution.
- `sizehint`, `codegen`: size hints, and the render operations the derive
  writes code for.
- `write`, `display`, `render`, `error`: the runtime traits, HTML escaping,
  and errors.

`app/` holds what Verus does not see: the derive itself (reading files and
attributes, loading imports, writing Rust tokens with `quote`), and the
writers over `std::fmt` and `std::io`.
