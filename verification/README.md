# nuzo

The front end of the Nuzo scripting language, whose keywords come in
English and in Chinese (`if` / `如果`, `fn` / `函数`, ...), verified with
Verus, together with the pure parts of its runtime.

## Layout

- `src/` — the verified library.
  - `token.rs`: token kinds, the bilingual keyword table and its lookup.
  - `lexer.rs`: the lexer, specified as a state machine over the source's
    characters (`tokenize`); `Lexer::scan_all` is proved to agree with it.
  - `ast.rs`: the syntax tree, and its value as a mathematical object.
  - `parser.rs`: the recursive-descent parser (`Parser::parse`); every
    parsing function is proved to terminate and to keep the parser's state
    consistent. For expressions made of one-token operands, arithmetic and
    comparison operators (`frag_expr`), the tree built is stated exactly, a
    chain of comparisons included; so are imports, simple match patterns
    and the nesting limit.
  - `format.rs`: `{}` templates and their format specifiers.
  - `collections.rs`: clamped substrings and slices, removal of repeats.
  - `color.rs`: hex colour strings.
  - `random.rs`: the state of the xorshift64 generator and its seeding.
  - `capture.rs`: the stack of output-capture frames.
  - `sandbox.rs`: refusing IO paths with a `..` component.
  - `layout.rs`: the GUI layout nesting bound.
- `tests/` — tests of the library.
- `app/` — the glue around it: per-thread state, clocks, floating point,
  the GUI frame's `Ui`, and the syntax-tree visitor.
