# veneer

A documentation engine: it reads a CLI's `--help` text into MDX reference
pages and a sidebar, and turns component sources into framework-less Web
Component previews, intelligence artifacts and a JSONL documentation
substrate.

- `src/` is the library, written and proved with Verus: the help-text
  parser, MDX and sidebar generation, CSS scoping, the component registry
  and discovery rules, JSDoc intelligence, `Config` extends-chain
  resolution, coverage, the substrate lines, and the DTCG token model.
  TypeScript and JSX sources are parsed with oxc in `ts_syntax`: two
  trusted parse wrappers, and a set of small trusted converters they call
  that turn each oxc node into the library's plain-value syntax, one node
  for one; every reading of that syntax is verified. The `\w` class of the
  line and stylesheet grammars is the `regex` crate's, behind one trusted
  wrapper.
  Each public function states what it returns in its contract; the laws
  that span functions are public proof functions beside them.
- `app/` is the ordinary Rust around it: walking directories, reading and
  writing files, running the CLI binary and parsing JSON with serde, then
  handing plain values to the library.
- `tests/` holds the tests, which run the library with the real outside
  crates linked.
