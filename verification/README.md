# nexa

The front end and tooling logic of the Nexa language, verified with Verus.

## Layout

- `src/` — the verified library.
  - `lexer`, `token`, `span`, `text`: source text to tokens; the lexer's
    contract is a specification of the token grammar, every token stream
    ends with one end-of-input marker, and token positions increase.
  - `grammar`, `parser` (with `parser/{decl,expr,stmt}`), `ast`: tokens to
    programs, against a grammar written as spec functions.
  - `resolver`: imports resolved over sources held in memory, files loaded
    depth first with a cache, circular imports refused.
  - `spelling`: how a written type is spelled in diagnostics.
  - `hm`: Hindley-Milner types, an idempotent substitution, Robinson
    unification with the occurs check, generalization and instantiation;
    unification is proved sound.
  - `semantic` (with `semantic/{passes,infer}`): the seven analysis passes,
    from duplicate names to algorithm W, each with an exact specification.
  - `optimizer` (with `optimizer/{dead,safety}`), `lower`, `ir`, `types`:
    constant folding, flattening, inlining, dead-code removal, and lowering
    to the intermediate representation.
  - `wasm_layout`: the memory layout that the WebAssembly backend
    emits against: value types, the collector's regions, object fields
    behind the header (aligned, in declaration order, without overlap),
    and the string pool of the data section.
  - `wasm` (with `wasm/{runtime,sections,body,class,module}`): the
    WebAssembly backend. `generate_wat` turns an IR module into text in the
    WebAssembly text format: imports, the copying collector's runtime,
    memory and string data, the shape map the collector scans, each class's
    constructor and methods with their shadow-stack frames, and the start
    function. Each emitter's output is equal to a spec function of its
    input.
  - `compile`: the whole pipeline from a source file and the sources it
    imports to WebAssembly text, with the first stage's error otherwise.
  - `testgen`: the JavaScript test runner generated for `test` blocks.
  - `cli`, `project`, `updater`, `auth`, `registry`, `ui`, `packager`: the
    decisions of the command-line tool, the registry and the bundle frame.
- `tests/` — tests of the library.
- `app/` — the command-line program around the library: files, processes,
  configuration formats and the terminal.
