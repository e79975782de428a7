# fastxml schema validation

XML Schema validation of XML text, verified with Verus.

## Layout

- `src/xml.rs`: the tokenizer that turns XML text into parsing events, with
  an exact specification (`tokens`) of the events each text yields.
- `src/skeleton.rs`, `src/validation.rs`, `src/two_pass.rs`: two-pass
  validation. Pass 1 builds a flat skeleton of the element tree
  (`build_skeleton`); pass 2 checks every node against the schema (occurrence
  bounds, sequence order, text content). `document_errors` states the errors
  of a document; `src/agreement.rs` proves they depend on the events alone.
- `src/streaming.rs`, `src/state.rs`, `src/groups.rs`: the event-driven
  streaming validator (occurrences, text and unclosed elements), stated as a
  function from state and event to the next state and the entries it adds;
  transitive substitution-group members are found depth first.
- `src/attr_pass.rs`: the start-tag checks of a document in document order
  (abstract declarations, `xsi:nil` on declarations that are not nillable
  and on elements that have content, `xsi:type` substitution, attributes,
  ID / IDREF), with namespaces resolved through the declarations in scope;
  the front door (`Validator::run`) and the validation context report them
  after the element errors.
- `src/automaton.rs`: the entries a content-model automaton's verdicts give
  an element (a child over its bound or not expected, content incomplete at
  the end); the automaton itself is supplied by the caller.
- `src/aggregate.rs`: collapsing repeated errors into one entry with a count
  and the further positions.
- `src/location.rs`: the locations an `xsi:schemaLocation` attribute names,
  and what each fetch, parse, compile and validation outcome contributes.
- `src/attributes.rs`, `src/constraints.rs`, `src/identity.rs`,
  `src/xsi_type.rs`, `src/facets.rs`, `src/numeric.rs`, `src/primitive.rs`:
  attribute checks, ID/IDREF and identity constraints, `xsi:type`
  substitution, facets and the lexical spaces of the primitive types.
- `src/facade.rs`, `src/context.rs`: the `Validator` front door and its
  `Report` (two-pass element checks plus the attribute pass, optionally
  collapsed), and a reusable validation context.
- `src/symbols.rs`: interned names, kept in `rustc_hash` maps.
- `src/laws.rs`: properties that span several operations.
- `app/`: reader-based entry points that read a document and hand its text
  to the library, and the loops that fetch the schemas `xsi:schemaLocation`
  names through caller-supplied fetch, parse and compile steps.
