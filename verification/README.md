# nature_compiler

Compiles a product owner's Chinese requirements into a typed `Blueprint` and
from it into reviewable, reproducible Rust code.  The compiler derives naming,
references, capability resolution, policy checks and the source layout itself.
The source contract refuses a product source that fills in what the compiler
derives: an explicit code, a kind, a dictionary code, a provider identifier, a
Rust type or a table name (the markers `code:`, `kind:`, `dictionary:`, each
also with a full-width colon, `provider_id`, `rust_type` and `table_name`).

## Layout

- `src/` is the verified library (Verus).
  - `text`, `textmap`, `digest`: the character-sequence model of the string
    operations used, a text-keyed map, SHA-256 digests in hexadecimal.
  - `descriptor`, `blueprint`, `diagnostic`, `observability`, `encode`: the
    intermediate representation and what a compilation reports.
  - `inference`: the deterministic mother-tongue engine — source outline, field
    parsing, descriptor factory (reusing a previous blueprint's descriptors),
    data acquisition, application (operations, interfaces, views, permissions,
    navigation) and the engine itself.
  - `policy`: the source contract and the blueprint policy.
  - `capability`: capability resolution and the fixture-map capability.
  - `compiler`: the compilation session (stage by stage, with the decision of
    what comes next) and breaking-change detection.
  - `artifact`, `rust_backend`: plans of every generated item and the artifact set.
- `app/` is the host side: the asynchronous inference boundary, capability
  providers behind trait objects, the compiler that drives a session, rendering
  of the plans with `quote` and `prettyplease`, and the JSON form of the types.
- `tests/` exercises the library from outside.

The generated crate always has the same layout: `src/structs.rs`,
`src/enums.rs`, `src/functions.rs`, `src/validators.rs`, `src/bindings.rs`,
`src/descriptors.rs`, `src/lib.rs`, `tests/generated.rs`, `blueprint.json` and
`application.json`.
