# ldraw

Parts of an LDraw toolkit for LEGO-style models, with their behaviour
stated as contracts and proved with Verus.

- `src/` is the verified library:
  - `couplings` — coupling types, the catalogue of connections between them,
    default geometries, and the registry of LDraw primitives that stand for
    couplings (`couplings/registry.rs`);
  - `alias`, `alias_map`, `document`, `error` — part names in normal form,
    the ordered maps keyed by them, and the parts of a document that the
    library reads;
  - `library` — the part cache, the resolution of a document's
    dependencies, and its result;
  - `loader` — part numbers and the loader that keeps colours and cache;
  - `detection` — the references to coupling primitives in a document;
  - `patterns` — stud, anti-stud, tube and pin-hole layouts;
  - `connection`, `constraints` — the graph of connections with its index
    by part, and the constraints of intact connections;
  - `paths`, `text` — path components, copy commands and small string
    operations;
  - `report` — the names a dependency check lists, in order and each once.
- `app/` holds what runs around it: asynchronous loading, floating-point
  geometry, serialisable forms of the types, and command-line helpers.
- `tests/` exercises the library on concrete values.

Physical quantities are fixed-point integers in thousandths of their unit;
vectors and matrices computed in floating point are carried as the bit
patterns of their single-precision components.
