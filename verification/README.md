# schema_rs

Schema-driven forms over JSON Schema 2020-12, verified with Verus.

- `src/` is the verified library: JSON documents and JSON Pointer
  (`json`, `pointer`, `text`), the schema model and its reading from JSON
  (`schema`, `decode`), Draft-04/07 normalization (`normalize`), binary64
  arithmetic on numbers held as bits (`number`), validation (`validate`,
  `ipv6`), effective schemas under `if`/`then`/`else`, `allOf`, `anyOf`
  and `oneOf` (`effective`, `resolve`), references and sub-schemas
  (`schema_util`), dependencies of conditions (`dependency`), defaults
  (`default`), the field tree of a form (`children`, `runtime`), texts
  for front ends (`display`) and properties of the library as a whole
  (`laws`).
- `tests/` holds the scenario tests.
- `app/` is the egui playground and form renderer built on the library.
