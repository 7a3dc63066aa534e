# DMS Name Matching

Name matching and deduplication of person records, with its rules proved
in Verus.

## Layout

- `src/` — the verified library.
  - `normalize.rs`: the matching form of names (canonical decomposition,
    marks dropped, special letters spelled out, uppercase, whitespace
    collapsed), middle initials, middle-name relations, birth dates and the
    near-date rule, record keys, and the equivalent MySQL expression.
  - `model.rs`: process modes, rule levels L1–L17, connection and field
    settings, and the selection of rules with its exact and fuzzy plans.
  - `similarity.rs`: match candidates, the edit-distance comparison of
    normalized names, the middle-name work of a candidate batch, the rules a
    fuzzy level applies before scores are read, the choice of the best
    candidate of each source record, and the GPU input layout.
  - `db.rs`: identifier quoting and validation, the output schema, and
    which server and database a connection targets.
  - `http.rs`: request reading (a state machine fed with the chunks read
    from a connection), head parsing, routing and response heads.
  - `jobs.rs`: the job status the interface keeps, driven by engine events.
  - `report.rs`, `resources.rs`, `alpha.rs`: report rows, CPU time
    arithmetic and the fuzzy batch size, and the figures of the preview
    interface.
  - `text.rs`: character-level helpers shared by the modules above.
- `tests/` — tests of the library on concrete values.
- `app/` — the program: the HTTP server, MySQL access, CSV export, resource
  readings and the fractional similarity scores, all calling the library.
