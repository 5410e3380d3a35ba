# sanctifier

Static checks for Soroban smart contracts, with the analysis logic verified in Verus.

- `src/` — the verified library:
  - `syntax` — the model of a parsed source file that the analyses read (items, statements,
    expressions, and the events of walks over all nodes), and `parse_source`, which parses
    with `syn` and lowers the parse into that model (the lowering itself is in `lower`);
  - `rules` — the shadow-storage rule (storage writes without events) and the unused-variable
    rule with its underscore fixes;
  - `patcher` — applying line/column patches to source text, bottom-up;
  - `upgrade_analysis`, `reentrancy` — upgrade/admin functions and cross-contract calls;
  - `finding_codes`, `smt`, `project` — the finding-code table, the SMT check bounds and
    benchmark statistics, and Soroban project detection;
  - `order`, `text` — stable descending ordering and character-level string helpers.
- `app/` — the command-line tool: file-system walking, the Z3 runs, and output.
- `tests/` — tests on contract sources and on the library's functions.
