# YaraT

YaraT is a small, strictly typed language for ledgers: amounts are exact
decimals (`rust_decimal`), every amount carries its currency, and an auditor
rejects a program that mixes currencies or does arithmetic on truth values
before anything runs.

```text
asset USD = Fiat(precision: 2)
vault = 500.00 USD
fee = 10.00 USD
net = vault - fee
```

## Layout

- `src/` — the library, verified with Verus.
  - `lexer.rs`, `token.rs` — characters to tokens (commas in numbers are ignored).
  - `parser.rs`, `ast.rs` — tokens to a program; statements that cannot be read,
    at the top level or inside braces, are skipped and their token recorded.
  - `semantic.rs`, `symbol_table.rs` — the auditor and its symbol table. The
    audit follows the flow of a run: after an `if` a variable keeps a type only
    where both ways agree; a transaction is declared once, at the top level, and
    its body is checked against its parameters alone, as the machine runs it.
  - `codegen.rs` — the tree-walking evaluator used by the web service.
  - `vm.rs` — the machine used by the command line: each transaction runs in a
    frame of its own and writes its parameters back to the accounts passed by name.
  - `server.rs` — what the service computes for one request.
  - `money.rs`, `text.rs`, `value.rs`, `table.rs`, `clock.rs` — amounts, text,
    run-time values, string-keyed tables, and the clock.
  - `laws.rs`, `type_safety.rs` — properties that span the parts: currencies
    never mix, the auditor enforces signatures, calls see only their arguments,
    and an audited program meets no type error on the machine (in the
    evaluator, for programs that call no transaction).
- `tests/` — tests of the library.
- `app/` — the program: `run <file>` audits and runs a script on the machine;
  `serve` starts the HTTP API (`POST /api/v1/execute` with `{"code": ...}`).
