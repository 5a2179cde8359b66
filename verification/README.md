# sable_dtl

A receivables and settlement desk, verified with Verus: invoices and their life cycle,
receipts, credit and debit memos under an adjustment policy, a double-entry ledger with
a trial balance, settlement obligations and claims, period close with a sealed
reconciliation report, aging and exposure analytics, and named scenarios that run the
desk through a month and report a BLAKE3-sealed summary.

## Layout

- `src/` is the verified library. Each module states its types' models and
  well-formedness as spec functions, and each operation's contract over them:
  - `amount`, `ids`, `text`, `keyed`: money and basis points, generated ids, decimal
    text, and the key-ordered registry every book is built on;
  - `invoice`, `receipts`, `adjustments`, `party`, `policy`: the books and their rules;
  - `ledger`: chart, journal and balances, with balanced journals, known accounts and
    zero-sum balances as the ledger's invariant;
  - `settlement`, `close`, `analytics`: obligations and claims, the period close, and
    the reports;
  - `codec`: canonical JSON text and the digest of it, the one call into `blake3`;
  - `fixtures`, `scenarios`: the seeded desk and the scenarios it runs.
- `tests/` runs the library on concrete values.
- `app/` is the command line: it runs a scenario by name and prints its report as JSON
  through `serde_json`.
