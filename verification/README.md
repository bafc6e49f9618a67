# contabil

The verified core of a Romanian double-entry bookkeeping back office (OMFP 1802/2014):
money arithmetic, the GL posting templates, the period closings, the statutory reports,
the monthly FX revaluation and the computations and checks of the commercial documents.
Every function in `src/` carries a contract proved by Verus.

## Layout

- `src/decimal.rs`, `src/text.rs` — exact decimal arithmetic and rounding over a
  mantissa/scale model, the `rust_decimal` parse/format/division calls behind named
  results, and the string helpers.
- `src/gl.rs` — the posting templates (sales and purchase invoices, customer and supplier
  payments with FX differences and cash-VAT releases) and the regime decisions.
- `src/cash_vat.rs` — the standard-rate buckets of a cash-VAT invoice and the VAT that a
  collection releases.
- `src/closing.rs` — balance guard, VAT settlement, 6/7 → 121 close, income tax, annual
  close, payroll.
- `src/reports.rs` — trial balance, P&L, balance sheet, journal register, general ledger
  sheets, GL ↔ D300 reconciliation.
- `src/ledger.rs` — the general ledger's movements: the corresponding account of each
  entry and the entries grouped by account in code order.
- `src/fx_revaluation.rs` — last banking day, invoice and treasury revaluation, the
  revaluation note.
- `src/invoices.rs`, `src/orders.rs`, `src/payments.rs`, `src/payment_instruments.rs`,
  `src/nir.rs`, `src/inventory.rs`, `src/gestiune.rs`, `src/models.rs`, `src/grouping.rs`
  — the documents: validation, amounts, numbering, status machines and accounting notes.
- `tests/` — concrete scenarios for every module.
- `app/` — the SQLite layer (sqlx), the BNR feed (reqwest), ids and clock (uuid, chrono);
  it reads, calls the library and writes. `app/collaborators.rs` names the services of the
  wider application that this layer relies on.
