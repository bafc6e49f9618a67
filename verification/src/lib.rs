//! Verified core of a Romanian double-entry bookkeeping back office: decimal money
//! arithmetic, GL posting templates, period closings, reports, FX revaluation,
//! document computations and validations.

pub mod decimal;
pub mod text;
pub mod gl;
pub mod closing;
pub mod reports;
pub mod payment_instruments;
pub mod fx_revaluation;
pub mod models;
pub mod invoices;
pub mod grouping;
pub mod inventory;
pub mod nir;
pub mod payments;
pub mod orders;
pub mod gestiune;
pub mod cash_vat;
pub mod ledger;
