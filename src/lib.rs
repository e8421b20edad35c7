//! A personal finance ledger: validated transaction records, the rules that
//! build them from raw text, and the decisions of the flat-file store.

pub mod text;
pub mod category;
pub mod transaction;
pub mod date;
pub mod amount;
pub mod listing;
pub mod commands;
