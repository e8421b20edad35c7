//! The text of the ledger listing: one row of five columns per record.

use vstd::prelude::*;
use crate::amount::currency_label;
use crate::category::category_label;
use crate::date::iso_label;
use crate::text::{dec_digits, u128_text};
use crate::transaction::Transaction;

verus! {

/// The cells of one row of the listing, in column order.
pub struct TableRow {
    pub id: String,
    pub amount: String,
    pub category: String,
    pub date: String,
    pub note: String,
}

/// The note column: the note itself, or `N/A` without one.
pub open spec fn note_label(note: Option<String>) -> Seq<char> {
    match note {
        Some(n) => n@,
        None => "N/A"@,
    }
}

/// `row` holds the cells that display `t`.
pub open spec fn row_shows(row: TableRow, t: Transaction) -> bool {
    &&& row.id@ == dec_digits(t.id as nat)
    &&& row.amount@ == currency_label(t.amount)
    &&& row.category@ == category_label(t.category@)
    &&& row.date@ == iso_label(t.date.year as int, t.date.month as int, t.date.day as int)
    &&& row.note@ == note_label(t.note)
}

/// The column titles of the listing.
pub fn header_row() -> (r: TableRow)
    ensures
        r.id@ == "ID"@,
        r.amount@ == "Amount"@,
        r.category@ == "Category"@,
        r.date@ == "Date"@,
        r.note@ == "Notes"@,
{
    TableRow {
        id: String::from_str("ID"),
        amount: String::from_str("Amount"),
        category: String::from_str("Category"),
        date: String::from_str("Date"),
        note: String::from_str("Notes"),
    }
}

/// The row that displays one record.
pub fn table_row(t: &Transaction) -> (r: TableRow)
    requires
        t.wf(),
    ensures
        row_shows(r, *t),
{
    let note = match &t.note {
        Some(n) => n.clone(),
        None => String::from_str("N/A"),
    };
    TableRow {
        id: u128_text(t.id as u128),
        amount: t.amount.to_currency_string(),
        category: t.category.to_string(),
        date: t.date.to_iso_string(),
        note,
    }
}

/// The rows that display the records, in their order.
pub fn table_rows(all: &Vec<Transaction>) -> (r: Vec<TableRow>)
    requires
        forall|i: int| 0 <= i < all@.len() ==> (#[trigger] all@[i]).wf(),
    ensures
        r@.len() == all@.len(),
        forall|i: int| 0 <= i < all@.len() ==> row_shows(#[trigger] r@[i], all@[i]),
{
    let mut rows: Vec<TableRow> = Vec::new();
    let mut i: usize = 0;
    while i < all.len()
        invariant
            i <= all@.len(),
            rows@.len() == i,
            forall|k: int| 0 <= k < all@.len() ==> (#[trigger] all@[k]).wf(),
            forall|k: int| 0 <= k < i ==> row_shows(#[trigger] rows@[k], all@[k]),
        decreases all@.len() - i,
    {
        rows.push(table_row(&all[i]));
        i = i + 1;
    }
    rows
}

} // verus!
