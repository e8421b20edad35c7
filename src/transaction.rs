//! Ledger entries and the rules that build them from raw text.

use vstd::prelude::*;
use crate::amount::{Amount, amount_ok, amount_of, parse_amount};
use crate::category::{Category, category_of, parse_category};
use crate::date::{Date, date_parsed, parse_date_pattern};

verus! {

/// Why raw text could not become a transaction.
#[derive(Debug, Clone, Copy, PartialEq, Eq, Structural)]
pub enum TransactionErr {
    DateParse,
    AmountParse,
    CategoryParse,
}

/// One ledger entry.
#[derive(Debug, Clone)]
pub struct Transaction {
    pub id: u32,
    pub date: Date,
    pub amount: Amount,
    pub category: Category,
    pub note: Option<String>,
}

/// The one pattern dates are written in: month/day/year, as in `12/25/2024`.
pub open spec fn date_pattern() -> Seq<char> {
    "%m/%d/%Y"@
}

/// The first stage at which the raw fields fail, checked in the order date,
/// amount, category; `None` when all three are valid.
pub open spec fn first_parse_error(
    raw_date: Seq<char>,
    raw_amount: Seq<char>,
    raw_cat: Seq<char>,
) -> Option<TransactionErr> {
    fields_error(date_parsed(raw_date, date_pattern()) is Some, raw_amount, raw_cat)
}

/// The first failing stage once the date has been read (`date_read`) or not.
pub open spec fn fields_error(
    date_read: bool,
    raw_amount: Seq<char>,
    raw_cat: Seq<char>,
) -> Option<TransactionErr> {
    if !date_read {
        Some(TransactionErr::DateParse)
    } else if !amount_ok(raw_amount) {
        Some(TransactionErr::AmountParse)
    } else if category_of(raw_cat) is None {
        Some(TransactionErr::CategoryParse)
    } else {
        None
    }
}

/// `date`, `amount` and `category` are what the raw fields denote.
pub open spec fn fields_denote(
    date: Date,
    amount: Amount,
    category: Category,
    raw_date: Seq<char>,
    raw_amount: Seq<char>,
    raw_cat: Seq<char>,
) -> bool {
    &&& date.wf()
    &&& date_parsed(raw_date, date_pattern()) == Some(
        (date.year as int, date.month as int, date.day as int),
    )
    &&& amount == amount_of(raw_amount)
    &&& category_of(raw_cat) == Some(category@)
}

/// `t` is the record built from the raw fields with the given id and note.
pub open spec fn built_from(
    t: Transaction,
    id: int,
    raw_date: Seq<char>,
    raw_amount: Seq<char>,
    raw_cat: Seq<char>,
    note: Option<String>,
) -> bool {
    &&& t.id == id
    &&& t.note == note
    &&& fields_denote(t.date, t.amount, t.category, raw_date, raw_amount, raw_cat)
}

impl Transaction {
    pub open spec fn wf(&self) -> bool {
        self.date.wf()
    }

    /// Builds a record from raw text: a `MM/DD/YYYY` date, a plain decimal
    /// amount and a category. The first field that fails decides the error.
    pub fn new(
        id: u32,
        raw_date: &str,
        raw_amount: &str,
        raw_cat: &str,
        note: Option<String>,
    ) -> (r: Result<Transaction, TransactionErr>)
        ensures
            r matches Err(e) ==> first_parse_error(raw_date@, raw_amount@, raw_cat@) == Some(e),
            r matches Ok(t) ==> first_parse_error(raw_date@, raw_amount@, raw_cat@) is None
                && built_from(t, id as int, raw_date@, raw_amount@, raw_cat@, note),
    {
        let (date, amount, category) = parse_trans(raw_date, raw_amount, raw_cat)?;
        Ok(Transaction { id, date, amount, category, note })
    }

    /// Appends to `all` the record built from the raw fields, with the next id;
    /// on a parse error `all` is left as it was.
    pub fn add(
        all: &mut Vec<Transaction>,
        raw_date: &str,
        raw_amount: &str,
        raw_cat: &str,
        note: Option<String>,
    ) -> (r: Result<(), TransactionErr>)
        requires
            old(all).len() < u32::MAX,
        ensures
            r matches Err(e) ==> first_parse_error(raw_date@, raw_amount@, raw_cat@) == Some(e)
                && final(all)@ == old(all)@,
            r is Ok ==> first_parse_error(raw_date@, raw_amount@, raw_cat@) is None
                && final(all)@.len() == old(all)@.len() + 1
                && final(all)@.subrange(0, old(all)@.len() as int) == old(all)@
                && built_from(
                final(all)@.last(),
                (old(all)@.len() + 1) as int,
                raw_date@,
                raw_amount@,
                raw_cat@,
                note,
            ),
    {
        let id = next_id(all);
        let t = Transaction::new(id, raw_date, raw_amount, raw_cat, note)?;
        all.push(t);
        assert(all@.subrange(0, old(all)@.len() as int) =~= old(all)@);
        Ok(())
    }
}

/// The text of a note, if there is one.
pub open spec fn note_view(note: Option<String>) -> Option<Seq<char>> {
    match note {
        Some(n) => Some(n@),
        None => None,
    }
}

impl PartialEq for Transaction {
    fn eq(&self, other: &Transaction) -> (r: bool) {
        let same_note = match (&self.note, &other.note) {
            (Some(a), Some(b)) => *a == *b,
            (None, None) => true,
            _ => false,
        };
        self.id == other.id && self.date == other.date && self.amount == other.amount
            && self.category == other.category && same_note
    }
}

impl vstd::std_specs::cmp::PartialEqSpecImpl for Transaction {
    open spec fn obeys_eq_spec() -> bool {
        true
    }

    open spec fn eq_spec(&self, other: &Transaction) -> bool {
        &&& self.id == other.id
        &&& self.date == other.date
        &&& self.amount == other.amount
        &&& self.category@ == other.category@
        &&& note_view(self.note) == note_view(other.note)
    }
}

/// Reads the three raw fields in the order date, amount, category, and stops
/// at the first that fails.
pub fn parse_trans(raw_date: &str, raw_amount: &str, raw_cat: &str) -> (r: Result<
    (Date, Amount, Category),
    TransactionErr,
>)
    ensures
        r matches Err(e) ==> first_parse_error(raw_date@, raw_amount@, raw_cat@) == Some(e),
        r matches Ok((d, a, c)) ==> first_parse_error(raw_date@, raw_amount@, raw_cat@) is None
            && fields_denote(d, a, c, raw_date@, raw_amount@, raw_cat@),
{
    let date = parse_date_pattern(raw_date, "%m/%d/%Y");
    read_fields(date, raw_amount, raw_cat)
}

/// Completes the reading of a record's fields from the date as read (or not)
/// from its text: then the amount, then the category, stopping at the first
/// that fails.
pub fn read_fields(date: Option<Date>, raw_amount: &str, raw_cat: &str) -> (r: Result<
    (Date, Amount, Category),
    TransactionErr,
>)
    ensures
        r matches Err(e) ==> fields_error(date is Some, raw_amount@, raw_cat@) == Some(e),
        r matches Ok((d, a, c)) ==> fields_error(date is Some, raw_amount@, raw_cat@) is None
            && date == Some(d) && a == amount_of(raw_amount@) && category_of(raw_cat@) == Some(
            c@,
        ),
{
    let date = match date {
        Some(d) => d,
        None => return Err(TransactionErr::DateParse),
    };
    let amount = parse_amount(raw_amount)?;
    let category = parse_category(raw_cat)?;
    Ok((date, amount, category))
}

/// The id the next appended record gets: one more than the number of records.
pub fn next_id(all: &Vec<Transaction>) -> (r: u32)
    requires
        all@.len() < u32::MAX,
    ensures
        r == all@.len() + 1,
{
    (all.len() + 1) as u32
}

} // verus!
