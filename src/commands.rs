//! The two operations the ledger offers, and what each one does to the loaded
//! collection.

use vstd::prelude::*;
use crate::transaction::{Transaction, TransactionErr, built_from, first_parse_error};

verus! {

/// An operation on the ledger.
pub enum Commands {
    /// Append one record built from raw text.
    Add { date: String, amount: String, category: String, note: Option<String> },
    /// Show every record.
    List {},
}

/// A parsed invocation: the operation to run.
pub struct FinCli {
    pub command: Commands,
}

/// What is left to do with the collection once a command has run: write it
/// back to the store, or show it.
#[derive(Debug, Clone, Copy, PartialEq, Eq, Structural)]
pub enum Effect {
    Save,
    Show,
}

/// The note stored with an added record: the one given, or `N/A`.
pub open spec fn stored_note(note: Option<String>) -> Seq<char> {
    match note {
        Some(n) => n@,
        None => "N/A"@,
    }
}

/// `after` is `before` with one record appended: the one built from the raw
/// fields, with the next id and the note text `note`.
pub open spec fn appends(
    before: Seq<Transaction>,
    after: Seq<Transaction>,
    date: Seq<char>,
    amount: Seq<char>,
    category: Seq<char>,
    note: Seq<char>,
) -> bool {
    &&& after.len() == before.len() + 1
    &&& after.subrange(0, before.len() as int) == before
    &&& after.last().note matches Some(n) && n@ == note
    &&& built_from(after.last(), after.len() as int, date, amount, category, after.last().note)
}

impl Commands {
    /// Runs the command on the loaded collection `all`. `Add` appends the new
    /// record with the next id and asks for a save; `List` asks for the
    /// collection to be shown. A parse error leaves `all` as it was.
    pub fn process(&self, all: &mut Vec<Transaction>) -> (r: Result<Effect, TransactionErr>)
        requires
            old(all).len() < u32::MAX,
        ensures
            self is List ==> r == Ok::<Effect, TransactionErr>(Effect::Show) && final(all)@
                == old(all)@,
            self matches Commands::Add { date, amount, category, note } ==> match r {
                Err(e) => first_parse_error(date@, amount@, category@) == Some(e) && final(all)@
                    == old(all)@,
                Ok(e) => e == Effect::Save && first_parse_error(date@, amount@, category@) is None
                    && appends(old(all)@, final(all)@, date@, amount@, category@, stored_note(*note)),
            },
    {
        match self {
            Commands::Add { date, amount, category, note } => {
                let stored = match note {
                    Some(n) => n.clone(),
                    None => String::from_str("N/A"),
                };
                Transaction::add(all, date.as_str(), amount.as_str(), category.as_str(), Some(stored))?;
                Ok(Effect::Save)
            },
            Commands::List {} => Ok(Effect::Show),
        }
    }
}

} // verus!
