//! One expense, as the ledger holds it.

use vstd::prelude::*;

verus! {

/// One expense.
#[derive(Clone, Debug, PartialEq, Eq)]
pub struct Expense {
    /// The number by which the expense is found again.
    pub id: i32,
    /// The day of the expense, by convention as year, month and day with
    /// hyphens between them.
    pub date: String,
    /// What the money was spent on.
    pub description: String,
    /// The amount, as the 32 bits of a binary number in single precision.
    /// The ledger carries these bits and never reads them.
    pub amount: u32,
}

/// What an expense says, as plain values.
pub ghost struct Entry {
    pub id: int,
    pub date: Seq<char>,
    pub description: Seq<char>,
    pub amount: u32,
}

impl View for Expense {
    type V = Entry;

    open spec fn view(&self) -> Entry {
        Entry { id: self.id as int, date: self.date@, description: self.description@, amount: self.amount }
    }
}

/// What an expense that may be missing says.
pub open spec fn entry_of(e: Option<Expense>) -> Option<Entry> {
    match e {
        Some(e) => Some(e@),
        None => None,
    }
}

/// What a list of expenses says, one after the other.
pub open spec fn entries_of(v: Seq<Expense>) -> Seq<Entry> {
    v.map_values(|e: Expense| e@)
}

} // verus!
