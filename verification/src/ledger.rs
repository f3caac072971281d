//! The ledger: the expenses in the order they came, and the number that the
//! next one will get.

use crate::codec::{decode, decode_spec};
use crate::date::{is_calendar_day, month_of, month_of_spec, today};
use crate::record::{entries_of, Entry, Expense};
use crate::text::{lemma_position, lemma_position_first, position};
use vstd::prelude::*;

verus! {

/// A line of the ledger's file, with the number that was read from the text
/// of its amount, if one was.
#[derive(Clone, Debug, PartialEq, Eq)]
pub struct Reading {
    pub line: String,
    pub amount: Option<u32>,
}

impl View for Reading {
    type V = (Seq<char>, Option<u32>);

    open spec fn view(&self) -> (Seq<char>, Option<u32>) {
        (self.line@, self.amount)
    }
}

/// What a list of readings says, one after the other.
pub open spec fn readings_of(v: Seq<Reading>) -> Seq<(Seq<char>, Option<u32>)> {
    v.map_values(|r: Reading| r@)
}

/// Whether an expense counts for a month: every expense where no month is
/// asked for, otherwise those whose date names that month.
pub open spec fn in_month(e: Entry, month: Option<u32>) -> bool {
    match month {
        None => true,
        Some(m) => month_of_spec(e.date) == m,
    }
}

/// The amounts of the expenses that count for a month, in their order.
pub open spec fn amounts_in(records: Seq<Entry>, month: Option<u32>) -> Seq<u32>
    decreases records.len(),
{
    if records.len() == 0 {
        Seq::empty()
    } else if in_month(records.last(), month) {
        amounts_in(records.drop_last(), month).push(records.last().amount)
    } else {
        amounts_in(records.drop_last(), month)
    }
}

/// The state of a ledger as plain values.
pub ghost struct Ledger {
    /// The expenses, in the order they came.
    pub records: Seq<Entry>,
    /// The number that the next new expense gets.
    pub next_id: int,
    /// Where the ledger is kept.
    pub path: Seq<char>,
}

impl Ledger {
    /// The ledger that holds nothing yet.
    pub open spec fn empty(path: Seq<char>) -> Ledger {
        Ledger { records: Seq::empty(), next_id: 1, path }
    }

    /// The numbers of the expenses, in their order.
    pub open spec fn ids(self) -> Seq<int> {
        self.records.map_values(|e: Entry| e.id)
    }

    /// Whether an expense has this number.
    pub open spec fn has_id(self, id: int) -> bool {
        self.ids().contains(id)
    }

    /// Whether no two expenses share a number.
    pub open spec fn distinct_ids(self) -> bool {
        forall|i: int, j: int|
            0 <= i < j < self.records.len() ==> self.records[i].id != self.records[j].id
    }

    /// The next number is positive and above the number of every expense.
    pub open spec fn wf(self) -> bool {
        &&& self.next_id >= 1
        &&& forall|i: int| 0 <= i < self.records.len() ==> (#[trigger] self.records[i]).id < self.next_id
    }

    /// The ledger after an expense was read from its file: the expense comes
    /// last, and the next number rises above its number.
    pub open spec fn take_in(self, e: Entry) -> Ledger {
        Ledger {
            records: self.records.push(e),
            next_id: if e.id >= self.next_id {
                e.id + 1
            } else {
                self.next_id
            },
            ..self
        }
    }

    /// The ledger after these lines were read, in their order. A line that
    /// stands for no expense changes nothing.
    pub open spec fn load(self, readings: Seq<(Seq<char>, Option<u32>)>) -> Ledger
        decreases readings.len(),
    {
        if readings.len() == 0 {
            self
        } else {
            let before = self.load(readings.drop_last());
            match decode_spec(readings.last().0, readings.last().1) {
                Some(e) => before.take_in(e),
                None => before,
            }
        }
    }

    /// The ledger after a new expense was entered: it gets the next number
    /// and comes last.
    pub open spec fn add(self, date: Seq<char>, description: Seq<char>, amount: u32) -> Ledger {
        Ledger {
            records: self.records.push(Entry { id: self.next_id, date, description, amount }),
            next_id: self.next_id + 1,
            ..self
        }
    }

    /// The ledger without the first expense that has this number. Where none
    /// has it, the ledger as it is.
    pub open spec fn delete(self, id: int) -> Ledger {
        let i = position(self.ids(), id, 0);
        if i < self.records.len() {
            Ledger { records: self.records.remove(i), ..self }
        } else {
            self
        }
    }
}

/// The ledger of expenses.
pub struct ExpenseTracker {
    expenses: Vec<Expense>,
    next_id: i64,
    file_name: String,
}

impl View for ExpenseTracker {
    type V = Ledger;

    closed spec fn view(&self) -> Ledger {
        Ledger {
            records: entries_of(self.expenses@),
            next_id: self.next_id as int,
            path: self.file_name@,
        }
    }
}

impl ExpenseTracker {
    /// What every ledger keeps to: the next number is above the number of
    /// every expense, and at most one above the largest number there is.
    pub open spec fn wf(&self) -> bool {
        self@.wf() && self@.next_id <= 0x8000_0000
    }

    /// A ledger that holds nothing yet.
    pub fn new(file_name: String) -> (t: Self)
        ensures
            t.wf(),
            t@ == Ledger::empty(file_name@),
    {
        let t = ExpenseTracker { expenses: Vec::new(), next_id: 1, file_name };
        assert(t@.records =~= Seq::<Entry>::empty());
        t
    }

    /// Where the ledger is kept.
    pub fn file_name(&self) -> (name: &String)
        ensures
            name@ == self@.path,
    {
        &self.file_name
    }

    /// The number that the next new expense gets.
    pub fn next_id(&self) -> (n: i64)
        ensures
            n == self@.next_id,
    {
        self.next_id
    }

    /// Whether a number is left for a new expense.
    pub fn has_room(&self) -> (r: bool)
        ensures
            r == (self@.next_id <= i32::MAX),
    {
        self.next_id <= 0x7fff_ffff
    }

    /// Reads the lines of the ledger's file, in their order. Each line that
    /// stands for an expense adds it, and lifts the next number above its
    /// number; the other lines are passed over.
    pub fn load_expenses(&mut self, readings: &Vec<Reading>)
        requires
            old(self).wf(),
        ensures
            final(self).wf(),
            final(self)@ == old(self)@.load(readings_of(readings@)),
    {
        let ghost all = readings_of(readings@);
        let mut i: usize = 0;
        assert(all.take(0) =~= Seq::empty());
        while i < readings.len()
            invariant
                i <= readings.len(),
                all == readings_of(readings@),
                self.wf(),
                self@ == old(self)@.load(all.take(i as int)),
            decreases readings.len() - i,
        {
            let reading = &readings[i];
            proof {
                assert(all.take(i as int + 1).drop_last() =~= all.take(i as int));
                assert(all.take(i as int + 1).last() == reading@);
            }
            match decode(reading.line.as_str(), reading.amount) {
                Some(e) => {
                    let ghost before = self@;
                    let id: i64 = e.id as i64;
                    proof {
                        assert(entries_of(self.expenses@.push(e)) =~= entries_of(
                            self.expenses@,
                        ).push(e@));
                    }
                    self.expenses.push(e);
                    if id >= self.next_id {
                        self.next_id = id + 1;
                    }
                    assert(self@ == before.take_in(e@));
                },
                None => {},
            }
            i += 1;
        }
        assert(all.take(i as int) =~= all);
    }

    /// Enters a new expense under a given date. It gets the next number,
    /// which is returned, and comes last.
    pub fn add_dated(&mut self, date: String, description: String, amount: u32) -> (id: i32)
        requires
            old(self).wf(),
            old(self)@.next_id <= i32::MAX,
        ensures
            final(self).wf(),
            id == old(self)@.next_id,
            final(self)@ == old(self)@.add(date@, description@, amount),
    {
        let id: i32 = self.next_id as i32;
        let e = Expense { id, date, description, amount };
        proof {
            assert(entries_of(self.expenses@.push(e)) =~= entries_of(self.expenses@).push(e@));
        }
        self.expenses.push(e);
        self.next_id = self.next_id + 1;
        proof {
            assert forall|i: int| 0 <= i < self@.records.len() implies (
            #[trigger] self@.records[i]).id < self@.next_id by {
                if i < old(self)@.records.len() {
                    assert(self@.records[i] == old(self)@.records[i]);
                }
            }
        }
        id
    }

    /// Enters a new expense under today's date. It gets the next number,
    /// which is returned, and comes last. Which day today is the clock of the
    /// machine says: the date is the text of a day of the calendar.
    pub fn add_expense(&mut self, description: String, amount: u32) -> (id: i32)
        requires
            old(self).wf(),
            old(self)@.next_id <= i32::MAX,
        ensures
            final(self).wf(),
            id == old(self)@.next_id,
            final(self)@.records.len() == old(self)@.records.len() + 1,
            is_calendar_day(final(self)@.records.last().date),
            final(self)@ == old(self)@.add(
                final(self)@.records.last().date,
                description@,
                amount,
            ),
    {
        let date = today();
        self.add_dated(date, description, amount)
    }

    /// The expenses, in the order they came.
    pub fn list_expenses(&self) -> (all: &Vec<Expense>)
        ensures
            entries_of(all@) == self@.records,
            all@.len() == self@.records.len(),
            forall|i: int| 0 <= i < all@.len() ==> (#[trigger] all@[i])@ == self@.records[i],
    {
        &self.expenses
    }

    /// The amounts to add up for a month, or for the whole ledger where no
    /// month is given, in the order of the expenses.
    pub fn amounts_for(&self, month: Option<u32>) -> (amounts: Vec<u32>)
        ensures
            amounts@ == amounts_in(self@.records, month),
    {
        let ghost records = self@.records;
        let mut amounts: Vec<u32> = Vec::new();
        let mut i: usize = 0;
        assert(records.take(0) =~= Seq::empty());
        while i < self.expenses.len()
            invariant
                i <= self.expenses.len(),
                records == entries_of(self.expenses@),
                amounts@ == amounts_in(records.take(i as int), month),
            decreases self.expenses.len() - i,
        {
            let e = &self.expenses[i];
            proof {
                assert(records.take(i as int + 1).drop_last() =~= records.take(i as int));
                assert(records.take(i as int + 1).last() == e@);
            }
            let counts: bool = match month {
                None => true,
                Some(m) => month_of(e.date.as_str()) == m,
            };
            if counts {
                amounts.push(e.amount);
            }
            i += 1;
        }
        assert(records.take(i as int) =~= records);
        amounts
    }

    /// Removes the first expense that has this number, and says whether
    /// there was one.
    pub fn delete_expense(&mut self, id: i32) -> (found: bool)
        requires
            old(self).wf(),
        ensures
            final(self).wf(),
            found == old(self)@.has_id(id as int),
            final(self)@ == old(self)@.delete(id as int),
    {
        let ghost ids = self@.ids();
        let mut i: usize = 0;
        while i < self.expenses.len() && self.expenses[i].id != id
            invariant
                i <= self.expenses.len(),
                *self == *old(self),
                ids == self@.ids(),
                forall|k: int| 0 <= k < i ==> ids[k] != id as int,
            decreases self.expenses.len() - i,
        {
            i += 1;
        }
        proof {
            lemma_position(ids, id as int, 0, i as int);
            lemma_position_first(ids, id as int, 0);
        }
        if i < self.expenses.len() {
            proof {
                assert(entries_of(self.expenses@.remove(i as int)) =~= entries_of(
                    self.expenses@,
                ).remove(i as int));
                assert(ids[i as int] == id as int);
            }
            self.expenses.remove(i);
            true
        } else {
            false
        }
    }
}

} // verus!
