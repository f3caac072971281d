//! What holds of a ledger whatever is done to it.

use crate::codec::decode_spec;
use crate::ledger::{amounts_in, Ledger};
use crate::record::Entry;
use crate::text::{lemma_position_first, position};
use vstd::prelude::*;

verus! {

/// Deleting a number that the ledger holds takes out one expense, the first
/// with that number, and leaves the others as they were and in their order.
/// Deleting a number that it does not hold leaves the ledger as it was.
/// Either way the next number stays.
pub proof fn lemma_delete(l: Ledger, id: int)
    ensures
        l.delete(id).next_id == l.next_id,
        l.delete(id).path == l.path,
        !l.has_id(id) ==> l.delete(id) == l,
        l.has_id(id) ==> {
            let i = position(l.ids(), id, 0);
            &&& 0 <= i < l.records.len()
            &&& l.records[i].id == id
            &&& forall|k: int| 0 <= k < i ==> l.records[k].id != id
            &&& l.delete(id).records.len() == l.records.len() - 1
            &&& l.delete(id).records == l.records.remove(i)
        },
{
    lemma_position_first(l.ids(), id, 0);
    let i = position(l.ids(), id, 0);
    if l.has_id(id) {
        let k = choose|k: int| 0 <= k < l.ids().len() && l.ids()[k] == id;
        assert(i <= k);
        assert forall|k: int| 0 <= k < i implies l.records[k].id != id by {
            assert(l.ids()[k] != id);
        }
    } else {
        if i < l.records.len() {
            assert(l.ids()[i] == id);
        }
    }
}

/// Deleting keeps a ledger valid, and keeps its numbers distinct where they
/// were. Where they were distinct, the number deleted is gone.
pub proof fn lemma_delete_keeps(l: Ledger, id: int)
    requires
        l.wf(),
    ensures
        l.delete(id).wf(),
        l.distinct_ids() ==> l.delete(id).distinct_ids() && !l.delete(id).has_id(id),
{
    lemma_delete(l, id);
    let after = l.delete(id);
    if l.has_id(id) {
        let i = position(l.ids(), id, 0);
        assert forall|k: int| 0 <= k < after.records.len() implies (#[trigger] after.records[k]).id
            < after.next_id by {
            if k < i {
                assert(after.records[k] == l.records[k]);
            } else {
                assert(after.records[k] == l.records[k + 1]);
            }
        }
        if l.distinct_ids() {
            assert forall|a: int, b: int| 0 <= a < b < after.records.len() implies after.records[a].id
                != after.records[b].id by {
                let a0 = if a < i {
                    a
                } else {
                    a + 1
                };
                let b0 = if b < i {
                    b
                } else {
                    b + 1
                };
                assert(after.records[a] == l.records[a0]);
                assert(after.records[b] == l.records[b0]);
            }
            if after.has_id(id) {
                let k = choose|k: int| 0 <= k < after.ids().len() && after.ids()[k] == id;
                let k0 = if k < i {
                    k
                } else {
                    k + 1
                };
                assert(after.records[k] == l.records[k0]);
                assert(l.records[k0].id == id && l.records[i].id == id && k0 != i);
                assert(false);
            }
        }
    } else {
        if l.distinct_ids() {
            assert(!after.has_id(id));
        }
    }
}

/// A new expense gets a number that no expense of the ledger has, and that
/// is above them all; the next number rises by one. Entering it keeps the
/// ledger valid, and its numbers distinct where they were.
pub proof fn lemma_add(l: Ledger, date: Seq<char>, description: Seq<char>, amount: u32)
    requires
        l.wf(),
    ensures
        l.add(date, description, amount).wf(),
        l.add(date, description, amount).records.len() == l.records.len() + 1,
        l.add(date, description, amount).records.last() == (Entry {
            id: l.next_id,
            date,
            description,
            amount,
        }),
        l.add(date, description, amount).next_id == l.next_id + 1,
        !l.has_id(l.next_id),
        forall|i: int| 0 <= i < l.records.len() ==> (#[trigger] l.records[i]).id < l.next_id,
        l.distinct_ids() ==> l.add(date, description, amount).distinct_ids(),
{
    let after = l.add(date, description, amount);
    assert forall|i: int| 0 <= i < after.records.len() implies (#[trigger] after.records[i]).id
        < after.next_id by {
        if i < l.records.len() {
            assert(after.records[i] == l.records[i]);
        }
    }
    if l.has_id(l.next_id) {
        let k = choose|k: int| 0 <= k < l.ids().len() && l.ids()[k] == l.next_id;
        assert(l.records[k].id < l.next_id);
    }
    if l.distinct_ids() {
        assert forall|a: int, b: int| 0 <= a < b < after.records.len() implies after.records[a].id
            != after.records[b].id by {
            assert(after.records[a] == l.records[a]);
            if b < l.records.len() {
                assert(after.records[b] == l.records[b]);
            }
        }
    }
}

/// A number that was deleted is not given out again: the expense entered
/// after a deletion gets a number above the one deleted and above every
/// number that the ledger held before.
pub proof fn lemma_delete_then_add(
    l: Ledger,
    id: int,
    date: Seq<char>,
    description: Seq<char>,
    amount: u32,
)
    requires
        l.wf(),
    ensures
        l.delete(id).add(date, description, amount).records.last().id == l.next_id,
        l.has_id(id) ==> id < l.delete(id).add(date, description, amount).records.last().id,
        forall|i: int|
            0 <= i < l.records.len() ==> (#[trigger] l.records[i]).id < l.delete(id).add(
                date,
                description,
                amount,
            ).records.last().id,
        l.delete(id).add(date, description, amount).wf(),
        l.distinct_ids() ==> l.delete(id).add(date, description, amount).distinct_ids(),
{
    lemma_delete(l, id);
    lemma_delete_keeps(l, id);
    lemma_add(l.delete(id), date, description, amount);
}

/// Reading lines keeps a ledger valid and keeps what it held, in front of
/// what was read; each line adds one expense at most. The next number never
/// falls, and where it rose it stands one above the number of an expense
/// that was read: being above them all, it is one above the largest.
pub proof fn lemma_load(l: Ledger, readings: Seq<(Seq<char>, Option<u32>)>)
    requires
        l.wf(),
    ensures
        l.load(readings).wf(),
        l.load(readings).path == l.path,
        l.load(readings).next_id >= l.next_id,
        l.records.len() <= l.load(readings).records.len() <= l.records.len() + readings.len(),
        l.load(readings).records.take(l.records.len() as int) == l.records,
        l.load(readings).next_id > l.next_id ==> exists|i: int|
            l.records.len() <= i < l.load(readings).records.len() && (
            #[trigger] l.load(readings).records[i]).id + 1 == l.load(readings).next_id,
    decreases readings.len(),
{
    if readings.len() == 0 {
        assert(l.records.take(l.records.len() as int) =~= l.records);
    } else {
        let before = l.load(readings.drop_last());
        lemma_load(l, readings.drop_last());
        let after = l.load(readings);
        match decode_spec(readings.last().0, readings.last().1) {
            Some(e) => {
                assert(after == before.take_in(e));
                assert forall|i: int| 0 <= i < after.records.len() implies (
                #[trigger] after.records[i]).id < after.next_id by {
                    if i < before.records.len() {
                        assert(after.records[i] == before.records[i]);
                    }
                }
                assert(after.records.take(l.records.len() as int) =~= before.records.take(
                    l.records.len() as int,
                ));
                if after.next_id > l.next_id {
                    if after.next_id == before.next_id {
                        let i = choose|i: int|
                            l.records.len() <= i < before.records.len() && (
                            #[trigger] before.records[i]).id + 1 == before.next_id;
                        assert(after.records[i] == before.records[i]);
                    } else {
                        let i = before.records.len() as int;
                        assert(after.records[i] == e);
                    }
                }
            },
            None => {},
        }
    }
}

/// The expenses that lines stand for, in the order of the lines.
pub open spec fn decoded_entries(readings: Seq<(Seq<char>, Option<u32>)>) -> Seq<Entry>
    decreases readings.len(),
{
    if readings.len() == 0 {
        Seq::empty()
    } else {
        match decode_spec(readings.last().0, readings.last().1) {
            Some(e) => decoded_entries(readings.drop_last()).push(e),
            None => decoded_entries(readings.drop_last()),
        }
    }
}

/// After reading lines the ledger holds what it held, and behind that the
/// expenses that the lines stand for, in the order of the lines.
pub proof fn lemma_load_records(l: Ledger, readings: Seq<(Seq<char>, Option<u32>)>)
    ensures
        l.load(readings).records == l.records + decoded_entries(readings),
    decreases readings.len(),
{
    if readings.len() == 0 {
        assert(l.records =~= l.records + decoded_entries(readings));
    } else {
        lemma_load_records(l, readings.drop_last());
        assert(l.load(readings).records =~= l.records + decoded_entries(readings));
    }
}

/// A line that stands for no expense leaves the ledger as it was.
pub proof fn lemma_load_skips(l: Ledger, readings: Seq<(Seq<char>, Option<u32>)>)
    requires
        forall|i: int|
            0 <= i < readings.len() ==> decode_spec(
                (#[trigger] readings[i]).0,
                readings[i].1,
            ) is None,
    ensures
        l.load(readings) == l,
    decreases readings.len(),
{
    if readings.len() > 0 {
        lemma_load_skips(l, readings.drop_last());
        assert(readings.last() == readings[readings.len() - 1]);
    }
}

/// Where no month is asked for, the amounts are those of all the expenses.
pub proof fn lemma_amounts_of_all(records: Seq<Entry>)
    ensures
        amounts_in(records, None) == records.map_values(|e: Entry| e.amount),
    decreases records.len(),
{
    if records.len() == 0 {
        assert(amounts_in(records, None) =~= records.map_values(|e: Entry| e.amount));
    } else {
        lemma_amounts_of_all(records.drop_last());
        assert(amounts_in(records, None) =~= records.map_values(|e: Entry| e.amount));
    }
}

} // verus!
