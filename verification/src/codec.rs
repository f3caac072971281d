//! The line that stands for one expense in the ledger's file: the number,
//! a space, the date, a space, the description, a bar and the amount. A
//! line is read more freely than it is written: any white-space character
//! ends the number, and any ends the date.

use crate::number::{int_text, is_digit, lemma_int_text, parse_i32, push_i32, read_i32};
use crate::record::{entry_of, Entry, Expense};
use crate::text::{
    chars_of, find_last, find_space, has_no_space, is_space, is_trimmed, lemma_last_position,
    lemma_space_position, lemma_space_position_first, lemma_trim, lemma_trim_trimmed, split_last,
    split_space, trim, trim_range,
};
use vstd::prelude::*;
use vstd::string::*;

verus! {

/// The four fields of a line, each as the text that stands in the line.
#[derive(Clone, Debug, PartialEq, Eq)]
pub struct Fields {
    /// The text of the number.
    pub id: String,
    /// The date.
    pub date: String,
    /// The description, trimmed.
    pub description: String,
    /// The text of the amount.
    pub amount: String,
}

/// The fields of a line as plain values.
pub ghost struct Tokens {
    pub id: Seq<char>,
    pub date: Seq<char>,
    pub description: Seq<char>,
    pub amount: Seq<char>,
}

impl View for Fields {
    type V = Tokens;

    open spec fn view(&self) -> Tokens {
        Tokens {
            id: self.id@,
            date: self.date@,
            description: self.description@,
            amount: self.amount@,
        }
    }
}

/// The fields of a line. The line is trimmed; the number ends at its first
/// white-space character and the date at the next one; of what is left, the
/// amount is what follows the last bar, and the description what stands
/// before that bar, trimmed. A trimmed line with fewer than two white-space
/// characters, or without a bar after them, has no fields.
pub open spec fn split_fields(line: Seq<char>) -> Option<Tokens> {
    match split_space(trim(line)) {
        None => None,
        Some((id, after_id)) => match split_space(after_id) {
            None => None,
            Some((date, rest)) => match split_last(rest, '|') {
                None => None,
                Some((description, amount)) => Some(
                    Tokens { id, date, description: trim(description), amount },
                ),
            },
        },
    }
}

/// The expense that a line stands for, given the number that was read from
/// the text of its amount, if one was. A line stands for an expense where it
/// has its fields, the first of them is the literal of a 32-bit integer,
/// and a number was read from the last.
pub open spec fn decode_spec(line: Seq<char>, amount: Option<u32>) -> Option<Entry> {
    match (split_fields(line), amount) {
        (Some(t), Some(a)) => match read_i32(t.id) {
            Some(id) => Some(
                Entry { id: id as int, date: t.date, description: t.description, amount: a },
            ),
            None => None,
        },
        _ => None,
    }
}

/// The line that stands for an expense, given the text of its amount.
pub open spec fn encode_spec(e: Entry, amount: Seq<char>) -> Seq<char> {
    int_text(e.id) + seq![' '] + e.date + seq![' '] + e.description + seq!['|'] + amount
}

/// Where the fields of a line stand among its characters.
struct Cuts {
    id: (usize, usize),
    date: (usize, usize),
    description: (usize, usize),
    amount: (usize, usize),
}

impl Cuts {
    spec fn within(&self, n: int) -> bool {
        &&& self.id.0 <= self.id.1 <= n
        &&& self.date.0 <= self.date.1 <= n
        &&& self.description.0 <= self.description.1 <= n
        &&& self.amount.0 <= self.amount.1 <= n
    }

    spec fn tokens(&self, s: Seq<char>) -> Tokens {
        Tokens {
            id: s.subrange(self.id.0 as int, self.id.1 as int),
            date: s.subrange(self.date.0 as int, self.date.1 as int),
            description: s.subrange(self.description.0 as int, self.description.1 as int),
            amount: s.subrange(self.amount.0 as int, self.amount.1 as int),
        }
    }
}

/// Finds the fields of a line among its characters.
fn cut(chars: &Vec<char>) -> (r: Option<Cuts>)
    ensures
        match r {
            Some(c) => c.within(chars@.len() as int) && split_fields(chars@) == Some(
                c.tokens(chars@),
            ),
            None => split_fields(chars@) is None,
        },
{
    let n: usize = chars.len();
    let ghost s = chars@;
    assert(s.subrange(0, n as int) =~= s);
    let (a, b) = trim_range(chars, 0, n);
    let ghost t = s.subrange(a as int, b as int);
    let first = match find_space(chars, a, b) {
        Some(i) => i,
        None => { return None; },
    };
    let ghost after_id = t.subrange(first - a + 1, t.len() as int);
    assert(after_id =~= s.subrange(first as int + 1, b as int));
    assert(t.subrange(0, first - a) =~= s.subrange(a as int, first as int));
    let second = match find_space(chars, first + 1, b) {
        Some(i) => i,
        None => { return None; },
    };
    let ghost rest = after_id.subrange(second - first, after_id.len() as int);
    assert(rest =~= s.subrange(second as int + 1, b as int));
    assert(after_id.subrange(0, second - first - 1) =~= s.subrange(
        first as int + 1,
        second as int,
    ));
    let bar = match find_last(chars, second + 1, b, '|') {
        Some(i) => i,
        None => { return None; },
    };
    assert(rest.subrange(0, bar - second - 1) =~= s.subrange(second as int + 1, bar as int));
    assert(rest.subrange(bar - second, rest.len() as int) =~= s.subrange(
        bar as int + 1,
        b as int,
    ));
    let (da, db) = trim_range(chars, second + 1, bar);
    Some(Cuts { id: (a, first), date: (first + 1, second), description: (da, db), amount: (bar + 1, b) })
}

/// Splits a line into its fields.
pub fn split_line(line: &str) -> (r: Option<Fields>)
    ensures
        match r {
            Some(f) => split_fields(line@) == Some(f@),
            None => split_fields(line@) is None,
        },
{
    let chars = chars_of(line);
    match cut(&chars) {
        Some(c) => Some(
            Fields {
                id: line.substring_char(c.id.0, c.id.1).to_owned(),
                date: line.substring_char(c.date.0, c.date.1).to_owned(),
                description: line.substring_char(c.description.0, c.description.1).to_owned(),
                amount: line.substring_char(c.amount.0, c.amount.1).to_owned(),
            },
        ),
        None => None,
    }
}

/// Decodes a line, given the number that was read from the text of its
/// amount, if one was.
pub fn decode(line: &str, amount: Option<u32>) -> (r: Option<Expense>)
    ensures
        entry_of(r) == decode_spec(line@, amount),
{
    let chars = chars_of(line);
    let c = match cut(&chars) {
        Some(c) => c,
        None => { return None; },
    };
    let a = match amount {
        Some(a) => a,
        None => { return None; },
    };
    match parse_i32(&chars, c.id.0, c.id.1) {
        Some(id) => Some(
            Expense {
                id,
                date: line.substring_char(c.date.0, c.date.1).to_owned(),
                description: line.substring_char(c.description.0, c.description.1).to_owned(),
                amount: a,
            },
        ),
        None => None,
    }
}

/// Encodes an expense, given the text of its amount.
pub fn encode(e: &Expense, amount: &str) -> (line: String)
    ensures
        line@ == encode_spec(e@, amount@),
{
    proof {
        reveal_strlit(" ");
        reveal_strlit("|");
    }
    let mut line = String::new();
    push_i32(&mut line, e.id);
    line.append(" ");
    line.append(e.date.as_str());
    line.append(" ");
    line.append(e.description.as_str());
    line.append("|");
    line.append(amount);
    assert(line@ =~= encode_spec(e@, amount@));
    line
}

/// A line that was encoded decodes to the expense it was encoded from.
/// This holds of every expense whose date holds no white space and whose
/// description is trimmed, and of every text of an amount that holds no bar
/// and does not end in white space. The description may hold bars.
pub proof fn lemma_decode_encode(e: Entry, amount: Seq<char>)
    requires
        i32::MIN <= e.id <= i32::MAX,
        has_no_space(e.date),
        is_trimmed(e.description),
        !amount.contains('|'),
        amount.len() > 0 ==> !is_space(amount.last()),
    ensures
        split_fields(encode_spec(e, amount)) == Some(
            Tokens { id: int_text(e.id), date: e.date, description: e.description, amount },
        ),
        decode_spec(encode_spec(e, amount), Some(e.amount)) == Some(e),
{
    let id = int_text(e.id);
    let line = encode_spec(e, amount);
    let after_id = e.date + seq![' '] + e.description + seq!['|'] + amount;
    let rest = e.description + seq!['|'] + amount;
    lemma_int_text(e.id);
    assert(line.first() == id[0]);
    assert(is_digit(id[0]) || id[0] == '-');
    assert(line.last() == if amount.len() > 0 {
        amount.last()
    } else {
        '|'
    });
    assert(trim(line) == line);
    assert forall|k: int| 0 <= k < id.len() implies !is_space(line[k]) by {
        assert(line[k] == id[k]);
        assert(is_digit(id[k]) || id[k] == '-');
    }
    assert(line[id.len() as int] == ' ');
    lemma_space_position(line, 0, id.len() as int);
    assert(line.subrange(0, id.len() as int) =~= id);
    assert(line.subrange(id.len() as int + 1, line.len() as int) =~= after_id);
    assert forall|k: int| 0 <= k < e.date.len() implies !is_space(after_id[k]) by {
        assert(after_id[k] == e.date[k]);
    }
    assert(after_id[e.date.len() as int] == ' ');
    lemma_space_position(after_id, 0, e.date.len() as int);
    assert(after_id.subrange(0, e.date.len() as int) =~= e.date);
    assert(after_id.subrange(e.date.len() as int + 1, after_id.len() as int) =~= rest);
    let bar = e.description.len() as int;
    assert forall|k: int| bar < k < rest.len() implies rest[k] != '|' by {
        assert(rest[k] == amount[k - bar - 1]);
    }
    assert(rest[bar] == '|');
    lemma_last_position(rest, '|', rest.len() as int, bar);
    assert(rest.subrange(0, bar) =~= e.description);
    assert(rest.subrange(bar + 1, rest.len() as int) =~= amount);
    lemma_trim_trimmed(e.description);
}

/// The date of a line that has its fields holds no white space, and its
/// description is trimmed.
pub proof fn lemma_fields_are_tight(line: Seq<char>)
    requires
        split_fields(line) is Some,
    ensures
        has_no_space(split_fields(line)->0.date),
        is_trimmed(split_fields(line)->0.description),
{
    let after_id = split_space(trim(line)).unwrap().1;
    let date = split_space(after_id).unwrap().0;
    let rest = split_space(after_id).unwrap().1;
    lemma_space_position_first(after_id, 0);
    assert forall|k: int| 0 <= k < date.len() implies !is_space(#[trigger] date[k]) by {
        assert(date[k] == after_id[k]);
    }
    lemma_trim(split_last(rest, '|').unwrap().0);
}

/// An expense that was decoded from a line is one that its own line gives
/// back: encoded and decoded again, it is the same expense. This holds of
/// every text of an amount that holds no bar and does not end in white
/// space.
pub proof fn lemma_decoded_comes_back(line: Seq<char>, read: Option<u32>, amount: Seq<char>)
    requires
        decode_spec(line, read) is Some,
        !amount.contains('|'),
        amount.len() > 0 ==> !is_space(amount.last()),
    ensures
        decode_spec(encode_spec(decode_spec(line, read)->0, amount), read) == decode_spec(
            line,
            read,
        ),
{
    lemma_fields_are_tight(line);
    lemma_decode_encode(decode_spec(line, read)->0, amount);
}

} // verus!
