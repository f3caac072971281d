//! Text as sequences of characters: white space, trimming, and searching
//! for a separator.

use vstd::prelude::*;
use vstd::std_specs::iter::IteratorSpec;
use vstd::string::*;

verus! {

/// The code points that Unicode counts as white space.
pub open spec fn is_space(c: char) -> bool {
    let n = c as int;
    ||| 0x09 <= n <= 0x0D
    ||| n == 0x20
    ||| n == 0x85
    ||| n == 0xA0
    ||| n == 0x1680
    ||| 0x2000 <= n <= 0x200A
    ||| n == 0x2028
    ||| n == 0x2029
    ||| n == 0x202F
    ||| n == 0x205F
    ||| n == 0x3000
}

/// `s` without its leading white space.
pub open spec fn trim_start(s: Seq<char>) -> Seq<char>
    decreases s.len(),
{
    if s.len() > 0 && is_space(s.first()) {
        trim_start(s.drop_first())
    } else {
        s
    }
}

/// `s` without its trailing white space.
pub open spec fn trim_end(s: Seq<char>) -> Seq<char>
    decreases s.len(),
{
    if s.len() > 0 && is_space(s.last()) {
        trim_end(s.drop_last())
    } else {
        s
    }
}

/// `s` without the white space at either end.
pub open spec fn trim(s: Seq<char>) -> Seq<char> {
    trim_end(trim_start(s))
}

/// A text that trimming leaves as it is: empty, or with a first and a last
/// character that are no white space.
pub open spec fn is_trimmed(s: Seq<char>) -> bool {
    s.len() > 0 ==> !is_space(s.first()) && !is_space(s.last())
}

/// The index of the first `c` in `s` at or after `from`, or the length of
/// `s` where there is none.
pub open spec fn position<T>(s: Seq<T>, c: T, from: int) -> int
    decreases s.len() - from,
{
    if from < 0 || from >= s.len() {
        s.len() as int
    } else if s[from] == c {
        from
    } else {
        position(s, c, from + 1)
    }
}

/// The index of the last `c` among the first `end` characters of `s`, or
/// -1 where there is none.
pub open spec fn last_position(s: Seq<char>, c: char, end: int) -> int
    decreases end,
{
    if end <= 0 || end > s.len() {
        -1
    } else if s[end - 1] == c {
        end - 1
    } else {
        last_position(s, c, end - 1)
    }
}

/// The index of the first white-space character in `s` at or after `from`,
/// or the length of `s` where there is none.
pub open spec fn space_position(s: Seq<char>, from: int) -> int
    decreases s.len() - from,
{
    if from < 0 || from >= s.len() {
        s.len() as int
    } else if is_space(s[from]) {
        from
    } else {
        space_position(s, from + 1)
    }
}

/// `s` cut at its first white-space character: what stands before it and
/// what stands after. Each white-space character is a cut of its own, so
/// that what stands after may start with white space.
pub open spec fn split_space(s: Seq<char>) -> Option<(Seq<char>, Seq<char>)> {
    let i = space_position(s, 0);
    if i < s.len() {
        Some((s.subrange(0, i), s.subrange(i + 1, s.len() as int)))
    } else {
        None
    }
}

/// Whether `s` holds no white space.
pub open spec fn has_no_space(s: Seq<char>) -> bool {
    forall|i: int| 0 <= i < s.len() ==> !is_space(#[trigger] s[i])
}

/// `s` cut at its last `c`: what stands before it and what stands after.
pub open spec fn split_last(s: Seq<char>, c: char) -> Option<(Seq<char>, Seq<char>)> {
    let i = last_position(s, c, s.len() as int);
    if i >= 0 {
        Some((s.subrange(0, i), s.subrange(i + 1, s.len() as int)))
    } else {
        None
    }
}

/// Whether `c` is white space.
pub fn is_whitespace(c: char) -> (r: bool)
    ensures
        r == is_space(c),
{
    let n: u32 = c as u32;
    (0x09 <= n && n <= 0x0D) || n == 0x20 || n == 0x85 || n == 0xA0 || n == 0x1680 || (0x2000 <= n
        && n <= 0x200A) || n == 0x2028 || n == 0x2029 || n == 0x202F || n == 0x205F || n == 0x3000
}

/// The characters of `s`, one by one.
pub fn chars_of(s: &str) -> (v: Vec<char>)
    ensures
        v@ == s@,
{
    let mut v: Vec<char> = Vec::new();
    let mut it = s.chars();
    loop
        invariant
            v@ + it.remaining() == s@,
            it.obeys_prophetic_iter_laws(),
            it.decrease() is Some,
        decreases it.decrease()->0,
    {
        let ghost before = it;
        match it.next() {
            Some(c) => {
                proof {
                    broadcast use group_string_axioms;
                    assert(v@.push(c) + before.remaining().drop_first() =~= v@ + before.remaining());
                }
                v.push(c);
            },
            None => {
                proof {
                    broadcast use group_string_axioms;
                    assert(v@ + before.remaining() =~= v@);
                }
                return v;
            },
        }
    }
}

/// The part of `v` between `lo` and `hi`, trimmed: where it starts and
/// where it ends.
pub fn trim_range(v: &Vec<char>, lo: usize, hi: usize) -> (r: (usize, usize))
    requires
        lo <= hi <= v.len(),
    ensures
        lo <= r.0 <= r.1 <= hi,
        v@.subrange(r.0 as int, r.1 as int) == trim(v@.subrange(lo as int, hi as int)),
{
    let mut a: usize = lo;
    while a < hi && is_whitespace(v[a])
        invariant
            lo <= a <= hi <= v.len(),
            trim_start(v@.subrange(lo as int, hi as int)) == trim_start(
                v@.subrange(a as int, hi as int),
            ),
        decreases hi - a,
    {
        proof {
            assert(v@.subrange(a as int, hi as int).drop_first() =~= v@.subrange(
                a as int + 1,
                hi as int,
            ));
        }
        a += 1;
    }
    let mut b: usize = hi;
    while b > a && is_whitespace(v[b - 1])
        invariant
            a <= b <= hi <= v.len(),
            trim_end(v@.subrange(a as int, hi as int)) == trim_end(v@.subrange(a as int, b as int)),
        decreases b - a,
    {
        proof {
            assert(v@.subrange(a as int, b as int).drop_last() =~= v@.subrange(
                a as int,
                b as int - 1,
            ));
        }
        b -= 1;
    }
    (a, b)
}

/// Where the first white-space character stands in the part of `v` between
/// `lo` and `hi`.
pub fn find_space(v: &Vec<char>, lo: usize, hi: usize) -> (r: Option<usize>)
    requires
        lo <= hi <= v.len(),
    ensures
        match r {
            Some(i) => lo <= i < hi && space_position(v@.subrange(lo as int, hi as int), 0) == i
                - lo,
            None => space_position(v@.subrange(lo as int, hi as int), 0) == hi - lo,
        },
{
    let mut i: usize = lo;
    while i < hi && !is_whitespace(v[i])
        invariant
            lo <= i <= hi <= v.len(),
            forall|k: int| lo <= k < i ==> !is_space(v@[k]),
        decreases hi - i,
    {
        i += 1;
    }
    proof {
        lemma_space_position(v@.subrange(lo as int, hi as int), 0, i - lo);
    }
    if i < hi {
        Some(i)
    } else {
        None
    }
}

/// Where the last `c` stands in the part of `v` between `lo` and `hi`.
pub fn find_last(v: &Vec<char>, lo: usize, hi: usize, c: char) -> (r: Option<usize>)
    requires
        lo <= hi <= v.len(),
    ensures
        match r {
            Some(i) => lo <= i < hi && last_position(
                v@.subrange(lo as int, hi as int),
                c,
                hi - lo,
            ) == i - lo,
            None => last_position(v@.subrange(lo as int, hi as int), c, hi - lo) == -1,
        },
{
    let mut i: usize = hi;
    while i > lo && v[i - 1] != c
        invariant
            lo <= i <= hi <= v.len(),
            forall|k: int| i <= k < hi ==> v@[k] != c,
        decreases i - lo,
    {
        i -= 1;
    }
    proof {
        lemma_last_position(v@.subrange(lo as int, hi as int), c, hi - lo, i - lo - 1);
    }
    if i > lo {
        Some(i - 1)
    } else {
        None
    }
}

/// Where no `c` stands from `from` up to `i`, and one stands at `i` unless
/// `i` is the end of `s`, the first `c` at or after `from` is at `i`.
pub proof fn lemma_position<T>(s: Seq<T>, c: T, from: int, i: int)
    requires
        0 <= from <= i <= s.len(),
        forall|k: int| from <= k < i ==> s[k] != c,
        i < s.len() ==> s[i] == c,
    ensures
        position(s, c, from) == i,
    decreases i - from,
{
    if from < i {
        lemma_position(s, c, from + 1, i);
    }
}

/// Where no `c` stands after `i` and before `end`, and one stands at `i`
/// unless `i` is -1, the last `c` before `end` is at `i`.
pub proof fn lemma_last_position(s: Seq<char>, c: char, end: int, i: int)
    requires
        -1 <= i < end <= s.len(),
        forall|k: int| i < k < end ==> s[k] != c,
        i >= 0 ==> s[i] == c,
    ensures
        last_position(s, c, end) == i,
    decreases end - i,
{
    if i + 1 < end {
        lemma_last_position(s, c, end - 1, i);
    }
}

/// Where no white space stands from `from` up to `i`, and some stands at
/// `i` unless `i` is the end of `s`, the first white space at or after
/// `from` is at `i`.
pub proof fn lemma_space_position(s: Seq<char>, from: int, i: int)
    requires
        0 <= from <= i <= s.len(),
        forall|k: int| from <= k < i ==> !is_space(s[k]),
        i < s.len() ==> is_space(s[i]),
    ensures
        space_position(s, from) == i,
    decreases i - from,
{
    if from < i {
        lemma_space_position(s, from + 1, i);
    }
}

/// What `space_position` finds is the first white space at or after `from`,
/// if there is any.
pub proof fn lemma_space_position_first(s: Seq<char>, from: int)
    requires
        0 <= from <= s.len(),
    ensures
        from <= space_position(s, from) <= s.len(),
        space_position(s, from) < s.len() ==> is_space(s[space_position(s, from)]),
        forall|k: int| from <= k < space_position(s, from) ==> !is_space(s[k]),
    decreases s.len() - from,
{
    if from < s.len() && !is_space(s[from]) {
        lemma_space_position_first(s, from + 1);
    }
}

/// What `position` finds is the first `c` at or after `from`, if there is
/// one.
pub proof fn lemma_position_first<T>(s: Seq<T>, c: T, from: int)
    requires
        0 <= from <= s.len(),
    ensures
        from <= position(s, c, from) <= s.len(),
        position(s, c, from) < s.len() ==> s[position(s, c, from)] == c,
        forall|k: int| from <= k < position(s, c, from) ==> s[k] != c,
    decreases s.len() - from,
{
    if from < s.len() && s[from] != c {
        lemma_position_first(s, c, from + 1);
    }
}

/// A text that is trimmed already is what trimming it gives.
pub proof fn lemma_trim_trimmed(s: Seq<char>)
    requires
        is_trimmed(s),
    ensures
        trim(s) == s,
{
}

/// Trimming at the start leaves an end part of the text, which does not
/// start with white space.
pub proof fn lemma_trim_start(s: Seq<char>)
    ensures
        trim_start(s).len() <= s.len(),
        trim_start(s) == s.subrange(s.len() - trim_start(s).len(), s.len() as int),
        trim_start(s).len() > 0 ==> !is_space(trim_start(s).first()),
    decreases s.len(),
{
    if s.len() > 0 && is_space(s.first()) {
        let t = s.drop_first();
        lemma_trim_start(t);
        assert(t.subrange(t.len() - trim_start(t).len(), t.len() as int) =~= s.subrange(
            s.len() - trim_start(s).len(),
            s.len() as int,
        ));
    } else {
        assert(s.subrange(0, s.len() as int) =~= s);
    }
}

/// Trimming at the end leaves a front part of the text, which does not end
/// in white space.
pub proof fn lemma_trim_end(s: Seq<char>)
    ensures
        trim_end(s).len() <= s.len(),
        trim_end(s) == s.subrange(0, trim_end(s).len() as int),
        trim_end(s).len() > 0 ==> !is_space(trim_end(s).last()),
    decreases s.len(),
{
    if s.len() > 0 && is_space(s.last()) {
        let t = s.drop_last();
        lemma_trim_end(t);
        assert(t.subrange(0, trim_end(t).len() as int) =~= s.subrange(
            0,
            trim_end(s).len() as int,
        ));
    } else {
        assert(s.subrange(0, s.len() as int) =~= s);
    }
}

/// What trimming gives is trimmed, so that trimming it again changes
/// nothing.
pub proof fn lemma_trim(s: Seq<char>)
    ensures
        is_trimmed(trim(s)),
        trim(trim(s)) == trim(s),
{
    lemma_trim_start(s);
    lemma_trim_end(trim_start(s));
    lemma_trim_trimmed(trim(s));
}

} // verus!
