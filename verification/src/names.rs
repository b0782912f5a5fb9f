//! Fresh names: one counter for the whole compilation, and the decimal rendering that
//! turns its value into text.

use vstd::prelude::*;
use vstd::string::*;
use crate::assoc::{assoc_find, assoc_get, assoc_put, lemma_find_is, lemma_get_put};

verus! {

/// The mathematical content of a name: its characters.
pub type Name = Seq<char>;

/// The character that writes the digit `d`, for `0 <= d <= 9`.
pub open spec fn digit_char(d: int) -> char {
    if d == 0 {
        '0'
    } else if d == 1 {
        '1'
    } else if d == 2 {
        '2'
    } else if d == 3 {
        '3'
    } else if d == 4 {
        '4'
    } else if d == 5 {
        '5'
    } else if d == 6 {
        '6'
    } else if d == 7 {
        '7'
    } else if d == 8 {
        '8'
    } else {
        '9'
    }
}

/// The decimal numeral of `n`, most significant digit first, without leading zeros.
pub open spec fn decimal(n: nat) -> Seq<char>
    decreases n,
{
    if n < 10 {
        seq![digit_char(n as int)]
    } else {
        decimal(n / 10).push(digit_char((n % 10) as int))
    }
}

/// The decimal numeral of an integer: a minus sign in front of a negative one.
pub open spec fn signed_decimal(n: int) -> Seq<char> {
    if n < 0 {
        seq!['-'] + decimal((-n) as nat)
    } else {
        decimal(n as nat)
    }
}

/// How many names a supply has handed out for each prefix, in the order in which the
/// prefixes were first used. A prefix that is missing has none.
pub type Counts = Seq<(Name, nat)>;

/// How many names were handed out for `prefix`.
#[verifier::opaque]
pub open spec fn count_of(counts: Counts, prefix: Name) -> nat {
    match assoc_get(counts, prefix) {
        Some(n) => n,
        None => 0,
    }
}

/// The next name for `prefix`: the prefix followed by its count plus one.
pub open spec fn fresh_name(prefix: Name, counts: Counts) -> Name {
    prefix + decimal(count_of(counts, prefix) + 1)
}

/// Whether no more name can be handed out for `prefix`.
pub open spec fn exhausted(counts: Counts, prefix: Name) -> bool {
    count_of(counts, prefix) >= u64::MAX
}

/// The counts after one more name for `prefix`: only the count of `prefix` advances.
#[verifier::opaque]
pub open spec fn bump(counts: Counts, prefix: Name) -> Counts {
    assoc_put(counts, prefix, count_of(counts, prefix) + 1)
}

/// What a count is after a name was handed out.
pub proof fn lemma_count_bump(counts: Counts, prefix: Name, other: Name)
    ensures
        count_of(bump(counts, prefix), other) == if other == prefix {
            count_of(counts, prefix) + 1
        } else {
            count_of(counts, other)
        },
{
    reveal(count_of);
    reveal(bump);
    lemma_get_put(counts, prefix, count_of(counts, prefix) + 1, other);
}

/// Nothing was handed out by a supply without counts.
pub proof fn lemma_count_empty(prefix: Name)
    ensures
        count_of(Seq::empty(), prefix) == 0,
{
    reveal(count_of);
    crate::assoc::lemma_find(Seq::<(Name, nat)>::empty(), prefix);
}

/// The one-character text of a single digit.
pub fn digit_str(d: u8) -> (s: &'static str)
    requires
        d < 10,
    ensures
        s@ == seq![digit_char(d as int)],
{
    proof {
        reveal_strlit("0");
        reveal_strlit("1");
        reveal_strlit("2");
        reveal_strlit("3");
        reveal_strlit("4");
        reveal_strlit("5");
        reveal_strlit("6");
        reveal_strlit("7");
        reveal_strlit("8");
        reveal_strlit("9");
    }
    let s = if d == 0 {
        "0"
    } else if d == 1 {
        "1"
    } else if d == 2 {
        "2"
    } else if d == 3 {
        "3"
    } else if d == 4 {
        "4"
    } else if d == 5 {
        "5"
    } else if d == 6 {
        "6"
    } else if d == 7 {
        "7"
    } else if d == 8 {
        "8"
    } else {
        "9"
    };
    assert(s@ =~= seq![digit_char(d as int)]);
    s
}

/// Appends the decimal numeral of `n` to `out`.
pub fn push_decimal(out: &mut String, n: u64)
    ensures
        final(out)@ == old(out)@ + decimal(n as nat),
    decreases n,
{
    if n >= 10 {
        push_decimal(out, n / 10);
    }
    let d: u8 = (n % 10) as u8;
    out.append(digit_str(d));
    assert(out@ =~= old(out)@ + decimal(n as nat));
}

/// Appends the decimal numeral of `n`, with its sign, to `out`.
pub fn push_signed_decimal(out: &mut String, n: i32)
    ensures
        final(out)@ == old(out)@ + signed_decimal(n as int),
{
    if n < 0 {
        proof {
            reveal_strlit("-");
        }
        out.append("-");
        let magnitude: u64 = (-(n as i64)) as u64;
        push_decimal(out, magnitude);
        assert(out@ =~= old(out)@ + signed_decimal(n as int));
    } else {
        push_decimal(out, n as u64);
    }
}

/// Whether a name is the given text.
pub fn is_name(name: &String, text: &str) -> (same: bool)
    ensures
        same == (name@ == text@),
{
    let other = String::from_str(text);
    *name == other
}

/// The source of fresh names. It keeps one count for each prefix; the next name for a
/// prefix is the prefix followed by its count plus one, so that no two names for one
/// prefix are the same.
#[derive(Debug)]
pub struct NameSupply {
    counts: Vec<(String, u64)>,
}

impl View for NameSupply {
    type V = Counts;

    closed spec fn view(&self) -> Counts {
        Seq::new(self.counts@.len(), |i: int| (self.counts@[i].0@, self.counts@[i].1 as nat))
    }
}

impl NameSupply {
    /// A supply that has handed out nothing yet: the first name for every prefix ends
    /// in `1`.
    pub fn new() -> (supply: NameSupply)
        ensures
            supply@ == Seq::<(Name, nat)>::empty(),
    {
        let supply = NameSupply { counts: Vec::new() };
        assert(supply@ =~= Seq::<(Name, nat)>::empty());
        supply
    }

    /// The place of `prefix` among the counts, or their number if it has none.
    fn find(&self, prefix: &String) -> (i: usize)
        ensures
            i == assoc_find(self@, prefix@),
            i <= self.counts@.len(),
            self@.len() == self.counts@.len(),
            i < self.counts@.len() ==> self.counts@[i as int].0@ == prefix@ && self.counts@[i as int].1
                == count_of(self@, prefix@),
            i == self.counts@.len() ==> count_of(self@, prefix@) == 0,
    {
        let mut i: usize = 0;
        while i < self.counts.len()
            invariant
                i <= self.counts@.len(),
                self@.len() == self.counts@.len(),
                forall|j: int| 0 <= j < i ==> (#[trigger] self@[j]).0 != prefix@,
            decreases self.counts.len() - i,
        {
            if self.counts[i].0 == *prefix {
                proof {
                    reveal(count_of);
                    lemma_find_is(self@, prefix@, i as int);
                }
                return i;
            }
            i = i + 1;
        }
        proof {
            reveal(count_of);
            lemma_find_is(self@, prefix@, i as int);
        }
        i
    }

    /// How many names have been handed out for `prefix`.
    pub fn count(&self, prefix: &str) -> (count: u64)
        ensures
            count == count_of(self@, prefix@),
    {
        let key = String::from_str(prefix);
        let i = self.find(&key);
        if i < self.counts.len() {
            self.counts[i].1
        } else {
            0
        }
    }

    /// Sets the count of `prefix`: its next name ends in `count + 1`.
    pub fn set_count(&mut self, prefix: &str, count: u64)
        ensures
            final(self)@ == assoc_put(old(self)@, prefix@, count as nat),
    {
        let key = String::from_str(prefix);
        let i = self.find(&key);
        if i < self.counts.len() {
            self.counts.set(i, (key, count));
        } else {
            self.counts.push((key, count));
        }
        assert(self@ =~= assoc_put(old(self)@, prefix@, count as nat));
    }

    /// Hands out the next name for `prefix`, or nothing when the count of the prefix
    /// has reached its limit. The counts of other prefixes stay.
    pub fn fresh(&mut self, prefix: &str) -> (name: Option<String>)
        ensures
            match name {
                Some(text) => {
                    &&& !exhausted(old(self)@, prefix@)
                    &&& text@ == fresh_name(prefix@, old(self)@)
                    &&& final(self)@ == bump(old(self)@, prefix@)
                },
                None => exhausted(old(self)@, prefix@) && final(self)@ == old(self)@,
            },
    {
        proof {
            reveal(bump);
        }
        let n = self.count(prefix);
        if n == u64::MAX {
            return None;
        }
        self.set_count(prefix, n + 1);
        let mut text = String::from_str(prefix);
        push_decimal(&mut text, n + 1);
        Some(text)
    }
}

} // verus!
