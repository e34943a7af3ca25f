//! The integers that an invocation ranges over, and their decimal text.

use vstd::prelude::*;

verus! {

/// The character of one decimal digit.
pub open spec fn digit(d: nat) -> char {
    if d == 0 {
        '0'
    } else if d == 1 {
        '1'
    } else if d == 2 {
        '2'
    } else if d == 3 {
        '3'
    } else if d == 4 {
        '4'
    } else if d == 5 {
        '5'
    } else if d == 6 {
        '6'
    } else if d == 7 {
        '7'
    } else if d == 8 {
        '8'
    } else {
        '9'
    }
}

/// The decimal text of `n`: no sign, no leading zero, `"0"` for zero.
pub open spec fn decimal(n: nat) -> Seq<char>
    decreases n,
{
    if n < 10 {
        seq![digit(n)]
    } else {
        decimal(n / 10).push(digit(n % 10))
    }
}

/// The text of the unsuffixed integer literal for `value`.
///
/// Trusted: builds the literal with `proc_macro2::Literal::usize_unsuffixed`
/// and renders it with its `Display`. The contract claims that the text is
/// the plain decimal form of `value`.
#[verifier::external_body]
pub(crate) fn literal_text(value: usize) -> (text: String)
    ensures
        text@ == decimal(value as nat),
{
    proc_macro2::Literal::usize_unsuffixed(value).to_string()
}

/// The integers from `start` up to, not including, `end`, ascending.
pub open spec fn span(start: int, end: int) -> Seq<usize> {
    Seq::new(
        if end > start {
            (end - start) as nat
        } else {
            0
        },
        |k: int| (start + k) as usize,
    )
}

/// A range of integers with or without its upper end, and how far a walk
/// over it has come. It is a plain value: copy it to walk it again.
#[derive(Clone, Copy, Debug, PartialEq, Eq, Structural)]
pub enum SequenceRange {
    Exclusive { start: usize, end: usize },
    Inclusive { start: usize, end: usize, exhausted: bool },
}

impl SequenceRange {
    /// The values that a walk from here still yields, in order.
    pub open spec fn values(self) -> Seq<usize> {
        match self {
            SequenceRange::Exclusive { start, end } => span(start as int, end as int),
            SequenceRange::Inclusive { start, end, exhausted } => if exhausted {
                Seq::empty()
            } else {
                span(start as int, end + 1)
            },
        }
    }

    pub fn new(start: usize, end: usize, inclusive: bool) -> (r: Self)
        ensures
            inclusive ==> r == (SequenceRange::Inclusive { start, end, exhausted: false }),
            !inclusive ==> r == (SequenceRange::Exclusive { start, end }),
            r.values() == span(
                start as int,
                if inclusive {
                    end + 1
                } else {
                    end as int
                },
            ),
    {
        if inclusive {
            SequenceRange::Inclusive { start, end, exhausted: false }
        } else {
            SequenceRange::Exclusive { start, end }
        }
    }

    /// Takes the next value off the range, if one is left.
    pub fn next_value(&mut self) -> (r: Option<usize>)
        ensures
            old(self).values().len() == 0 ==> r.is_none() && final(self).values().len() == 0,
            old(self).values().len() > 0 ==> r == Some(old(self).values()[0]) && final(self).values() == old(self).values().skip(1),
    {
        match *self {
            SequenceRange::Exclusive { start, end } => {
                if start < end {
                    *self = SequenceRange::Exclusive { start: start + 1, end };
                    assert(final(self).values() =~= old(self).values().skip(1));
                    Some(start)
                } else {
                    None
                }
            },
            SequenceRange::Inclusive { start, end, exhausted } => {
                if exhausted || start > end {
                    None
                } else if start < end {
                    *self = SequenceRange::Inclusive { start: start + 1, end, exhausted };
                    assert(final(self).values() =~= old(self).values().skip(1));
                    Some(start)
                } else {
                    *self = SequenceRange::Inclusive { start, end, exhausted: true };
                    assert(final(self).values() =~= old(self).values().skip(1));
                    Some(start)
                }
            },
        }
    }

    /// Takes the next value off the range and hands it out as the text of a
    /// numeric literal.
    pub fn next(&mut self) -> (r: Option<String>)
        ensures
            old(self).values().len() == 0 ==> r.is_none() && final(self).values().len() == 0,
            old(self).values().len() > 0 ==> r.is_some() && r.unwrap()@ == decimal(
                old(self).values()[0] as nat,
            ) && final(self).values() == old(self).values().skip(1),
    {
        match self.next_value() {
            Some(v) => Some(literal_text(v)),
            None => None,
        }
    }
}

} // verus!
