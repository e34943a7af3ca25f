//! The driver: reads an invocation and stamps out its body.

use vstd::prelude::*;
use crate::parse::{ParseError, Sequence, parsed};
use crate::range::{SequenceRange, decimal};
use crate::repeat::{
    concat_all,
    copies,
    expand_each,
    flat_expansion,
    is_repeat_group,
    has_repeat_group,
    has_repeat_section,
    repeat_expansion,
    repeat_section,
};
use crate::substitute::{occurs, substitute, lemma_absent_variable_changes_nothing};
use crate::token::{Delimiter, Token, TokenModel, models};

verus! {

/// What an invocation expands to. Where a token of the body itself is a
/// repeat section, only the repeat sections are stamped out; else the whole
/// body is, once per value.
pub open spec fn expansion(
    content: Seq<TokenModel>,
    target: Seq<char>,
    values: Seq<usize>,
) -> Seq<TokenModel> {
    if has_repeat_group(content) {
        repeat_expansion(content, target, values)
    } else {
        flat_expansion(content, target, values)
    }
}

impl Sequence {
    /// The tokens that this invocation expands to.
    pub fn expand(&self) -> (out: Vec<Token>)
        ensures
            models(out@) == expansion(models(self.content@), self.ident@, self.range.values()),
    {
        if has_repeat_section(&self.content) {
            repeat_section(&self.content, &self.ident, self.range)
        } else {
            expand_each(&self.content, &self.ident, self.range)
        }
    }
}

/// Reads the invocation `input` and expands it. An invocation that cannot be
/// read gives the reader's error and no tokens.
pub fn seq(input: &Vec<Token>) -> (r: Result<Vec<Token>, ParseError>)
    ensures
        match parsed(models(input@)) {
            Ok(invocation) => r is Ok && models(r->Ok_0@) == expansion(
                invocation.content,
                invocation.ident,
                invocation.range.values(),
            ),
            Err(error) => r == Err::<Vec<Token>, ParseError>(error),
        },
{
    match Sequence::parse(input) {
        Ok(invocation) => Ok(invocation.expand()),
        Err(error) => Err(error),
    }
}

/// Over the exclusive range from `start` to `end`, with `start` not above
/// `end`, there are exactly `end - start` copies of the body, the copy at
/// position `k` with `start + k` put in place of the variable; and a body
/// without a repeat section expands to those copies laid end to end.
pub proof fn lemma_exclusive_range_copies(
    content: Seq<TokenModel>,
    target: Seq<char>,
    start: usize,
    end: usize,
)
    requires
        start <= end,
    ensures
        ({
            let values = (SequenceRange::Exclusive { start, end }).values();
            let parts = copies(content, target, values);
            &&& parts.len() == end - start
            &&& forall|k: int|
                0 <= k < end - start ==> #[trigger] parts[k] == substitute(
                    content,
                    target,
                    decimal((start + k) as nat),
                )
            &&& !has_repeat_group(content) ==> expansion(content, target, values) == concat_all(
                parts,
            )
        }),
{
}

/// Over the inclusive range from `start` to `end`, with `start` not above
/// `end`, there are exactly `end - start + 1` copies of the body, the copy at
/// position `k` with `start + k` put in place of the variable; and a body
/// without a repeat section expands to those copies laid end to end.
pub proof fn lemma_inclusive_range_copies(
    content: Seq<TokenModel>,
    target: Seq<char>,
    start: usize,
    end: usize,
)
    requires
        start <= end,
    ensures
        ({
            let values = (SequenceRange::Inclusive { start, end, exhausted: false }).values();
            let parts = copies(content, target, values);
            &&& parts.len() == end - start + 1
            &&& forall|k: int|
                0 <= k <= end - start ==> #[trigger] parts[k] == substitute(
                    content,
                    target,
                    decimal((start + k) as nat),
                )
            &&& !has_repeat_group(content) ==> expansion(content, target, values) == concat_all(
                parts,
            )
        }),
{
}

/// Over the inclusive range from `start` to `start` there is exactly one
/// copy of the body, and a body without a repeat section expands to just
/// that copy: itself with `start` put in place of the variable.
pub proof fn lemma_single_value_gives_one_copy(
    content: Seq<TokenModel>,
    target: Seq<char>,
    start: usize,
)
    ensures
        ({
            let values = (SequenceRange::Inclusive { start, end: start, exhausted: false }).values();
            &&& copies(content, target, values).len() == 1
            &&& flat_expansion(content, target, values) == substitute(
                content,
                target,
                decimal(start as nat),
            )
            &&& !has_repeat_group(content) ==> expansion(content, target, values) == substitute(
                content,
                target,
                decimal(start as nat),
            )
        }),
{
    let values = (SequenceRange::Inclusive { start, end: start, exhausted: false }).values();
    let parts = copies(content, target, values);
    assert(parts.len() == 1);
    assert(parts.drop_last() =~= Seq::<Seq<TokenModel>>::empty());
    assert(concat_all(parts.drop_last()) =~= Seq::<TokenModel>::empty());
    assert(concat_all(parts) =~= parts.last());
}

/// Over the exclusive range from `start` to `start` there is no copy of the
/// body, and a body without a repeat section expands to no tokens at all.
pub proof fn lemma_empty_range_gives_nothing(
    content: Seq<TokenModel>,
    target: Seq<char>,
    start: usize,
)
    ensures
        ({
            let values = (SequenceRange::Exclusive { start, end: start }).values();
            &&& copies(content, target, values).len() == 0
            &&& flat_expansion(content, target, values) == Seq::<TokenModel>::empty()
            &&& !has_repeat_group(content) ==> expansion(content, target, values) == Seq::<
                TokenModel,
            >::empty()
        }),
{
}

/// Detection looks at the tokens of the body itself and at the first three
/// tokens of each group among them, and no deeper: where none of those
/// groups opens with the marker, the body has no repeat section and is
/// expanded flat, whatever lies further down.
pub proof fn lemma_detection_is_shallow(
    content: Seq<TokenModel>,
    target: Seq<char>,
    values: Seq<usize>,
)
    requires
        forall|i: int| 0 <= i < content.len() ==> !is_repeat_group(#[trigger] content[i]),
    ensures
        !has_repeat_group(content),
        expansion(content, target, values) == flat_expansion(content, target, values),
{
}

/// A repeat section that is wrapped in one more group is not detected.
pub proof fn lemma_wrapped_marker_is_not_detected(
    section: TokenModel,
    wrapper: Delimiter,
    target: Seq<char>,
    values: Seq<usize>,
)
    requires
        is_repeat_group(section),
    ensures
        ({
            let content = seq![TokenModel::Group(wrapper, seq![section])];
            &&& !has_repeat_group(content)
            &&& expansion(content, target, values) == flat_expansion(content, target, values)
        }),
{
    let content = seq![TokenModel::Group(wrapper, seq![section])];
    assert(!is_repeat_group(content[0]));
}

/// A body in which the variable does not occur and that has no repeat
/// section expands to one unchanged copy of itself per value of the range.
pub proof fn lemma_plain_body_is_repeated(
    content: Seq<TokenModel>,
    target: Seq<char>,
    values: Seq<usize>,
)
    requires
        !occurs(content, target),
        !has_repeat_group(content),
    ensures
        expansion(content, target, values) == concat_all(
            Seq::new(values.len(), |k: int| content),
        ),
{
    let parts = copies(content, target, values);
    let plain = Seq::new(values.len(), |k: int| content);
    assert forall|k: int| 0 <= k < values.len() implies parts[k] == plain[k] by {
        lemma_absent_variable_changes_nothing(content, target, decimal(values[k] as nat));
    }
    assert(parts =~= plain);
}

} // verus!
