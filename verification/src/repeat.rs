//! Repeat sections: groups of the body that are stamped out once per value
//! while the tokens around them are kept as they stand.

use vstd::prelude::*;
use crate::range::{SequenceRange, decimal};
use crate::substitute::{substitute, substitute_target};
use crate::token::{Delimiter, Token, TokenModel, models, lemma_models_add};

verus! {

/// A group whose first three tokens are `#`, a parenthesized group and `*`.
pub open spec fn is_repeat_group(t: TokenModel) -> bool {
    &&& t matches TokenModel::Group(_, inner)
    &&& inner.len() >= 3
    &&& inner[0] matches TokenModel::Punct(left, _)
    &&& left == '#'
    &&& inner[1] matches TokenModel::Group(delimiter, _)
    &&& delimiter == Delimiter::Parenthesis
    &&& inner[2] matches TokenModel::Punct(right, _)
    &&& right == '*'
}

/// The tokens between the parentheses of a repeat group.
pub open spec fn repeated_body(t: TokenModel) -> Seq<TokenModel>
    recommends
        is_repeat_group(t),
{
    t->Group_1[1]->Group_1
}

/// Some token of `ts` itself, not of a group inside it, is a repeat group.
pub open spec fn has_repeat_group(ts: Seq<TokenModel>) -> bool {
    exists|i: int| 0 <= i < ts.len() && is_repeat_group(#[trigger] ts[i])
}

/// The parts laid end to end, first part first.
pub open spec fn concat_all(parts: Seq<Seq<TokenModel>>) -> Seq<TokenModel>
    decreases parts.len(),
{
    if parts.len() == 0 {
        Seq::empty()
    } else {
        concat_all(parts.drop_last()) + parts.last()
    }
}

/// One copy of `body` per value, in the order of `values`, with the value's
/// decimal text put in place of `target`.
pub open spec fn copies(body: Seq<TokenModel>, target: Seq<char>, values: Seq<usize>) -> Seq<
    Seq<TokenModel>,
> {
    Seq::new(values.len(), |k: int| substitute(body, target, decimal(values[k] as nat)))
}

/// The copies of `body` for `values`, laid end to end.
pub open spec fn flat_expansion(
    body: Seq<TokenModel>,
    target: Seq<char>,
    values: Seq<usize>,
) -> Seq<TokenModel> {
    concat_all(copies(body, target, values))
}

/// What a token of the body becomes in repeat-section mode: a repeat group
/// keeps its own delimiter and holds the copies of its parenthesized part;
/// any other token stays as it is.
pub open spec fn repeat_token(t: TokenModel, target: Seq<char>, values: Seq<usize>) -> TokenModel {
    if is_repeat_group(t) {
        TokenModel::Group(t->Group_0, flat_expansion(repeated_body(t), target, values))
    } else {
        t
    }
}

/// The body in repeat-section mode, token by token.
pub open spec fn repeat_expansion(
    ts: Seq<TokenModel>,
    target: Seq<char>,
    values: Seq<usize>,
) -> Seq<TokenModel> {
    Seq::new(ts.len(), |i: int| repeat_token(ts[i], target, values))
}

fn is_punct(token: &Token, mark: char) -> (r: bool)
    ensures
        r == (token.model() matches TokenModel::Punct(c, _) && c == mark),
{
    match token {
        Token::Punct(c, _) => *c == mark,
        _ => false,
    }
}

/// The delimiter of `group` and the tokens between the parentheses of its
/// marker, where `group` is a repeat section.
fn repeated_part(group: &Token) -> (r: Option<(Delimiter, &Vec<Token>)>)
    ensures
        r is Some == is_repeat_group(group.model()),
        r matches Some((delimiter, body)) ==> {
            &&& delimiter == group.model()->Group_0
            &&& models(body@) == repeated_body(group.model())
        },
{
    match group {
        Token::Group(delimiter, inner) => {
            if inner.len() < 3 {
                None
            } else {
                proof {
                    let ms = models(inner@);
                    assert(ms[0] == inner@[0].model());
                    assert(ms[1] == inner@[1].model());
                    assert(ms[2] == inner@[2].model());
                }
                match &inner[1] {
                    Token::Group(Delimiter::Parenthesis, body) => {
                        if is_punct(&inner[0], '#') && is_punct(&inner[2], '*') {
                            Some((*delimiter, body))
                        } else {
                            None
                        }
                    },
                    _ => None,
                }
            }
        },
        _ => None,
    }
}

/// Whether `group` is a group that opens with `#`, a parenthesized group and `*`.
pub fn is_repeat_section(group: &Token) -> (r: bool)
    ensures
        r == is_repeat_group(group.model()),
{
    repeated_part(group).is_some()
}

/// Whether a token of `content` itself is a repeat section. Groups are not
/// entered: a marker that lies deeper is not seen.
pub fn has_repeat_section(content: &Vec<Token>) -> (r: bool)
    ensures
        r == has_repeat_group(models(content@)),
{
    let mut i: usize = 0;
    while i < content.len()
        invariant
            i <= content.len(),
            forall|k: int| 0 <= k < i ==> !is_repeat_group(#[trigger] models(content@)[k]),
        decreases content.len() - i,
    {
        if is_repeat_section(&content[i]) {
            assert(is_repeat_group(models(content@)[i as int]));
            return true;
        }
        i += 1;
    }
    false
}

/// One copy of `body` for each value that is left in `range`, in order, each
/// with that value put in place of `target`, all laid end to end.
pub fn expand_each(body: &Vec<Token>, target: &String, range: SequenceRange) -> (out: Vec<Token>)
    ensures
        models(out@) == flat_expansion(models(body@), target@, range.values()),
{
    let ghost values = range.values();
    let ghost ts = models(body@);
    let mut rest = range;
    let mut out: Vec<Token> = Vec::new();
    let ghost mut n: int = 0;
    assert(models(out@) =~= Seq::<TokenModel>::empty());
    assert(values.take(0) =~= Seq::<usize>::empty());
    assert(values.skip(0) =~= values);
    loop
        invariant
            ts == models(body@),
            values == range.values(),
            0 <= n <= values.len(),
            rest.values() == values.skip(n),
            models(out@) == flat_expansion(ts, target@, values.take(n)),
        ensures
            models(out@) == flat_expansion(ts, target@, values),
        decreases values.len() - n,
    {
        match rest.next() {
            Some(substitution) => {
                let mut part = substitute_target(body, target, &substitution);
                proof {
                    lemma_models_add(out@, part@);
                    let before = copies(ts, target@, values.take(n));
                    let after = copies(ts, target@, values.take(n + 1));
                    assert(values.skip(n)[0] == values[n]);
                    assert(after.drop_last() =~= before);
                    assert(after.last() == models(part@));
                    assert(values.skip(n).skip(1) =~= values.skip(n + 1));
                    n = n + 1;
                }
                out.append(&mut part);
            },
            None => {
                assert(values.take(n) =~= values);
                break ;
            },
        }
    }
    out
}

/// The body in repeat-section mode: each repeat section among the tokens of
/// `content` gives way to a group with the same delimiter that holds one copy
/// of the section's parenthesized part per value of `literals`; every other
/// token is copied once, with nothing put in place of anything.
pub fn repeat_section(content: &Vec<Token>, target: &String, literals: SequenceRange) -> (out:
    Vec<Token>)
    ensures
        models(out@) == repeat_expansion(models(content@), target@, literals.values()),
{
    let mut out: Vec<Token> = Vec::new();
    let mut i: usize = 0;
    while i < content.len()
        invariant
            i <= content.len(),
            out.len() == i,
            forall|k: int|
                0 <= k < i ==> out@[k].model() == repeat_token(
                    content@[k].model(),
                    target@,
                    literals.values(),
                ),
        decreases content.len() - i,
    {
        let token = match repeated_part(&content[i]) {
            Some((delimiter, body)) => Token::Group(
                delimiter,
                expand_each(body, target, literals),
            ),
            None => content[i].duplicate(),
        };
        out.push(token);
        i += 1;
    }
    assert(models(out@) =~= repeat_expansion(models(content@), target@, literals.values()));
    out
}

} // verus!
