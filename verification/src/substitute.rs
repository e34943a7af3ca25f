//! Putting a value in place of the bound variable throughout a token tree.

use vstd::prelude::*;
use vstd::string::StringExecFns;
use crate::token::{Token, TokenModel, models, lemma_models_push};

verus! {

pub open spec fn is_tilde(t: TokenModel) -> bool {
    t matches TokenModel::Punct(c, _) && c == '~'
}

pub open spec fn is_ident(t: TokenModel) -> bool {
    t is Ident
}

/// The identifier at `i` is followed by `~` and the bound variable.
pub open spec fn prefix_at(ts: Seq<TokenModel>, i: int, target: Seq<char>) -> bool {
    i + 2 < ts.len() && is_tilde(ts[i + 1]) && ts[i + 2] == TokenModel::Ident(target)
}

/// Behind the three tokens of a prefix splice at `i` stand `~` and an identifier.
pub open spec fn suffix_at(ts: Seq<TokenModel>, i: int) -> bool {
    i + 4 < ts.len() && is_tilde(ts[i + 3]) && is_ident(ts[i + 4])
}

/// How many tokens the substitution consumes at position `i`: five for
/// `prefix~VAR~suffix`, three for `prefix~VAR`, one for anything else.
pub open spec fn step_len(ts: Seq<TokenModel>, i: int, target: Seq<char>) -> int {
    if is_ident(ts[i]) && prefix_at(ts, i, target) {
        if suffix_at(ts, i) {
            5
        } else {
            3
        }
    } else {
        1
    }
}

/// What stands in place of the identifier at `i` where the substitution
/// rewrites it. Meant for an `i` at which `rewritten_at` holds.
pub open spec fn rewritten_token(
    ts: Seq<TokenModel>,
    i: int,
    target: Seq<char>,
    digits: Seq<char>,
) -> TokenModel {
    let name = ts[i]->Ident_0;
    if prefix_at(ts, i, target) {
        if suffix_at(ts, i) {
            TokenModel::Ident(name + digits + ts[i + 4]->Ident_0)
        } else {
            TokenModel::Ident(name + digits)
        }
    } else {
        TokenModel::Literal(digits)
    }
}

/// An identifier stands at `i` that the substitution rewrites: the head of a
/// splice, or the bound variable itself.
pub open spec fn rewritten_at(ts: Seq<TokenModel>, i: int, target: Seq<char>) -> bool {
    &&& 0 <= i < ts.len()
    &&& ts[i] matches TokenModel::Ident(name)
    &&& (prefix_at(ts, i, target) || name == target)
}

/// The substitution of `digits` for `target` in `ts`, from position `i` on:
/// the token that position `i` gives, then the substitution from behind the
/// tokens that were used up for it. A group gives a group with the same
/// delimiter around the substitution of its content.
pub open spec fn substitute_from(
    ts: Seq<TokenModel>,
    i: int,
    target: Seq<char>,
    digits: Seq<char>,
) -> Seq<TokenModel>
    decreases ts, ts.len() - i,
{
    if i < 0 || i >= ts.len() {
        Seq::empty()
    } else {
        let head = match ts[i] {
            TokenModel::Group(d, inner) => TokenModel::Group(
                d,
                substitute_from(inner, 0, target, digits),
            ),
            _ => if rewritten_at(ts, i, target) {
                rewritten_token(ts, i, target, digits)
            } else {
                ts[i]
            },
        };
        seq![head] + substitute_from(ts, i + step_len(ts, i, target), target, digits)
    }
}

/// The substitution of `digits` for `target` in the whole of `ts`.
pub open spec fn substitute(ts: Seq<TokenModel>, target: Seq<char>, digits: Seq<char>) -> Seq<
    TokenModel,
> {
    substitute_from(ts, 0, target, digits)
}

fn is_tilde_at(content: &Vec<Token>, at: usize) -> (r: bool)
    ensures
        r == (at < content.len() && is_tilde(content@[at as int].model())),
{
    if at < content.len() {
        match &content[at] {
            Token::Punct(c, _) => *c == '~',
            _ => false,
        }
    } else {
        false
    }
}

fn is_target_at(content: &Vec<Token>, at: usize, target: &String) -> (r: bool)
    ensures
        r == (at < content.len() && content@[at as int].model() == TokenModel::Ident(target@)),
{
    if at < content.len() {
        match &content[at] {
            Token::Ident(name) => *name == *target,
            _ => false,
        }
    } else {
        false
    }
}

/// The name of the identifier at `at`, where one stands there.
fn ident_at(content: &Vec<Token>, at: usize) -> (r: Option<&String>)
    ensures
        r is Some == (at < content.len() && is_ident(content@[at as int].model())),
        r matches Some(name) ==> content@[at as int].model() == TokenModel::Ident(name@),
{
    if at < content.len() {
        match &content[at] {
            Token::Ident(name) => Some(name),
            _ => None,
        }
    } else {
        None
    }
}

/// Looks at the token at `at` in `content` and at up to four tokens behind
/// it. Where an identifier stands there that is the head of a splice or the
/// bound variable itself, the token that replaces it comes back, with the
/// number of tokens that it replaces: five for `prefix~VAR~suffix`, three for
/// `prefix~VAR`, one for the bare variable. Otherwise nothing comes back.
pub fn parse_ident(content: &Vec<Token>, at: usize, substitution: &String, target: &String) -> (r:
    Option<(Token, usize)>)
    ensures
        r is Some == rewritten_at(models(content@), at as int, target@),
        r matches Some((token, used)) ==> {
            &&& token.model() == rewritten_token(
                models(content@),
                at as int,
                target@,
                substitution@,
            )
            &&& used == step_len(models(content@), at as int, target@)
        },
{
    let ghost ts = models(content@);
    let ident = match ident_at(content, at) {
        Some(name) => name,
        None => {
            return None;
        },
    };
    if at >= usize::MAX - 4 {
        // A vector this long cannot hold a token behind `at + 4`.
        assert(!prefix_at(ts, at as int, target@) || !suffix_at(ts, at as int));
    }
    let is_prefix = at < usize::MAX - 2 && is_tilde_at(content, at + 1) && is_target_at(
        content,
        at + 2,
        target,
    );
    if is_prefix {
        let suffix = if at < usize::MAX - 4 && is_tilde_at(content, at + 3) {
            ident_at(content, at + 4)
        } else {
            None
        };
        let name = ident.clone().concat(substitution.as_str());
        match suffix {
            Some(suffix) => Some((Token::Ident(name.concat(suffix.as_str())), 5)),
            None => Some((Token::Ident(name), 3)),
        }
    } else if *ident == *target {
        Some((Token::Literal(substitution.clone()), 1))
    } else {
        None
    }
}

/// Puts `substitution` in place of `target` throughout `content`, gluing it
/// onto identifiers where `~` asks for it and descending into every group.
/// Everything else is copied as it stands.
pub fn substitute_target(content: &Vec<Token>, target: &String, substitution: &String) -> (out:
    Vec<Token>)
    ensures
        models(out@) == substitute(models(content@), target@, substitution@),
    decreases content,
{
    let ghost ts = models(content@);
    let mut out: Vec<Token> = Vec::new();
    let mut i: usize = 0;
    assert(models(out@) =~= Seq::<TokenModel>::empty());
    while i < content.len()
        invariant
            ts == models(content@),
            i <= content.len(),
            models(out@) + substitute_from(ts, i as int, target@, substitution@)
                == substitute_from(ts, 0, target@, substitution@),
        decreases content.len() - i,
    {
        let ghost before = models(out@);
        let ghost tail = substitute_from(ts, i as int, target@, substitution@);
        let ghost rest = substitute_from(
            ts,
            i + step_len(ts, i as int, target@),
            target@,
            substitution@,
        );
        let mut used: usize = 1;
        let token = match &content[i] {
            Token::Ident(_) => {
                match parse_ident(content, i, substitution, target) {
                    Some((token, n)) => {
                        used = n;
                        token
                    },
                    None => content[i].duplicate(),
                }
            },
            Token::Group(delimiter, inner) => {
                let stream = substitute_target(inner, target, substitution);
                Token::Group(*delimiter, stream)
            },
            _ => content[i].duplicate(),
        };
        proof {
            assert(tail.len() >= 1);
            assert(tail =~= tail.take(1) + rest);
            assert(seq![token.model()] =~= tail.take(1));
            lemma_models_push(out@, token);
            assert(before.push(token.model()) + rest =~= before + tail);
        }
        out.push(token);
        i += used;
    }
    assert(models(out@) =~= models(out@) + Seq::<TokenModel>::empty());
    out
}

/// A token that the substitution does not rewrite on its own account: a
/// literal, a punctuation mark, or an identifier that is neither the bound
/// variable nor the head of a splice.
pub open spec fn untouched_at(ts: Seq<TokenModel>, i: int, target: Seq<char>) -> bool {
    match ts[i] {
        TokenModel::Ident(name) => name != target && !prefix_at(ts, i, target),
        TokenModel::Group(_, _) => false,
        _ => true,
    }
}

/// Substitution copies a token that it has no reason to rewrite, and goes on
/// with the token behind it.
pub proof fn lemma_untouched_token_is_copied(
    ts: Seq<TokenModel>,
    i: int,
    target: Seq<char>,
    digits: Seq<char>,
)
    requires
        0 <= i < ts.len(),
        untouched_at(ts, i, target),
    ensures
        substitute_from(ts, i, target, digits) == seq![ts[i]] + substitute_from(
            ts,
            i + 1,
            target,
            digits,
        ),
{
}

/// Substitution turns a group into a group with the same delimiter whose
/// content is the substitution of the group's content, and goes on with the
/// token behind it.
pub proof fn lemma_group_keeps_its_delimiter(
    ts: Seq<TokenModel>,
    i: int,
    target: Seq<char>,
    digits: Seq<char>,
)
    requires
        0 <= i < ts.len(),
        ts[i] is Group,
    ensures
        substitute_from(ts, i, target, digits) == seq![
            TokenModel::Group(ts[i]->Group_0, substitute(ts[i]->Group_1, target, digits)),
        ] + substitute_from(ts, i + 1, target, digits),
{
}

/// How deep groups are nested in and under `t`: 0 for a token that is no group.
pub open spec fn token_depth(t: TokenModel) -> nat
    decreases t,
{
    match t {
        TokenModel::Group(_, inner) => 1 + depth(inner),
        _ => 0,
    }
}

/// How deep groups are nested in `ts`: 0 where no token is a group.
pub open spec fn depth(ts: Seq<TokenModel>) -> nat
    decreases ts,
{
    if ts.len() == 0 {
        0
    } else {
        let last = token_depth(ts.last());
        let before = depth(ts.drop_last());
        if last > before {
            last
        } else {
            before
        }
    }
}

proof fn lemma_depth_of_concat(a: Seq<TokenModel>, b: Seq<TokenModel>)
    ensures
        depth(a + b) == if depth(a) > depth(b) {
            depth(a)
        } else {
            depth(b)
        },
    decreases b.len(),
{
    if b.len() == 0 {
        assert(a + b =~= a);
    } else {
        assert((a + b).drop_last() =~= a + b.drop_last());
        assert((a + b).last() == b.last());
        lemma_depth_of_concat(a, b.drop_last());
    }
}

proof fn lemma_depth_of_one(t: TokenModel)
    ensures
        depth(seq![t]) == token_depth(t),
{
    let s = seq![t];
    assert(s.drop_last() =~= Seq::<TokenModel>::empty());
    assert(s.last() == t);
    assert(depth(s.drop_last()) == 0);
}

proof fn lemma_depth_without_groups(ts: Seq<TokenModel>)
    requires
        forall|k: int| 0 <= k < ts.len() ==> !(#[trigger] ts[k] is Group),
    ensures
        depth(ts) == 0,
    decreases ts.len(),
{
    if ts.len() > 0 {
        let before = ts.drop_last();
        assert forall|k: int| 0 <= k < before.len() implies !(#[trigger] before[k] is Group) by {
            assert(before[k] == ts[k]);
        }
        lemma_depth_without_groups(before);
        assert(!(ts[ts.len() - 1] is Group));
        assert(token_depth(ts.last()) == 0);
    }
}

proof fn lemma_depth_from(ts: Seq<TokenModel>, i: int, target: Seq<char>, digits: Seq<char>)
    requires
        0 <= i <= ts.len(),
    ensures
        depth(substitute_from(ts, i, target, digits)) == depth(ts.skip(i)),
    decreases ts, ts.len() - i,
{
    if i == ts.len() {
        assert(ts.skip(i) =~= Seq::<TokenModel>::empty());
    } else {
        let step = step_len(ts, i, target);
        let out = substitute_from(ts, i, target, digits);
        let rest = substitute_from(ts, i + step, target, digits);
        let head = out[0];
        assert(out =~= seq![head] + rest);
        lemma_depth_from(ts, i + step, target, digits);
        lemma_depth_of_concat(seq![head], rest);
        lemma_depth_of_one(head);
        let taken = ts.subrange(i, i + step);
        assert(ts.skip(i) =~= taken + ts.skip(i + step));
        lemma_depth_of_concat(taken, ts.skip(i + step));
        if step == 1 {
            assert(taken =~= seq![ts[i]]);
            lemma_depth_of_one(ts[i]);
            match ts[i] {
                TokenModel::Group(d, inner) => {
                    lemma_depth_from(inner, 0, target, digits);
                    assert(inner.skip(0) =~= inner);
                },
                _ => {},
            }
        } else {
            assert forall|k: int| 0 <= k < taken.len() implies !(#[trigger] taken[k] is Group) by {
                assert(taken[k] == ts[i + k]);
            }
            lemma_depth_without_groups(taken);
        }
    }
}

/// Substitution keeps the depth to which groups are nested.
pub proof fn lemma_substitute_keeps_depth(
    ts: Seq<TokenModel>,
    target: Seq<char>,
    digits: Seq<char>,
)
    ensures
        depth(substitute(ts, target, digits)) == depth(ts),
{
    lemma_depth_from(ts, 0, target, digits);
    assert(ts.skip(0) =~= ts);
}

/// The bound variable stands somewhere in `ts` from position `i` on, at any
/// depth.
pub open spec fn occurs_from(ts: Seq<TokenModel>, i: int, target: Seq<char>) -> bool
    decreases ts, ts.len() - i,
{
    if i < 0 || i >= ts.len() {
        false
    } else {
        let here = match ts[i] {
            TokenModel::Ident(name) => name == target,
            TokenModel::Group(_, inner) => occurs_from(inner, 0, target),
            _ => false,
        };
        here || occurs_from(ts, i + 1, target)
    }
}

/// The bound variable stands somewhere in `ts`, at any depth.
pub open spec fn occurs(ts: Seq<TokenModel>, target: Seq<char>) -> bool {
    occurs_from(ts, 0, target)
}

proof fn lemma_absent_at(ts: Seq<TokenModel>, i: int, j: int, target: Seq<char>)
    requires
        0 <= i <= j < ts.len(),
        !occurs_from(ts, i, target),
    ensures
        ts[j] != TokenModel::Ident(target),
        !occurs_from(ts, j, target),
    decreases j - i,
{
    if i < j {
        lemma_absent_at(ts, i + 1, j, target);
    }
}

proof fn lemma_absent_from(ts: Seq<TokenModel>, i: int, target: Seq<char>, digits: Seq<char>)
    requires
        0 <= i <= ts.len(),
        !occurs_from(ts, i, target),
    ensures
        substitute_from(ts, i, target, digits) == ts.skip(i),
    decreases ts, ts.len() - i,
{
    if i == ts.len() {
        assert(ts.skip(i) =~= Seq::<TokenModel>::empty());
    } else {
        if i + 2 < ts.len() {
            lemma_absent_at(ts, i, i + 2, target);
        }
        assert(!prefix_at(ts, i, target));
        assert(step_len(ts, i, target) == 1);
        lemma_absent_from(ts, i + 1, target, digits);
        match ts[i] {
            TokenModel::Group(d, inner) => {
                lemma_absent_from(inner, 0, target, digits);
                assert(inner.skip(0) =~= inner);
            },
            _ => {},
        }
        assert(seq![ts[i]] + ts.skip(i + 1) =~= ts.skip(i));
    }
}

/// Substitution leaves a body in which the bound variable does not occur
/// exactly as it is.
pub proof fn lemma_absent_variable_changes_nothing(
    ts: Seq<TokenModel>,
    target: Seq<char>,
    digits: Seq<char>,
)
    requires
        !occurs(ts, target),
    ensures
        substitute(ts, target, digits) == ts,
{
    lemma_absent_from(ts, 0, target, digits);
    assert(ts.skip(0) =~= ts);
}

} // verus!
