//! The token tree that the engine reads and writes, and its mathematical model.

use vstd::prelude::*;

verus! {

/// The bracket pair that encloses a group.
#[derive(Clone, Copy, Debug, PartialEq, Eq, Structural)]
pub enum Delimiter {
    Parenthesis,
    Brace,
    Bracket,
    /// A group without visible brackets.
    Invisible,
}

/// Whether a punctuation mark is glued to the mark that follows it.
#[derive(Clone, Copy, Debug, PartialEq, Eq, Structural)]
pub enum Spacing {
    Alone,
    Joint,
}

/// One node of a token tree. Identifiers and literals carry their text as it
/// is written in source.
#[derive(Debug, PartialEq, Eq)]
pub enum Token {
    Ident(String),
    Literal(String),
    Punct(char, Spacing),
    Group(Delimiter, Vec<Token>),
}

/// What a `Token` is, as a mathematical value.
pub enum TokenModel {
    Ident(Seq<char>),
    Literal(Seq<char>),
    Punct(char, Spacing),
    Group(Delimiter, Seq<TokenModel>),
}

/// The models of a sequence of tokens, position by position.
pub open spec fn models(ts: Seq<Token>) -> Seq<TokenModel>
    decreases ts,
{
    Seq::new(
        ts.len(),
        |i: int|
            if 0 <= i < ts.len() {
                ts[i].model()
            } else {
                TokenModel::Punct(' ', Spacing::Alone)
            },
    )
}

impl Token {
    pub open spec fn model(self) -> TokenModel
        decreases self,
    {
        match self {
            Token::Ident(s) => TokenModel::Ident(s@),
            Token::Literal(s) => TokenModel::Literal(s@),
            Token::Punct(c, sp) => TokenModel::Punct(c, sp),
            Token::Group(d, ts) => TokenModel::Group(d, models(ts@)),
        }
    }

    /// A deep copy of the token.
    pub fn duplicate(&self) -> (r: Token)
        ensures
            r.model() == self.model(),
        decreases self,
    {
        match self {
            Token::Ident(s) => Token::Ident(s.clone()),
            Token::Literal(s) => Token::Literal(s.clone()),
            Token::Punct(c, sp) => Token::Punct(*c, *sp),
            Token::Group(d, ts) => {
                let mut out: Vec<Token> = Vec::new();
                let mut i: usize = 0;
                while i < ts.len()
                    invariant
                        *self matches Token::Group(_, inner) && inner == *ts,
                        i <= ts.len(),
                        out.len() == i,
                        forall|k: int| 0 <= k < i ==> out@[k].model() == ts@[k].model(),
                    decreases ts.len() - i,
                {
                    let t = ts[i].duplicate();
                    out.push(t);
                    i += 1;
                }
                assert(models(out@) =~= models(ts@));
                Token::Group(*d, out)
            },
        }
    }
}

impl Clone for Token {
    fn clone(&self) -> (r: Token)
        ensures
            r.model() == self.model(),
    {
        self.duplicate()
    }
}

impl View for Token {
    type V = TokenModel;

    open spec fn view(&self) -> TokenModel {
        self.model()
    }
}

/// A deep copy of a sequence of tokens.
pub fn duplicate_all(ts: &Vec<Token>) -> (out: Vec<Token>)
    ensures
        models(out@) == models(ts@),
{
    let mut out: Vec<Token> = Vec::new();
    let mut i: usize = 0;
    while i < ts.len()
        invariant
            i <= ts.len(),
            out.len() == i,
            forall|k: int| 0 <= k < i ==> out@[k].model() == ts@[k].model(),
        decreases ts.len() - i,
    {
        let t = ts[i].duplicate();
        out.push(t);
        i += 1;
    }
    assert(models(out@) =~= models(ts@));
    out
}

/// Appending one token appends its model.
pub proof fn lemma_models_push(ts: Seq<Token>, t: Token)
    ensures
        models(ts.push(t)) == models(ts).push(t.model()),
{
    assert(models(ts.push(t)) =~= models(ts).push(t.model()));
}

/// The models of a concatenation are the concatenation of the models.
pub proof fn lemma_models_add(a: Seq<Token>, b: Seq<Token>)
    ensures
        models(a + b) == models(a) + models(b),
{
    assert(models(a + b) =~= models(a) + models(b));
}

} // verus!
