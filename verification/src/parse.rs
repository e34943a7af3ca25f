//! Reading an invocation: `VAR in START..END { body }`, or with `..=` for a
//! range that includes its end.

use vstd::prelude::*;
use vstd::string::StringExecFns;
use crate::range::SequenceRange;
use crate::token::{Delimiter, Spacing, Token, TokenModel, models, duplicate_all};

verus! {

/// What the reader looked for where it gave up.
#[derive(Clone, Copy, Debug, PartialEq, Eq, Structural)]
pub enum ErrorKind {
    /// The variable's name: an identifier that is no keyword.
    ExpectedIdentifier,
    /// The word `in`.
    ExpectedIn,
    /// An integer literal that fits the machine's word.
    ExpectedInteger,
    /// The two dots of a range.
    ExpectedRange,
    /// The body between braces.
    ExpectedBody,
    /// Nothing: tokens are left over behind the body.
    UnexpectedToken,
}

/// Why an invocation was not read, and at which token.
#[derive(Clone, Copy, Debug, PartialEq, Eq, Structural)]
pub struct ParseError {
    pub kind: ErrorKind,
    /// The position of the offending token; the input's length where the
    /// input ended too early.
    pub at: usize,
}

impl ErrorKind {
    /// The words that tell a user what was looked for.
    pub open spec fn text(self) -> Seq<char> {
        match self {
            ErrorKind::ExpectedIdentifier => "expected identifier"@,
            ErrorKind::ExpectedIn => "expected `in`"@,
            ErrorKind::ExpectedInteger => "expected integer literal"@,
            ErrorKind::ExpectedRange => "expected `..`"@,
            ErrorKind::ExpectedBody => "expected curly braces"@,
            ErrorKind::UnexpectedToken => "unexpected token"@,
        }
    }
}

impl ParseError {
    /// The message of the diagnostic for this error.
    pub fn message(&self) -> (r: String)
        ensures
            r@ == self.kind.text(),
    {
        match self.kind {
            ErrorKind::ExpectedIdentifier => String::from_str("expected identifier"),
            ErrorKind::ExpectedIn => String::from_str("expected `in`"),
            ErrorKind::ExpectedInteger => String::from_str("expected integer literal"),
            ErrorKind::ExpectedRange => String::from_str("expected `..`"),
            ErrorKind::ExpectedBody => String::from_str("expected curly braces"),
            ErrorKind::UnexpectedToken => String::from_str("unexpected token"),
        }
    }
}

/// An invocation as read: the bound variable, the range and the body.
#[derive(Debug, PartialEq, Eq)]
pub struct Sequence {
    pub ident: String,
    pub range: SequenceRange,
    pub content: Vec<Token>,
}

/// What a `Sequence` is, as a mathematical value.
pub struct SequenceModel {
    pub ident: Seq<char>,
    pub range: SequenceRange,
    pub content: Seq<TokenModel>,
}

/// Whether `syn` takes `name` for an identifier: its grammar of identifiers
/// without the reserved words.
pub uninterp spec fn accepted_identifier(name: Seq<char>) -> bool;

/// The value that `syn` reads from `text` as an integer literal, if it reads
/// one and the value fits 64 bits.
pub uninterp spec fn integer_literal_value(text: Seq<char>) -> Option<u64>;

/// Trusted: parses `name` with `syn::parse_str` as a `syn::Ident` and says
/// whether that succeeded. The contract only gives the answer its name.
#[verifier::external_body]
fn is_accepted_identifier(name: &str) -> (r: bool)
    ensures
        r == accepted_identifier(name@),
{
    syn::parse_str::<syn::Ident>(name).is_ok()
}

/// Trusted: parses `text` with `syn::parse_str` as a `syn::LitInt` and reads
/// its value with `LitInt::base10_parse`. The contract only gives the outcome
/// its name; a failure of either step is `None`.
#[verifier::external_body]
fn literal_value(text: &str) -> (r: Option<u64>)
    ensures
        r == integer_literal_value(text@),
{
    match syn::parse_str::<syn::LitInt>(text) {
        Ok(literal) => literal.base10_parse::<u64>().ok(),
        Err(_) => None,
    }
}

pub open spec fn is_mark(t: TokenModel, mark: char) -> bool {
    t matches TokenModel::Punct(c, _) && c == mark
}

pub open spec fn is_braced(t: TokenModel) -> bool {
    t matches TokenModel::Group(d, _) && d == Delimiter::Brace
}

/// The range of `ts` is written with `..=`.
pub open spec fn inclusive_in(ts: Seq<TokenModel>) -> bool {
    ts.len() > 5 && is_mark(ts[5], '=')
}

/// Where the upper bound stands in `ts`.
pub open spec fn end_index(ts: Seq<TokenModel>) -> int {
    if inclusive_in(ts) {
        6
    } else {
        5
    }
}

/// An integer literal stands at `i` whose value `value` fits the machine's word.
pub open spec fn bound_at(ts: Seq<TokenModel>, i: int, value: Option<u64>) -> bool {
    0 <= i < ts.len() && ts[i] is Literal && value is Some && value->0 <= usize::MAX
}

/// What reading `ts` gives, where `ident_ok` tells whether the first token's
/// name is accepted as a variable and `start` and `end` are the values read
/// from the literals at the two bounds.
pub open spec fn header(
    ts: Seq<TokenModel>,
    ident_ok: bool,
    start: Option<u64>,
    end: Option<u64>,
) -> Result<SequenceModel, ParseError> {
    let e = end_index(ts);
    if !(ts.len() > 0 && ts[0] is Ident && ident_ok) {
        Err(ParseError { kind: ErrorKind::ExpectedIdentifier, at: 0 })
    } else if !(ts.len() > 1 && ts[1] == TokenModel::Ident("in"@)) {
        Err(ParseError { kind: ErrorKind::ExpectedIn, at: 1 })
    } else if !bound_at(ts, 2, start) {
        Err(ParseError { kind: ErrorKind::ExpectedInteger, at: 2 })
    } else if !(ts.len() > 4 && ts[3] == TokenModel::Punct('.', Spacing::Joint) && is_mark(
        ts[4],
        '.',
    )) {
        Err(ParseError { kind: ErrorKind::ExpectedRange, at: 3 })
    } else if !bound_at(ts, e, end) {
        Err(ParseError { kind: ErrorKind::ExpectedInteger, at: e as usize })
    } else if !(ts.len() > e + 1 && is_braced(ts[e + 1])) {
        Err(ParseError { kind: ErrorKind::ExpectedBody, at: (e + 1) as usize })
    } else if ts.len() > e + 2 {
        Err(ParseError { kind: ErrorKind::UnexpectedToken, at: (e + 2) as usize })
    } else {
        Ok(
            SequenceModel {
                ident: ts[0]->Ident_0,
                range: if inclusive_in(ts) {
                    SequenceRange::Inclusive {
                        start: start->0 as usize,
                        end: end->0 as usize,
                        exhausted: false,
                    }
                } else {
                    SequenceRange::Exclusive { start: start->0 as usize, end: end->0 as usize }
                },
                content: ts[e + 1]->Group_1,
            },
        )
    }
}

/// The value of the literal at `i`, or nothing where no literal stands there.
pub open spec fn value_at(ts: Seq<TokenModel>, i: int) -> Option<u64> {
    if 0 <= i < ts.len() && ts[i] is Literal {
        integer_literal_value(ts[i]->Literal_0)
    } else {
        None
    }
}

/// What reading `ts` gives.
pub open spec fn parsed(ts: Seq<TokenModel>) -> Result<SequenceModel, ParseError> {
    header(
        ts,
        ts.len() > 0 && ts[0] is Ident && accepted_identifier(ts[0]->Ident_0),
        value_at(ts, 2),
        value_at(ts, end_index(ts)),
    )
}

/// `r` is the exec form of `expected`.
pub open spec fn reads_as(
    r: Result<Sequence, ParseError>,
    expected: Result<SequenceModel, ParseError>,
) -> bool {
    match r {
        Ok(sequence) => expected == Ok::<SequenceModel, ParseError>(sequence.model()),
        Err(error) => expected == Err::<SequenceModel, ParseError>(error),
    }
}

fn is_mark_at(input: &Vec<Token>, at: usize, mark: char) -> (r: bool)
    ensures
        r == (at < input.len() && is_mark(models(input@)[at as int], mark)),
{
    if at < input.len() {
        assert(models(input@)[at as int] == input@[at as int].model());
        match &input[at] {
            Token::Punct(c, _) => *c == mark,
            _ => false,
        }
    } else {
        false
    }
}

fn literal_at(input: &Vec<Token>, at: usize) -> (r: Option<u64>)
    ensures
        r == value_at(models(input@), at as int),
{
    if at < input.len() {
        assert(models(input@)[at as int] == input@[at as int].model());
        match &input[at] {
            Token::Literal(text) => literal_value(text.as_str()),
            _ => None,
        }
    } else {
        None
    }
}

fn fail(kind: ErrorKind, at: usize) -> (r: Result<Sequence, ParseError>)
    ensures
        r == Err::<Sequence, ParseError>(ParseError { kind, at }),
{
    Err(ParseError { kind, at })
}

/// The bound that stands at `at`, where `value` was read from it.
fn bound(input: &Vec<Token>, at: usize, value: Option<u64>) -> (r: Option<usize>)
    ensures
        r is Some == bound_at(models(input@), at as int, value),
        r is Some ==> r->0 == value->0,
{
    if at < input.len() {
        assert(models(input@)[at as int] == input@[at as int].model());
        match (&input[at], value) {
            (Token::Literal(_), Some(v)) => if v <= usize::MAX as u64 {
                Some(v as usize)
            } else {
                None
            },
            _ => None,
        }
    } else {
        None
    }
}

impl Sequence {
    pub open spec fn model(self) -> SequenceModel {
        SequenceModel { ident: self.ident@, range: self.range, content: models(self.content@) }
    }

    /// Reads an invocation from `input`, given what was found out about its
    /// three leaves: whether the first token's name is accepted as a variable,
    /// and the values of the literals at the lower and the upper bound.
    ///
    /// The tokens are taken in order: the variable, `in`, the lower bound, two
    /// dots of which the first is glued to the second, `=` where the range
    /// includes its end, the upper bound, the body in braces, and nothing
    /// more. The first token that does not fit is reported.
    pub fn parse_with(
        input: &Vec<Token>,
        ident_ok: bool,
        start: Option<u64>,
        end: Option<u64>,
    ) -> (r: Result<Sequence, ParseError>)
        ensures
            reads_as(r, header(models(input@), ident_ok, start, end)),
    {
        let ghost ts = models(input@);
        assert forall|k: int| 0 <= k < input.len() implies #[trigger] ts[k] == input@[k].model() by {}
        let n = input.len();
        if n == 0 || !ident_ok {
            return fail(ErrorKind::ExpectedIdentifier, 0);
        }
        let ident = match &input[0] {
            Token::Ident(name) => name.clone(),
            _ => {
                return fail(ErrorKind::ExpectedIdentifier, 0);
            },
        };
        if n <= 1 {
            return fail(ErrorKind::ExpectedIn, 1);
        }
        let keyword = String::from_str("in");
        let has_in = match &input[1] {
            Token::Ident(name) => *name == keyword,
            _ => false,
        };
        if !has_in {
            return fail(ErrorKind::ExpectedIn, 1);
        }
        let first = match bound(input, 2, start) {
            Some(v) => v,
            None => {
                return fail(ErrorKind::ExpectedInteger, 2);
            },
        };
        let glued = n > 3 && match &input[3] {
            Token::Punct(c, Spacing::Joint) => *c == '.',
            _ => false,
        };
        if !(glued && is_mark_at(input, 4, '.')) {
            return fail(ErrorKind::ExpectedRange, 3);
        }
        let inclusive = is_mark_at(input, 5, '=');
        let e: usize = if inclusive {
            6
        } else {
            5
        };
        let last = match bound(input, e, end) {
            Some(v) => v,
            None => {
                return fail(ErrorKind::ExpectedInteger, e);
            },
        };
        if n <= e + 1 {
            return fail(ErrorKind::ExpectedBody, e + 1);
        }
        let content = match &input[e + 1] {
            Token::Group(Delimiter::Brace, inner) => duplicate_all(inner),
            _ => {
                return fail(ErrorKind::ExpectedBody, e + 1);
            },
        };
        if n > e + 2 {
            return fail(ErrorKind::UnexpectedToken, e + 2);
        }
        Ok(Sequence { ident, range: SequenceRange::new(first, last, inclusive), content })
    }

    /// Reads an invocation from `input`: `VAR in START..END { body }`, or
    /// `..=END` for a range that includes its end.
    pub fn parse(input: &Vec<Token>) -> (r: Result<Sequence, ParseError>)
        ensures
            reads_as(r, parsed(models(input@))),
    {
        let ghost ts = models(input@);
        let ident_ok = if input.len() > 0 {
            assert(ts[0] == input@[0].model());
            match &input[0] {
                Token::Ident(name) => is_accepted_identifier(name.as_str()),
                _ => false,
            }
        } else {
            false
        };
        let start = literal_at(input, 2);
        let e: usize = if is_mark_at(input, 5, '=') {
            6
        } else {
            5
        };
        let end = literal_at(input, e);
        Sequence::parse_with(input, ident_ok, start, end)
    }
}

} // verus!
