//! The scanning step: mapping lexemes to tokens or scope directives.

use vstd::prelude::*;
use vstd::string::StrSliceExecFns;
use crate::function::{DataItem, Reducer, Token};
use crate::ops::{spec_op_of, Builtins};
use crate::tokenizer::Lexeme;

verus! {

/// A scope-control signal, distinct from tokens: open a new nested scope, or
/// close the innermost one.
pub enum Directive {
    Begin,
    End,
}

/// An error produced by the scanning stage.  It flows through the stack as an
/// ordinary datum and only becomes observable if something later tries to
/// apply a numeric operation to it.
pub enum ScanError {
    /// An identifier that names no built-in.
    Undefined(String),
    /// A numeric lexeme that is not a plain decimal `i64`; carries the
    /// offending text.
    CouldNotParseInteger(String),
}

/// Whether a character is an ASCII decimal digit.
pub open spec fn spec_is_digit(c: char) -> bool {
    48 <= c as u32 && c as u32 <= 57
}

/// The numeric value of one decimal digit.
pub open spec fn spec_digit_value(c: char) -> int {
    c as u32 - 48
}

/// Whether every character of a text is a decimal digit.
pub open spec fn spec_all_digits(s: Seq<char>) -> bool {
    forall|i: int| 0 <= i < s.len() ==> spec_is_digit(#[trigger] s[i])
}

/// The value of a text read as a decimal numeral, most significant digit
/// first.
pub open spec fn spec_decimal_value(s: Seq<char>) -> int
    decreases s.len(),
{
    if s.len() == 0 {
        0
    } else {
        spec_decimal_value(s.drop_last()) * 10 + spec_digit_value(s.last())
    }
}

/// What parsing a numeric lexeme yields: the value of a nonempty string of
/// plain decimal digits, provided it fits in an `i64`, and nothing otherwise
/// (in particular, a dot or any other character makes the lexeme
/// unparseable).
pub open spec fn spec_parse_i64(s: Seq<char>) -> Option<i64> {
    if s.len() > 0 && spec_all_digits(s) && spec_decimal_value(s) <= i64::MAX {
        Some(spec_decimal_value(s) as i64)
    } else {
        None
    }
}

/// A decimal numeral's value is never negative.
proof fn lemma_decimal_value_nonneg(s: Seq<char>)
    requires
        spec_all_digits(s),
    ensures
        spec_decimal_value(s) >= 0,
    decreases s.len(),
{
    if s.len() > 0 {
        assert(spec_all_digits(s.drop_last())) by {
            assert(forall|i: int|
                0 <= i < s.drop_last().len() ==> spec_is_digit(#[trigger] s.drop_last()[i]));
        }
        lemma_decimal_value_nonneg(s.drop_last());
    }
}

/// Extending a numeral on the right never shrinks its value.
proof fn lemma_decimal_prefix_le(s: Seq<char>, i: int)
    requires
        spec_all_digits(s),
        0 <= i <= s.len(),
    ensures
        spec_decimal_value(s.take(i)) <= spec_decimal_value(s),
    decreases s.len() - i,
{
    if i == s.len() {
        assert(s.take(i) =~= s);
    } else {
        assert(spec_all_digits(s.take(i))) by {
            assert(forall|j: int|
                0 <= j < s.take(i).len() ==> spec_is_digit(#[trigger] s.take(i)[j]));
        }
        lemma_decimal_value_nonneg(s.take(i));
        assert(s.take(i + 1).drop_last() =~= s.take(i));
        assert(s.take(i + 1).last() == s[i]);
        lemma_decimal_prefix_le(s, i + 1);
    }
}

/// Parse a nonempty string of decimal digits as an `i64`; any other text,
/// and any value past `i64::MAX`, yields `None`.
pub fn parse_decimal(s: &str) -> (r: Option<i64>)
    ensures
        r == spec_parse_i64(s@),
{
    let n = s.unicode_len();
    if n == 0 {
        return None;
    }
    let mut acc: i64 = 0;
    let mut i: usize = 0;
    while i < n
        invariant
            n == s@.len(),
            i <= n,
            spec_all_digits(s@.take(i as int)),
            acc >= 0,
            acc == spec_decimal_value(s@.take(i as int)),
        decreases n - i,
    {
        let c = s.get_char(i);
        let u = c as u32;
        if u < 48 || u > 57 {
            proof {
                assert(!spec_is_digit(s@[i as int]));
            }
            return None;
        }
        let d = (u - 48) as i64;
        let ghost pre = s@.take(i as int);
        proof {
            assert(s@.take(i + 1).drop_last() =~= pre);
            assert(s@.take(i + 1).last() == s@[i as int]);
            assert(spec_all_digits(s@.take(i + 1)));
        }
        let scaled = match acc.checked_mul(10) {
            Some(x) => x.checked_add(d),
            None => None,
        };
        match scaled {
            Some(v) => {
                acc = v;
            },
            None => {
                proof {
                    assert(spec_decimal_value(s@.take(i + 1)) > i64::MAX);
                    if spec_all_digits(s@) {
                        lemma_decimal_prefix_le(s@, i + 1);
                    }
                }
                return None;
            },
        }
        i = i + 1;
    }
    proof {
        assert(s@.take(n as int) =~= s@);
    }
    Some(acc)
}

/// How one lexeme is scanned: a lone `(` or `)` becomes a scope directive;
/// any other identifier becomes the built-in of that name, or an `Undefined`
/// error datum; a numeric lexeme becomes an integer datum, or a
/// `CouldNotParseInteger` error datum.  The error data carry the offending
/// text unchanged.
pub open spec fn spec_scan_event(lex: Lexeme, ev: Result<Token, Directive>) -> bool {
    match lex {
        Lexeme::Ident(s) => {
            if s@.len() == 1 && s@[0] == '(' {
                ev == Err::<Token, Directive>(Directive::Begin)
            } else if s@.len() == 1 && s@[0] == ')' {
                ev == Err::<Token, Directive>(Directive::End)
            } else if spec_op_of(s@) is Some {
                ev matches Ok(Token::Function(f)) && f.meta.name@ == s@ && f.reducer
                    == Reducer::Builtin(spec_op_of(s@)->Some_0)
            } else {
                ev matches Ok(
                    Token::Datum(DataItem::ScanError(ScanError::Undefined(u))),
                ) && u == s
            }
        },
        Lexeme::Numeric(s) => match spec_parse_i64(s@) {
            Some(v) => ev == Ok::<Token, Directive>(Token::Datum(DataItem::Integer(v))),
            None => ev matches Ok(
                Token::Datum(DataItem::ScanError(ScanError::CouldNotParseInteger(u))),
            ) && u == s,
        },
    }
}

/// Scan one lexeme into an event: a token ready to push, or a scope
/// directive.
fn scan_lexeme(lexeme: Lexeme) -> (r: Result<Token, Directive>)
    ensures
        spec_scan_event(lexeme, r),
{
    match lexeme {
        Lexeme::Ident(string) => {
            let single = string.as_str().unicode_len() == 1;
            if single && string.as_str().get_char(0) == '(' {
                Err(Directive::Begin)
            } else if single && string.as_str().get_char(0) == ')' {
                Err(Directive::End)
            } else {
                match Builtins::get(string.as_str()) {
                    Some(token) => Ok(token),
                    None => Ok(Token::Datum(DataItem::ScanError(ScanError::Undefined(string)))),
                }
            }
        },
        Lexeme::Numeric(string) => match parse_decimal(string.as_str()) {
            Some(v) => Ok(Token::Datum(DataItem::Integer(v))),
            None => Ok(
                Token::Datum(DataItem::ScanError(ScanError::CouldNotParseInteger(string))),
            ),
        },
    }
}

/// Map a sequence of lexemes to the corresponding sequence of events, in
/// order.
pub trait Processable {
    fn process(self) -> Vec<Result<Token, Directive>>;
}

impl Processable for Vec<Lexeme> {
    /// Scan each lexeme in turn; the events come out in input order, one per
    /// lexeme, each as `spec_scan_event` says.
    fn process(self) -> (r: Vec<Result<Token, Directive>>)
        ensures
            r@.len() == self@.len(),
            forall|i: int| 0 <= i < self@.len() ==> spec_scan_event(self@[i], #[trigger] r@[i]),
    {
        let ghost lexemes = self@;
        let mut remaining = self;
        let mut events: Vec<Result<Token, Directive>> = Vec::new();
        while remaining.len() > 0
            invariant
                events@.len() + remaining@.len() == lexemes.len(),
                remaining@ == lexemes.skip(events@.len() as int),
                forall|i: int|
                    0 <= i < events@.len() ==> spec_scan_event(lexemes[i], #[trigger] events@[i]),
            decreases remaining@.len(),
        {
            let ghost done = events@.len() as int;
            let lexeme = remaining.remove(0);
            proof {
                assert(lexeme == lexemes[done]);
                assert(remaining@ =~= lexemes.skip(done + 1));
            }
            let ev = scan_lexeme(lexeme);
            events.push(ev);
        }
        events
    }
}

} // verus!
