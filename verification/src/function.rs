//! The token model: the value/callable union and the binary `apply` operation.

use vstd::prelude::*;
use vstd::string::StringExecFns;
use crate::scanner::ScanError;

verus! {

/// The arithmetic operation a built-in callable performs once it has both
/// of its integer arguments.
#[derive(Clone, Copy, PartialEq, Eq, Structural)]
pub enum Op {
    Add,
    Sub,
    Mul,
    Div,
}

/// The reducer of a callable: a bare two-argument built-in, or a curried
/// stage that has already captured its first integer argument and waits
/// for the second.
#[derive(Clone, Copy, PartialEq, Eq, Structural)]
pub enum Reducer {
    Builtin(Op),
    Partial(Op, i64),
}

/// Diagnostic metadata carried by a callable.
pub struct FunctionMetadata {
    pub name: String,
}

impl Default for FunctionMetadata {
    /// The default name is an "unnamed" sentinel.
    fn default() -> (r: Self)
        ensures
            r.name@ == "<unnamed>"@,
    {
        FunctionMetadata { name: String::from_str("<unnamed>") }
    }
}

/// An immutable curried callable wrapping a native binary reducer.
pub struct Function {
    pub meta: FunctionMetadata,
    pub reducer: Reducer,
}

/// The universal currency of the evaluator: a callable, or a plain datum.
pub enum Token {
    Function(Function),
    Datum(DataItem),
}

/// The non-callable variant of `Token`: an integer, an error produced by the
/// scanning stage that flows through the stack like any other datum, or a
/// compound pair meaning "two independent tokens, stack each separately".
pub enum DataItem {
    Integer(i64),
    ScanError(ScanError),
    Pair(Box<(Token, Token)>),
}

/// What a built-in operation yields on two integers, or `None` where the
/// mathematical result does not fit in an `i64` (or a division by zero).
pub open spec fn spec_op_result(op: Op, a: i64, b: i64) -> Option<i64> {
    match op {
        Op::Add => a.checked_add(b),
        Op::Sub => a.checked_sub(b),
        Op::Mul => a.checked_mul(b),
        Op::Div => a.checked_div(b),
    }
}

/// What a reducer yields on one argument token: a curried stage on the first
/// integer, the finished datum on the second, and a failure handing both
/// operands back unchanged on any argument of the wrong shape.  An arithmetic
/// result that does not fit in an `i64` (or a division by zero) is also a
/// failure, not a panic.
pub open spec fn spec_reduce(f: Function, arg: Token) -> Result<Token, (Token, Token)> {
    match arg {
        Token::Datum(DataItem::Integer(n)) => match f.reducer {
            Reducer::Builtin(op) => Ok(
                Token::Function(Function { meta: f.meta, reducer: Reducer::Partial(op, n) }),
            ),
            Reducer::Partial(op, a) => match spec_op_result(op, a, n) {
                Some(v) => Ok(Token::Datum(DataItem::Integer(v))),
                None => Err((Token::Function(f), arg)),
            },
        },
        _ => Err((Token::Function(f), arg)),
    }
}

/// The application protocol, in priority order: a callable on the left
/// invokes its reducer; two data fail with both operands unchanged; a datum
/// applied to a callable commutes the roles, so whichever operand is callable
/// acts as the applier.
pub open spec fn spec_apply(lhs: Token, rhs: Token) -> Result<Token, (Token, Token)> {
    match lhs {
        Token::Function(f) => spec_reduce(f, rhs),
        Token::Datum(_) => match rhs {
            Token::Function(g) => spec_reduce(g, lhs),
            Token::Datum(_) => Err((lhs, rhs)),
        },
    }
}

/// Whether a token is a compound pair.
pub open spec fn spec_is_pair(t: Token) -> bool {
    t matches Token::Datum(DataItem::Pair(_))
}

impl Function {
    /// Build a callable from a reducer and explicit metadata.
    pub fn with_metadata(f: Reducer, meta: FunctionMetadata) -> (r: Self)
        ensures
            r.reducer == f,
            r.meta == meta,
    {
        Function { meta, reducer: f }
    }

    /// Build a callable from a reducer alone, under the default name.
    pub fn from_fn(f: Reducer) -> (r: Self)
        ensures
            r.reducer == f,
            r.meta.name@ == "<unnamed>"@,
    {
        Function { meta: FunctionMetadata::default(), reducer: f }
    }

    /// Run this callable's reducer on one argument token.
    pub fn reduce(self, arg: Token) -> (r: Result<Token, (Token, Token)>)
        ensures
            r == spec_reduce(self, arg),
    {
        match arg {
            Token::Datum(DataItem::Integer(n)) => match self.reducer {
                Reducer::Builtin(op) => Ok(
                    Token::Function(Function { meta: self.meta, reducer: Reducer::Partial(op, n) }),
                ),
                Reducer::Partial(op, a) => {
                    let computed: Option<i64> = match op {
                        Op::Add => a.checked_add(n),
                        Op::Sub => a.checked_sub(n),
                        Op::Mul => a.checked_mul(n),
                        Op::Div => a.checked_div(n),
                    };
                    match computed {
                        Some(v) => Ok(Token::Datum(DataItem::Integer(v))),
                        None => Err((Token::Function(self), Token::Datum(DataItem::Integer(n)))),
                    }
                },
            },
            other => Err((Token::Function(self), other)),
        }
    }
}

impl Token {
    /// Apply one token to another.  The operation is pure and total: every
    /// input pair yields a deterministic `Ok` or `Err` (pinned by
    /// `spec_apply`), never panics, and on failure retains both operands.
    pub fn apply(self, rhs: Token) -> (r: Result<Token, (Token, Token)>)
        ensures
            r == spec_apply(self, rhs),
    {
        match self {
            Token::Function(f) => f.reduce(rhs),
            Token::Datum(d) => match rhs {
                Token::Function(g) => g.reduce(Token::Datum(d)),
                Token::Datum(d2) => Err((Token::Datum(d), Token::Datum(d2))),
            },
        }
    }
}

/// Law: application is deterministic.  Any two results of applying the same
/// two tokens are equal, since `apply` is pinned to the pure function
/// `spec_apply` of its operands alone.
pub proof fn lemma_apply_deterministic(
    a: Token,
    b: Token,
    r1: Result<Token, (Token, Token)>,
    r2: Result<Token, (Token, Token)>,
)
    requires
        r1 == spec_apply(a, b),
        r2 == spec_apply(a, b),
    ensures
        r1 == r2,
{
}

/// Law: a failed application conserves its operands.  Whenever the left
/// operand is the applier (it is a callable, or both operands are data), the
/// failure pair is exactly `(a, b)`.  The one exclusion is the commuted case
/// (a datum applied to a callable), where the callable acts as the applier
/// and a failure hands the operands back as `(b, a)`; see
/// `lemma_apply_operands_preserved` for the statement that covers it.
pub proof fn lemma_apply_conservation(a: Token, b: Token)
    requires
        !(a is Datum && b is Function),
    ensures
        spec_apply(a, b) is Err ==> spec_apply(a, b)->Err_0 == (a, b),
{
}

/// Law: a failed application never mutates, drops or duplicates a token.
/// The failure pair is the two operands themselves, in operand order or, in
/// the commuted case, swapped.
pub proof fn lemma_apply_operands_preserved(a: Token, b: Token)
    ensures
        spec_apply(a, b) is Err ==> {
            let p = spec_apply(a, b)->Err_0;
            p == (a, b) || p == (b, a)
        },
{
}

/// Law: a successful application never yields a compound pair, since every
/// reducer returns either a curried stage or a plain integer datum.
pub proof fn lemma_apply_result_not_pair(a: Token, b: Token)
    ensures
        spec_apply(a, b) is Ok ==> !spec_is_pair(spec_apply(a, b)->Ok_0),
{
}

/// Law: currying arity.  Applying a bare two-argument built-in to an integer
/// always yields a callable (never a datum); applying that curried stage to a
/// second integer yields an integer datum whenever the arithmetic result is
/// representable.
pub proof fn lemma_currying_arity(f: Function, n: i64, m: i64)
    requires
        f.reducer is Builtin,
    ensures
        ({
            let first = spec_apply(Token::Function(f), Token::Datum(DataItem::Integer(n)));
            &&& first is Ok
            &&& first->Ok_0 is Function
            &&& spec_op_result(f.reducer->Builtin_0, n, m) matches Some(v) ==> spec_apply(
                first->Ok_0,
                Token::Datum(DataItem::Integer(m)),
            ) == Ok::<Token, (Token, Token)>(Token::Datum(DataItem::Integer(v)))
        }),
{
}

} // verus!
