//! The built-in registry: the four arithmetic callables, looked up by name.

use vstd::prelude::*;
use vstd::string::StringExecFns;
use crate::function::{Function, FunctionMetadata, Op, Reducer, Token};

verus! {

/// The operation a built-in name stands for, or `None` for any other name.
pub open spec fn spec_op_of(name: Seq<char>) -> Option<Op> {
    if name.len() != 1 {
        None
    } else if name[0] == '+' {
        Some(Op::Add)
    } else if name[0] == '-' {
        Some(Op::Sub)
    } else if name[0] == '/' {
        Some(Op::Div)
    } else if name[0] == '*' {
        Some(Op::Mul)
    } else {
        None
    }
}

/// The read-only registry of built-in callables, populated once before
/// evaluation begins.  Each entry carries its name in its metadata; the names
/// are pairwise distinct.
pub struct Builtins {
    pub entries: Vec<Function>,
}

impl Builtins {
    /// The full registry: one callable for each of `+ - / *`.
    pub fn global() -> (r: Builtins)
        ensures
            r.entries@.len() == 4,
            forall|i: int|
                0 <= i < 4 ==> ((#[trigger] r.entries@[i].reducer) matches Reducer::Builtin(op)
                    && Some(op) == spec_op_of(r.entries@[i].meta.name@)),
            r.entries@[0].meta.name@ == seq!['+'],
            r.entries@[1].meta.name@ == seq!['-'],
            r.entries@[2].meta.name@ == seq!['/'],
            r.entries@[3].meta.name@ == seq!['*'],
    {
        proof {
            reveal_strlit("+");
            reveal_strlit("-");
            reveal_strlit("/");
            reveal_strlit("*");
        }
        let mut entries: Vec<Function> = Vec::new();
        entries.push(
            Function::with_metadata(
                Reducer::Builtin(Op::Add),
                FunctionMetadata { name: String::from_str("+") },
            ),
        );
        entries.push(
            Function::with_metadata(
                Reducer::Builtin(Op::Sub),
                FunctionMetadata { name: String::from_str("-") },
            ),
        );
        entries.push(
            Function::with_metadata(
                Reducer::Builtin(Op::Div),
                FunctionMetadata { name: String::from_str("/") },
            ),
        );
        entries.push(
            Function::with_metadata(
                Reducer::Builtin(Op::Mul),
                FunctionMetadata { name: String::from_str("*") },
            ),
        );
        proof {
            assert("+"@ =~= seq!['+']);
            assert("-"@ =~= seq!['-']);
            assert("/"@ =~= seq!['/']);
            assert("*"@ =~= seq!['*']);
            assert(spec_op_of(entries@[0].meta.name@) == Some(Op::Add));
            assert(spec_op_of(entries@[1].meta.name@) == Some(Op::Sub));
            assert(spec_op_of(entries@[2].meta.name@) == Some(Op::Div));
            assert(spec_op_of(entries@[3].meta.name@) == Some(Op::Mul));
        }
        Builtins { entries }
    }

    /// Look a name up in the registry: the matching callable as a token, or
    /// `None` for a name that is no built-in.
    pub fn get(value: &str) -> (r: Option<Token>)
        ensures
            match r {
                Some(t) => t matches Token::Function(f) && f.meta.name@ == value@ && Some(
                    f.reducer->Builtin_0,
                ) == spec_op_of(value@) && f.reducer is Builtin,
                None => spec_op_of(value@) is None,
            },
    {
        let owned = value.to_owned();
        let mut table = Builtins::global();
        let mut i: usize = 0;
        while i < table.entries.len()
            invariant
                table.entries@.len() == 4,
                forall|j: int|
                    0 <= j < 4 ==> ((#[trigger] table.entries@[j].reducer) matches Reducer::Builtin(
                        op,
                    ) && Some(op) == spec_op_of(table.entries@[j].meta.name@)),
                table.entries@[0].meta.name@ == seq!['+'],
                table.entries@[1].meta.name@ == seq!['-'],
                table.entries@[2].meta.name@ == seq!['/'],
                table.entries@[3].meta.name@ == seq!['*'],
                owned@ == value@,
                forall|j: int| 0 <= j < i ==> table.entries@[j].meta.name@ != value@,
            decreases table.entries@.len() - i,
        {
            if table.entries[i].meta.name == owned {
                let f = table.entries.remove(i);
                return Some(Token::Function(f));
            }
            i += 1;
        }
        proof {
            if value@.len() == 1 {
                if value@[0] == '+' {
                    assert(value@ =~= seq!['+']);
                } else if value@[0] == '-' {
                    assert(value@ =~= seq!['-']);
                } else if value@[0] == '/' {
                    assert(value@ =~= seq!['/']);
                } else if value@[0] == '*' {
                    assert(value@ =~= seq!['*']);
                }
            }
        }
        None
    }
}

} // verus!
