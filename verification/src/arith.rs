//! The token alphabet of the solver: the four binary operators, and the
//! tokens (a number or an operator) that postfix candidates are made of.

use vstd::prelude::*;

verus! {

/// One of the four arithmetic operators.
#[derive(Clone, Copy, Debug, PartialEq, Eq, Hash, Structural)]
pub enum Operation {
    Add,
    Sub,
    Div,
    Mul,
}

/// One token of a postfix candidate: a leaf number or an operator.
#[derive(Clone, Copy, Debug, PartialEq, Eq, Hash, Structural)]
pub enum Arithmetic {
    Num(i32),
    Op(Operation),
}

/// The character that stands for an operator in printed expressions.
pub open spec fn spec_symbol(o: Operation) -> Seq<char> {
    match o {
        Operation::Add => seq!['+'],
        Operation::Sub => seq!['-'],
        Operation::Mul => seq!['x'],
        Operation::Div => seq!['/'],
    }
}

impl Operation {
    /// The symbol this operator is printed as.
    pub fn symbol(&self) -> (r: &'static str)
        ensures
            r@ == spec_symbol(*self),
    {
        match self {
            Operation::Add => {
                proof {
                    reveal_strlit("+");
                    assert("+"@ =~= seq!['+']);
                }
                "+"
            },
            Operation::Sub => {
                proof {
                    reveal_strlit("-");
                    assert("-"@ =~= seq!['-']);
                }
                "-"
            },
            Operation::Mul => {
                proof {
                    reveal_strlit("x");
                    assert("x"@ =~= seq!['x']);
                }
                "x"
            },
            Operation::Div => {
                proof {
                    reveal_strlit("/");
                    assert("/"@ =~= seq!['/']);
                }
                "/"
            },
        }
    }
}

/// True of a token that is a leaf number.
pub open spec fn is_num(a: Arithmetic) -> bool {
    a matches Arithmetic::Num(_)
}

/// Net effect of one token on the size of an evaluation stack:
/// a number pushes one value, an operator pops two and pushes one.
pub open spec fn arity(a: Arithmetic) -> int {
    if is_num(a) {
        1
    } else {
        -1
    }
}

/// Stack balance of a token sequence: how many values a single-stack
/// reduction of it leaves, counted from an empty stack.
pub open spec fn balance(s: Seq<Arithmetic>) -> int
    decreases s.len(),
{
    if s.len() == 0 {
        0
    } else {
        balance(s.drop_last()) + arity(s.last())
    }
}

/// A well-formed postfix candidate: seven tokens, every non-empty prefix
/// keeps at least one value on the stack, and the whole reduces to one.
pub open spec fn wf_rpn(s: Seq<Arithmetic>) -> bool {
    &&& s.len() == 7
    &&& forall|i: int| 1 <= i <= s.len() ==> balance(#[trigger] s.take(i)) >= 1
    &&& balance(s) == 1
}

} // verus!
