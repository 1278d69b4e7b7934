//! The expression printer: rebuilds an expression tree from a postfix
//! candidate and renders it as an infix string with the fewest
//! parentheses the operators' precedence and associativity need.

use vstd::prelude::*;

use crate::arith::{balance, wf_rpn, Arithmetic, Operation};
use crate::decimal::dec_int;
use crate::decimal::i64_to_string;

verus! {

/// A node of the expression tree: a leaf number, or an operator with its
/// two operands (left, then right, as the evaluation stack pops them).
pub struct Token {
    pub kind: Arithmetic,
    pub left: Option<Box<Token>>,
    pub right: Option<Box<Token>>,
}

/// A well-formed node: a number has no children, an operator has two.
pub open spec fn wf_token(t: Token) -> bool
    decreases t,
{
    match t.kind {
        Arithmetic::Num(_) => t.left is None && t.right is None,
        Arithmetic::Op(_) => match (t.left, t.right) {
            (Some(l), Some(r)) => wf_token(*l) && wf_token(*r),
            _ => false,
        },
    }
}

/// A string wrapped in parentheses.
pub open spec fn wrap(s: Seq<char>) -> Seq<char> {
    seq!['('] + s + seq![')']
}

/// A child whose root is an addition or a subtraction.
pub open spec fn is_add_sub(k: Arithmetic) -> bool {
    k == Arithmetic::Op(Operation::Add) || k == Arithmetic::Op(Operation::Sub)
}

/// A child whose root is a subtraction.
pub open spec fn is_sub(k: Arithmetic) -> bool {
    k == Arithmetic::Op(Operation::Sub)
}

/// A child whose root is a multiplication or a division.
pub open spec fn is_mul_div(k: Arithmetic) -> bool {
    k == Arithmetic::Op(Operation::Mul) || k == Arithmetic::Op(Operation::Div)
}

/// The rendering of one operator node from its children's renderings:
/// addition never parenthesizes; subtraction parenthesizes a right child
/// that is itself a subtraction; multiplication parenthesizes additive
/// children; division parenthesizes additive children and any right
/// child that is a multiplication or a division.
pub open spec fn join2(
    o: Operation,
    lk: Arithmetic,
    ls: Seq<char>,
    rk: Arithmetic,
    rs: Seq<char>,
) -> Seq<char> {
    match o {
        Operation::Add => ls + " + "@ + rs,
        Operation::Sub => ls + " - "@ + (if is_sub(rk) {
            wrap(rs)
        } else {
            rs
        }),
        Operation::Mul => (if is_add_sub(lk) {
            wrap(ls)
        } else {
            ls
        }) + " x "@ + (if is_add_sub(rk) {
            wrap(rs)
        } else {
            rs
        }),
        Operation::Div => (if is_add_sub(lk) {
            wrap(ls)
        } else {
            ls
        }) + " / "@ + (if is_add_sub(rk) || is_mul_div(rk) {
            wrap(rs)
        } else {
            rs
        }),
    }
}

/// The rendering of a well-formed expression tree.
pub open spec fn token_render(t: Token) -> Seq<char>
    decreases t,
{
    match t.kind {
        Arithmetic::Num(v) => dec_int(v as int),
        Arithmetic::Op(o) => match (t.left, t.right) {
            (Some(l), Some(r)) => join2(
                o,
                (*l).kind,
                token_render(*l),
                (*r).kind,
                token_render(*r),
            ),
            _ => Seq::empty(),
        },
    }
}

/// One token applied to a rendering stack of (string, root kind) pairs;
/// `None` on stack underflow.
pub open spec fn render_step(
    st: Seq<(Seq<char>, Arithmetic)>,
    a: Arithmetic,
) -> Option<Seq<(Seq<char>, Arithmetic)>> {
    match a {
        Arithmetic::Num(v) => Some(st.push((dec_int(v as int), a))),
        Arithmetic::Op(o) => if st.len() < 2 {
            None
        } else {
            Some(
                st.take(st.len() - 2).push(
                    (
                        join2(
                            o,
                            st[st.len() - 2].1,
                            st[st.len() - 2].0,
                            st[st.len() - 1].1,
                            st[st.len() - 1].0,
                        ),
                        a,
                    ),
                ),
            )
        },
    }
}

/// The rendering stack left by a token sequence, from an empty stack.
pub open spec fn render_stack(s: Seq<Arithmetic>) -> Option<Seq<(Seq<char>, Arithmetic)>>
    decreases s.len(),
{
    if s.len() == 0 {
        Some(Seq::empty())
    } else {
        match render_stack(s.drop_last()) {
            Some(st) => render_step(st, s.last()),
            None => None,
        }
    }
}

/// One token applied to a stack of already-built subtrees; `None` on
/// stack underflow.
pub open spec fn build_step(st: Seq<Token>, a: Arithmetic) -> Option<Seq<Token>> {
    match a {
        Arithmetic::Num(_) => Some(st.push(Token { kind: a, left: None, right: None })),
        Arithmetic::Op(_) => if st.len() < 2 {
            None
        } else {
            Some(
                st.take(st.len() - 2).push(
                    Token {
                        kind: a,
                        left: Some(Box::new(st[st.len() - 2])),
                        right: Some(Box::new(st[st.len() - 1])),
                    },
                ),
            )
        },
    }
}

/// The stack of subtrees left by a token sequence, from an empty stack.
pub open spec fn build_stack(s: Seq<Arithmetic>) -> Option<Seq<Token>>
    decreases s.len(),
{
    if s.len() == 0 {
        Some(Seq::empty())
    } else {
        match build_stack(s.drop_last()) {
            Some(st) => build_step(st, s.last()),
            None => None,
        }
    }
}

/// The one expression tree a well-formed postfix candidate reduces to:
/// each operator node takes as right child the first-popped (most
/// recently built) subtree and as left child the second-popped one.
pub open spec fn spec_tree(s: Seq<Arithmetic>) -> Token {
    match build_stack(s) {
        Some(st) => if st.len() == 1 {
            st[0]
        } else {
            Token { kind: Arithmetic::Num(0), left: None, right: None }
        },
        None => Token { kind: Arithmetic::Num(0), left: None, right: None },
    }
}

/// The infix rendering of a postfix candidate.
pub open spec fn spec_render(s: Seq<Arithmetic>) -> Seq<char> {
    match render_stack(s) {
        Some(st) => if st.len() == 1 {
            st[0].0
        } else {
            Seq::empty()
        },
        None => Seq::empty(),
    }
}

/// Wraps a rendered child in parentheses.
fn wrap_paren(s: String) -> (r: String)
    ensures
        r@ == wrap(s@),
{
    let mut r = String::from_str("(");
    r.append(s.as_str());
    r.append(")");
    proof {
        reveal_strlit("(");
        reveal_strlit(")");
        assert("("@ =~= seq!['(']);
        assert(")"@ =~= seq![')']);
        assert(r@ =~= wrap(s@));
    }
    r
}

impl Token {
    /// A fresh node of the given kind, with no children yet.
    pub fn new(kind: Arithmetic) -> (r: Self)
        ensures
            r.kind == kind,
            r.left is None,
            r.right is None,
    {
        Self { kind, left: None, right: None }
    }

    /// Renders this node as an infix expression.
    pub fn to_string(&self) -> (r: String)
        requires
            wf_token(*self),
        ensures
            r@ == token_render(*self),
        decreases *self,
    {
        match self.kind {
            Arithmetic::Num(v) => i64_to_string(v as i64),
            Arithmetic::Op(o) => {
                let l = self.left.as_ref().unwrap();
                let rt = self.right.as_ref().unwrap();
                let ls = (&**l).to_string();
                let rs = (&**rt).to_string();
                let lk = (&**l).kind;
                let rk = (&**rt).kind;
                let mut out: String;
                match o {
                    Operation::Add => {
                        out = ls;
                        out.append(" + ");
                        out.append(rs.as_str());
                    },
                    Operation::Sub => {
                        let rpart = if rk == Arithmetic::Op(Operation::Sub) {
                            wrap_paren(rs)
                        } else {
                            rs
                        };
                        out = ls;
                        out.append(" - ");
                        out.append(rpart.as_str());
                    },
                    Operation::Mul => {
                        let lpart = if lk == Arithmetic::Op(Operation::Add) || lk
                            == Arithmetic::Op(Operation::Sub) {
                            wrap_paren(ls)
                        } else {
                            ls
                        };
                        let rpart = if rk == Arithmetic::Op(Operation::Add) || rk
                            == Arithmetic::Op(Operation::Sub) {
                            wrap_paren(rs)
                        } else {
                            rs
                        };
                        out = lpart;
                        out.append(" x ");
                        out.append(rpart.as_str());
                    },
                    Operation::Div => {
                        let lpart = if lk == Arithmetic::Op(Operation::Add) || lk
                            == Arithmetic::Op(Operation::Sub) {
                            wrap_paren(ls)
                        } else {
                            ls
                        };
                        let rpart = if rk == Arithmetic::Op(Operation::Add) || rk
                            == Arithmetic::Op(Operation::Sub) || rk == Arithmetic::Op(
                            Operation::Mul,
                        ) || rk == Arithmetic::Op(Operation::Div) {
                            wrap_paren(rs)
                        } else {
                            rs
                        };
                        out = lpart;
                        out.append(" / ");
                        out.append(rpart.as_str());
                    },
                }
                out
            },
        }
    }
}

/// The reconstructed expression tree of one postfix candidate.
pub struct TokenTree {
    pub root: Token,
}

impl TokenTree {
    /// Rebuilds the expression tree of a well-formed postfix candidate by
    /// a single-stack reduction.
    pub fn new(rpn: &[Arithmetic; 7]) -> (r: Self)
        requires
            wf_rpn(rpn@),
        ensures
            r.root == spec_tree(rpn@),
            wf_token(r.root),
            token_render(r.root) == spec_render(rpn@),
    {
        let mut stack: Vec<Token> = Vec::new();
        let mut i: usize = 0;
        while i < 7
            invariant
                0 <= i <= 7,
                wf_rpn(rpn@),
                rpn@.len() == 7,
                stack@.len() == balance(rpn@.take(i as int)),
                render_stack(rpn@.take(i as int)) == Some(
                    stack@.map_values(|t: Token| (token_render(t), t.kind)),
                ),
                build_stack(rpn@.take(i as int)) == Some(stack@),
                forall|j: int| 0 <= j < stack@.len() ==> wf_token(#[trigger] stack@[j]),
            decreases 7 - i,
        {
            proof {
                assert(rpn@.take(i + 1).drop_last() =~= rpn@.take(i as int));
                assert(rpn@.take(i + 1).last() == rpn@[i as int]);
                assert(balance(rpn@.take(i + 1)) >= 1);
            }
            match rpn[i] {
                Arithmetic::Num(v) => {
                    stack.push(Token::new(Arithmetic::Num(v)));
                    proof {
                        assert(stack@.map_values(|t: Token| (token_render(t), t.kind))
                            =~= render_stack(rpn@.take(i + 1)).unwrap());
                        assert(stack@ =~= build_stack(rpn@.take(i + 1)).unwrap());
                    }
                },
                Arithmetic::Op(o) => {
                    let token2 = stack.pop().unwrap();
                    let token1 = stack.pop().unwrap();
                    let mut token = Token::new(Arithmetic::Op(o));
                    token.left = Some(Box::new(token1));
                    token.right = Some(Box::new(token2));
                    stack.push(token);
                    proof {
                        assert(stack@.map_values(|t: Token| (token_render(t), t.kind))
                            =~= render_stack(rpn@.take(i + 1)).unwrap());
                        assert(stack@ =~= build_stack(rpn@.take(i + 1)).unwrap());
                    }
                },
            }
            i += 1;
        }
        proof {
            assert(rpn@.take(7) =~= rpn@);
        }
        let root = stack.pop().unwrap();
        Self { root }
    }

    /// Renders the whole tree as an infix expression.
    pub fn to_string(&self) -> (r: String)
        requires
            wf_token(self.root),
        ensures
            r@ == token_render(self.root),
    {
        self.root.to_string()
    }
}

/// Rebuilds the expression tree of a well-formed postfix candidate.
pub fn tokenize(rpn: &[Arithmetic; 7]) -> (r: TokenTree)
    requires
        wf_rpn(rpn@),
    ensures
        r.root == spec_tree(rpn@),
        wf_token(r.root),
        token_render(r.root) == spec_render(rpn@),
{
    TokenTree::new(rpn)
}

} // verus!
