//! Syntax trees of the Pascal subset.
use vstd::prelude::*;
use crate::pascal::token::{SToken, Token};

verus! {

/// A syntax tree.
#[derive(Debug)]
pub enum AST {
    BinOp(Box<AST>, Token, Box<AST>),
    UnaryOp(Token, Box<AST>),
    Num(i32),
    Var(String),
    Assign(String, Box<AST>),
    Compound(Vec<AST>),
    NoOp,
}

/// A syntax tree as a value.
pub enum SAst {
    BinOp(Box<SAst>, SToken, Box<SAst>),
    UnaryOp(SToken, Box<SAst>),
    Num(i32),
    Var(Seq<char>),
    Assign(Seq<char>, Box<SAst>),
    Compound(Seq<SAst>),
    NoOp,
}

/// The value of a syntax tree.
pub open spec fn ast_view(a: AST) -> SAst
    decreases a,
{
    match a {
        AST::BinOp(l, op, r) => SAst::BinOp(Box::new(ast_view(*l)), op@, Box::new(ast_view(*r))),
        AST::UnaryOp(op, e) => SAst::UnaryOp(op@, Box::new(ast_view(*e))),
        AST::Num(v) => SAst::Num(v),
        AST::Var(name) => SAst::Var(name@),
        AST::Assign(name, e) => SAst::Assign(name@, Box::new(ast_view(*e))),
        AST::Compound(stmts) => SAst::Compound(asts_view(stmts@)),
        AST::NoOp => SAst::NoOp,
    }
}

/// The values of a sequence of syntax trees.
pub open spec fn asts_view(s: Seq<AST>) -> Seq<SAst>
    decreases s,
{
    if s.len() == 0 {
        Seq::empty()
    } else {
        asts_view(s.subrange(0, s.len() - 1)).push(ast_view(s[s.len() - 1]))
    }
}

impl View for AST {
    type V = SAst;

    open spec fn view(&self) -> SAst {
        ast_view(*self)
    }
}

/// Pushing a tree pushes its value.
pub proof fn lemma_asts_view_push(s: Seq<AST>, a: AST)
    ensures
        asts_view(s.push(a)) == asts_view(s).push(ast_view(a)),
{
    assert(s.push(a).subrange(0, s.len() as int) =~= s);
}

/// The values of a sequence have its length and its elements' values.
pub proof fn lemma_asts_view_index(s: Seq<AST>)
    ensures
        asts_view(s).len() == s.len(),
        forall|i: int| 0 <= i < s.len() ==> #[trigger] asts_view(s)[i] == ast_view(s[i]),
    decreases s.len(),
{
    if s.len() > 0 {
        let t = s.subrange(0, s.len() - 1);
        lemma_asts_view_index(t);
        assert forall|i: int| 0 <= i < s.len() implies #[trigger] asts_view(s)[i] == ast_view(s[i]) by {
            if i < s.len() - 1 {
                assert(t[i] == s[i]);
            }
        }
    }
}

} // verus!
