//! Evaluation of Pascal syntax trees.
use vstd::prelude::*;
use crate::arith::trunc_div;
use crate::text::push_str;
use crate::pascal::token::{SToken, Token};
use crate::pascal::lexer::Lexer;
use crate::pascal::ast::{AST, SAst, asts_view, lemma_asts_view_index};
use crate::pascal::parser::{Parser, parse_program};
use crate::pascal::vars::Variables;

verus! {

/// The result of a binary operator on two values, with Rust's checked
/// 32-bit arithmetic (an overflow or a division by zero is an error).
pub open spec fn binary_result(op: SToken, l: i32, r: i32) -> Result<i32, Seq<char>> {
    match op {
        SToken::Plus => if i32::MIN <= l + r <= i32::MAX {
            Ok((l + r) as i32)
        } else {
            Err("attempt to add with overflow"@)
        },
        SToken::Minus => if i32::MIN <= l - r <= i32::MAX {
            Ok((l - r) as i32)
        } else {
            Err("attempt to subtract with overflow"@)
        },
        SToken::Mul => if i32::MIN <= l * r <= i32::MAX {
            Ok((l * r) as i32)
        } else {
            Err("attempt to multiply with overflow"@)
        },
        SToken::Div => if r == 0 {
            Err("attempt to divide by zero"@)
        } else if l == i32::MIN && r == -1 {
            Err("attempt to divide with overflow"@)
        } else {
            Ok(trunc_div(l as int, r as int) as i32)
        },
        _ => Err("Interpreter error: Invalid binary operator"@),
    }
}

/// The result of a unary operator on a value.
pub open spec fn unary_result(op: SToken, v: i32) -> Result<i32, Seq<char>> {
    match op {
        SToken::Plus => Ok(v),
        SToken::Minus => if v == i32::MIN {
            Err("attempt to negate with overflow"@)
        } else {
            Ok((-v) as i32)
        },
        _ => Err("Interpreter error: Invalid unary operator"@),
    }
}

/// The message for a variable read before it is assigned.
pub open spec fn undefined_error(name: Seq<char>) -> Seq<char> {
    "Interpreter error: Variable '"@ + name + "' not found"@
}

/// Evaluates a tree with the variables `vars`: its value (0 for statements)
/// and the variables afterwards.
pub open spec fn eval(node: SAst, vars: Map<Seq<char>, i32>) -> Result<(i32, Map<Seq<char>, i32>), Seq<char>>
    decreases node,
{
    match node {
        SAst::Num(v) => Ok((v, vars)),
        SAst::BinOp(l, op, r) => match eval(*l, vars) {
            Err(m) => Err(m),
            Ok((lv, m1)) => match eval(*r, m1) {
                Err(m) => Err(m),
                Ok((rv, m2)) => match binary_result(op, lv, rv) {
                    Ok(v) => Ok((v, m2)),
                    Err(m) => Err(m),
                },
            },
        },
        SAst::UnaryOp(op, e) => match eval(*e, vars) {
            Err(m) => Err(m),
            Ok((v, m1)) => match unary_result(op, v) {
                Ok(x) => Ok((x, m1)),
                Err(m) => Err(m),
            },
        },
        SAst::Compound(stmts) => match eval_seq(stmts, vars) {
            Ok(m1) => Ok((0, m1)),
            Err(m) => Err(m),
        },
        SAst::Assign(name, e) => match eval(*e, vars) {
            Err(m) => Err(m),
            Ok((v, m1)) => Ok((0, m1.insert(name, v))),
        },
        SAst::Var(name) => if vars.contains_key(name) {
            Ok((vars[name], vars))
        } else {
            Err(undefined_error(name))
        },
        SAst::NoOp => Ok((0, vars)),
    }
}

/// Executes statements in order, each on the variables the previous one left.
pub open spec fn eval_seq(stmts: Seq<SAst>, vars: Map<Seq<char>, i32>) -> Result<Map<Seq<char>, i32>, Seq<char>>
    decreases stmts,
{
    if stmts.len() == 0 {
        Ok(vars)
    } else {
        match eval(stmts[0], vars) {
            Err(m) => Err(m),
            Ok((_, m1)) => eval_seq(stmts.subrange(1, stmts.len() as int), m1),
        }
    }
}

/// The variables after running the program `source` on `vars`.
pub open spec fn interpret_result(vars: Map<Seq<char>, i32>, source: Seq<char>) -> Result<Map<Seq<char>, i32>, Seq<char>> {
    match parse_program(source) {
        Err(m) => Err(m),
        Ok(tree) => match eval(tree, vars) {
            Err(m) => Err(m),
            Ok((_, m1)) => Ok(m1),
        },
    }
}

/// The interpreter: the variables assigned so far.
pub struct Interpreter {
    variables: Variables,
}

fn binary(op: &Token, l: i32, r: i32) -> (res: Result<i32, String>)
    ensures
        match (binary_result(op@, l, r), res) {
            (Ok(v), Ok(x)) => x == v,
            (Err(m), Err(e)) => e@ == m,
            _ => false,
        },
{
    match op {
        Token::Plus => match l.checked_add(r) {
            Some(v) => Ok(v),
            None => Err(String::from_str("attempt to add with overflow")),
        },
        Token::Minus => match l.checked_sub(r) {
            Some(v) => Ok(v),
            None => Err(String::from_str("attempt to subtract with overflow")),
        },
        Token::Mul => match l.checked_mul(r) {
            Some(v) => Ok(v),
            None => Err(String::from_str("attempt to multiply with overflow")),
        },
        Token::Div => if r == 0 {
            Err(String::from_str("attempt to divide by zero"))
        } else if l == i32::MIN && r == -1 {
            Err(String::from_str("attempt to divide with overflow"))
        } else {
            Ok(l / r)
        },
        _ => Err(String::from_str("Interpreter error: Invalid binary operator")),
    }
}

fn unary(op: &Token, v: i32) -> (res: Result<i32, String>)
    ensures
        match (unary_result(op@, v), res) {
            (Ok(x), Ok(y)) => x == y,
            (Err(m), Err(e)) => e@ == m,
            _ => false,
        },
{
    match op {
        Token::Plus => Ok(v),
        Token::Minus => if v == i32::MIN {
            Err(String::from_str("attempt to negate with overflow"))
        } else {
            Ok(-v)
        },
        _ => Err(String::from_str("Interpreter error: Invalid unary operator")),
    }
}

impl Interpreter {
    /// The variables as a map.
    pub closed spec fn vars(&self) -> Map<Seq<char>, i32> {
        self.variables@
    }

    /// An interpreter with no variables.
    pub fn new() -> (interp: Interpreter)
        ensures
            interp.vars() == Map::<Seq<char>, i32>::empty(),
    {
        Interpreter { variables: Variables::new() }
    }

    /// Evaluates a tree: its value, with the variables updated by its assignments.
    /// Where the step fails, gives the message of the failure instead.
    pub fn try_visit(&mut self, node: &AST) -> (r: Result<i32, String>)
        ensures
            match (eval(node@, old(self).vars()), r) {
                (Ok((v, m)), Ok(x)) => x == v && final(self).vars() == m,
                (Err(m), Err(e)) => e@ == m,
                _ => false,
            },
        decreases node,
    {
        match node {
            AST::Num(v) => Ok(*v),
            AST::BinOp(l, op, r) => {
                let lv = match self.try_visit(l) {
                    Ok(v) => v,
                    Err(e) => return Err(e),
                };
                let rv = match self.try_visit(r) {
                    Ok(v) => v,
                    Err(e) => return Err(e),
                };
                binary(op, lv, rv)
            },
            AST::UnaryOp(op, e) => {
                let v = match self.try_visit(e) {
                    Ok(v) => v,
                    Err(e) => return Err(e),
                };
                unary(op, v)
            },
            AST::Compound(statements) => {
                let ghost vars0 = self.vars();
                let ghost ss = asts_view(statements@);
                proof {
                    lemma_asts_view_index(statements@);
                    assert(decreases_to!(*node => *statements));
                    assert(decreases_to!(*statements => statements@));
                    assert forall|j: int| 0 <= j < statements@.len() implies decreases_to!(*node => #[trigger] statements@[j]) by {
                        assert(decreases_to!(statements@ => statements@[j]));
                    }
                    assert(ss.subrange(0, ss.len() as int) =~= ss);
                }
                let mut i: usize = 0;
                while i < statements.len()
                    invariant
                        i <= statements.len(),
                        vars0 == old(self).vars(),
                        ss == asts_view(statements@),
                        ss.len() == statements.len(),
                        forall|j: int| 0 <= j < statements@.len() ==> #[trigger] ss[j] == ast_view_of(&statements@[j]),
                        forall|j: int| 0 <= j < statements@.len() ==> decreases_to!(*node => #[trigger] statements@[j]),
                        eval(node@, vars0) == match eval_seq(ss.subrange(i as int, ss.len() as int), self.vars()) {
                            Ok(m1) => Ok((0i32, m1)),
                            Err(m) => Err(m),
                        },
                    decreases statements.len() - i,
                {
                    let ghost rest = ss.subrange(i as int, ss.len() as int);
                    assert(rest[0] == ss[i as int]);
                    assert(rest.subrange(1, rest.len() as int) =~= ss.subrange(i + 1, ss.len() as int));
                    assert(ss[i as int] == statements@[i as int]@);
                    match self.try_visit(&statements[i]) {
                        Ok(_) => {},
                        Err(e) => return Err(e),
                    }
                    i = i + 1;
                }
                Ok(0)
            },
            AST::Assign(name, e) => {
                let v = match self.try_visit(e) {
                    Ok(v) => v,
                    Err(e) => return Err(e),
                };
                self.variables.insert(name.clone(), v);
                Ok(0)
            },
            AST::Var(name) => match self.variables.get(name.as_str()) {
                Some(v) => Ok(*v),
                None => {
                    let mut m = String::from_str("Interpreter error: Variable '");
                    push_str(&mut m, name.as_str());
                    push_str(&mut m, "' not found");
                    Err(m)
                },
            },
            AST::NoOp => Ok(0),
        }
    }

    /// Runs a program text: the variables after it, or the error that stops it.
    /// Where the step fails, gives the message of the failure instead.
    pub fn try_interpret(&mut self, source: &str) -> (r: Result<Variables, String>)
        ensures
            match (interpret_result(old(self).vars(), source@), r) {
                (Ok(m), Ok(vars)) => vars@ == m && final(self).vars() == m,
                (Err(m), Err(e)) => e@ == m,
                _ => false,
            },
    {
        let lexer = Lexer::new(source);
        let mut parser = match Parser::try_new(lexer) {
            Ok(p) => p,
            Err(e) => return Err(e),
        };
        let tree = match parser.try_program() {
            Ok(t) => t,
            Err(e) => return Err(e),
        };
        match self.try_visit(&tree) {
            Ok(_) => Ok(self.variables.duplicate()),
            Err(e) => Err(e),
        }
    }
}

/// The value of a tree given by reference.
pub open spec fn ast_view_of(a: &AST) -> SAst {
    a@
}

impl Interpreter {
    /// Evaluates a tree whose evaluation succeeds (`try_visit` reports the
    /// other cases): its value, with the variables updated by its assignments.
    pub fn visit(&mut self, node: &AST) -> (v: i32)
        requires
            eval(node@, old(self).vars()) is Ok,
        ensures
            eval(node@, old(self).vars()) == Ok::<(i32, Map<Seq<char>, i32>), Seq<char>>((v, final(self).vars())),
    {
        self.try_visit(node).unwrap()
    }

    /// Runs a program text that parses and evaluates without error
    /// (`try_interpret` reports the other cases): the variables after it.
    pub fn interpret(&mut self, source: &str) -> (vars: Variables)
        requires
            interpret_result(old(self).vars(), source@) is Ok,
        ensures
            interpret_result(old(self).vars(), source@) == Ok::<Map<Seq<char>, i32>, Seq<char>>(vars@),
            final(self).vars() == vars@,
    {
        self.try_interpret(source).unwrap()
    }
}

} // verus!
