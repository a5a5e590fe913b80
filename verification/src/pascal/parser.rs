//! The recursive-descent parser of the Pascal subset:
//!
//! ```text
//! program        : compound_statement DOT
//! compound       : BEGIN statement_list END
//! statement_list : statement (SEMI statement)*      -- no identifier may follow
//! statement      : compound | assignment | empty
//! assignment     : variable ASSIGN expr
//! expr           : term ((PLUS | MINUS) term)*
//! term           : factor ((MUL | DIV) factor)*
//! factor         : (PLUS | MINUS) factor | INTEGER | LPAREN expr RPAREN | variable
//! ```
use vstd::prelude::*;
use crate::text::push_str;
use crate::pascal::token::{SToken, Token, TokenKind, expected_kind_text, expected_text, kind_of, token_text};
use crate::pascal::lexer::{Lexer, lex_token, lemma_lex_progress};
use crate::pascal::ast::{AST, SAst, asts_view, lemma_asts_view_push};

verus! {

/// Where the parser stands: the position of the lexer and the current token.
pub struct PState {
    pub pos: nat,
    pub cur: SToken,
}

/// The input still to be parsed: the characters after the lexer position and
/// the current token (when it is not the end marker).
pub open spec fn rem(cs: Seq<char>, st: PState) -> nat {
    (if st.pos <= cs.len() {
        (cs.len() - st.pos) as nat
    } else {
        0nat
    }) + (if st.cur is Eof {
        0nat
    } else {
        1nat
    })
}

/// The message for a token other than the one required.
pub open spec fn expected_error(k: TokenKind, found: SToken) -> Seq<char> {
    "Parser error: expected "@ + expected_text(k) + ", found "@ + token_text(found)
}

/// The message for a token that cannot start a factor.
pub open spec fn factor_error(found: SToken) -> Seq<char> {
    "Parser error in factor: unexpected token "@ + token_text(found)
}

/// The message for a token where an identifier is required.
pub open spec fn variable_error(found: SToken) -> Seq<char> {
    "Parser error: Expected identifier, found "@ + token_text(found)
}

/// The message for an identifier right after a statement.
pub open spec fn missing_semicolon_error() -> Seq<char> {
    "Parser error: Unexpected identifier after statement without semicolon"@
}

/// Consumes the current token, which must be of kind `k`, and reads the next one.
pub open spec fn p_eat(cs: Seq<char>, st: PState, k: TokenKind) -> Result<PState, Seq<char>> {
    if kind_of(st.cur) == k {
        match lex_token(cs, st.pos) {
            Ok((t, p)) => Ok(PState { pos: p, cur: t }),
            Err(m) => Err(m),
        }
    } else {
        Err(expected_error(k, st.cur))
    }
}

/// Consuming a token never adds input, and consuming a real token removes some.
pub proof fn lemma_eat(cs: Seq<char>, st: PState, k: TokenKind)
    ensures
        p_eat(cs, st, k) matches Ok(st1) ==> rem(cs, st1) <= rem(cs, st) && (!(st.cur is Eof) ==> rem(
            cs,
            st1,
        ) < rem(cs, st)),
{
    lemma_lex_progress(cs, st.pos);
}

/// `variable : ID`
pub open spec fn p_variable(cs: Seq<char>, st: PState) -> Result<(SAst, PState), Seq<char>> {
    match st.cur {
        SToken::Id(name) => match p_eat(cs, st, TokenKind::Id) {
            Ok(st1) => Ok((SAst::Var(name), st1)),
            Err(m) => Err(m),
        },
        _ => Err(variable_error(st.cur)),
    }
}

/// `factor : (PLUS | MINUS) factor | INTEGER | LPAREN expr RPAREN | variable`
pub open spec fn p_factor(cs: Seq<char>, st: PState) -> Result<(SAst, PState), Seq<char>>
    decreases rem(cs, st), 0nat,
{
    match st.cur {
        SToken::Plus => match p_eat(cs, st, TokenKind::Plus) {
            Err(m) => Err(m),
            Ok(st1) => {
                proof {
                    lemma_eat(cs, st, TokenKind::Plus);
                }
                match p_factor(cs, st1) {
                    Ok((e, st2)) => Ok((SAst::UnaryOp(SToken::Plus, Box::new(e)), st2)),
                    Err(m) => Err(m),
                }
            },
        },
        SToken::Minus => match p_eat(cs, st, TokenKind::Minus) {
            Err(m) => Err(m),
            Ok(st1) => {
                proof {
                    lemma_eat(cs, st, TokenKind::Minus);
                }
                match p_factor(cs, st1) {
                    Ok((e, st2)) => Ok((SAst::UnaryOp(SToken::Minus, Box::new(e)), st2)),
                    Err(m) => Err(m),
                }
            },
        },
        SToken::Integer(v) => match p_eat(cs, st, TokenKind::Integer) {
            Ok(st1) => Ok((SAst::Num(v), st1)),
            Err(m) => Err(m),
        },
        SToken::LParen => match p_eat(cs, st, TokenKind::LParen) {
            Err(m) => Err(m),
            Ok(st1) => {
                proof {
                    lemma_eat(cs, st, TokenKind::LParen);
                }
                match p_expr(cs, st1) {
                    Err(m) => Err(m),
                    Ok((e, st2)) => match p_eat(cs, st2, TokenKind::RParen) {
                        Ok(st3) => Ok((e, st3)),
                        Err(m) => Err(m),
                    },
                }
            },
        },
        SToken::Id(_) => p_variable(cs, st),
        _ => Err(factor_error(st.cur)),
    }
}

/// The rest of a term after its first factor `node`: `((MUL | DIV) factor)*`,
/// combined to the left.
pub open spec fn p_term_loop(cs: Seq<char>, node: SAst, st: PState) -> Result<(SAst, PState), Seq<char>>
    decreases rem(cs, st), 1nat,
{
    if st.cur is Mul || st.cur is Div {
        match p_eat(cs, st, kind_of(st.cur)) {
            Err(m) => Err(m),
            Ok(st1) => {
                proof {
                    lemma_eat(cs, st, kind_of(st.cur));
                }
                match p_factor(cs, st1) {
                    Err(m) => Err(m),
                    Ok((rhs, st2)) => if rem(cs, st2) < rem(cs, st) {
                        p_term_loop(cs, SAst::BinOp(Box::new(node), st.cur, Box::new(rhs)), st2)
                    } else {
                        Err(Seq::empty())
                    },
                }
            },
        }
    } else {
        Ok((node, st))
    }
}

/// `term : factor ((MUL | DIV) factor)*`
pub open spec fn p_term(cs: Seq<char>, st: PState) -> Result<(SAst, PState), Seq<char>>
    decreases rem(cs, st), 2nat,
{
    match p_factor(cs, st) {
        Err(m) => Err(m),
        Ok((node, st1)) => if rem(cs, st1) <= rem(cs, st) {
            p_term_loop(cs, node, st1)
        } else {
            Err(Seq::empty())
        },
    }
}

/// The rest of an expression after its first term `node`:
/// `((PLUS | MINUS) term)*`, combined to the left.
pub open spec fn p_expr_loop(cs: Seq<char>, node: SAst, st: PState) -> Result<(SAst, PState), Seq<char>>
    decreases rem(cs, st), 3nat,
{
    if st.cur is Plus || st.cur is Minus {
        match p_eat(cs, st, kind_of(st.cur)) {
            Err(m) => Err(m),
            Ok(st1) => {
                proof {
                    lemma_eat(cs, st, kind_of(st.cur));
                }
                match p_term(cs, st1) {
                    Err(m) => Err(m),
                    Ok((rhs, st2)) => if rem(cs, st2) < rem(cs, st) {
                        p_expr_loop(cs, SAst::BinOp(Box::new(node), st.cur, Box::new(rhs)), st2)
                    } else {
                        Err(Seq::empty())
                    },
                }
            },
        }
    } else {
        Ok((node, st))
    }
}

/// `expr : term ((PLUS | MINUS) term)*`
pub open spec fn p_expr(cs: Seq<char>, st: PState) -> Result<(SAst, PState), Seq<char>>
    decreases rem(cs, st), 4nat,
{
    match p_term(cs, st) {
        Err(m) => Err(m),
        Ok((node, st1)) => if rem(cs, st1) <= rem(cs, st) {
            p_expr_loop(cs, node, st1)
        } else {
            Err(Seq::empty())
        },
    }
}

/// `assignment : variable ASSIGN expr`
pub open spec fn p_assignment(cs: Seq<char>, st: PState) -> Result<(SAst, PState), Seq<char>> {
    match p_variable(cs, st) {
        Err(m) => Err(m),
        Ok((SAst::Var(name), st1)) => match p_eat(cs, st1, TokenKind::Assign) {
            Err(m) => Err(m),
            Ok(st2) => match p_expr(cs, st2) {
                Err(m) => Err(m),
                Ok((e, st3)) => Ok((SAst::Assign(name, Box::new(e)), st3)),
            },
        },
        Ok(_) => Err(Seq::empty()),
    }
}

/// The rest of a statement list after the statements `items`: `(SEMI statement)*`.
pub open spec fn p_statement_loop(cs: Seq<char>, items: Seq<SAst>, st: PState) -> Result<
    (Seq<SAst>, PState),
    Seq<char>,
>
    decreases rem(cs, st), 0nat,
{
    if st.cur is Semi {
        match p_eat(cs, st, TokenKind::Semi) {
            Err(m) => Err(m),
            Ok(st1) => {
                proof {
                    lemma_eat(cs, st, TokenKind::Semi);
                }
                match p_statement(cs, st1) {
                    Err(m) => Err(m),
                    Ok((s, st2)) => if rem(cs, st2) < rem(cs, st) {
                        p_statement_loop(cs, items.push(s), st2)
                    } else {
                        Err(Seq::empty())
                    },
                }
            },
        }
    } else {
        Ok((items, st))
    }
}

/// `statement_list : statement (SEMI statement)*`, not followed by an identifier.
pub open spec fn p_statement_list(cs: Seq<char>, st: PState) -> Result<(Seq<SAst>, PState), Seq<char>>
    decreases rem(cs, st), 3nat,
{
    match p_statement(cs, st) {
        Err(m) => Err(m),
        Ok((s, st1)) => if rem(cs, st1) <= rem(cs, st) {
            match p_statement_loop(cs, seq![s], st1) {
                Err(m) => Err(m),
                Ok((items, st2)) => if st2.cur is Id {
                    Err(missing_semicolon_error())
                } else {
                    Ok((items, st2))
                },
            }
        } else {
            Err(Seq::empty())
        },
    }
}

/// `statement : compound | assignment | empty`
pub open spec fn p_statement(cs: Seq<char>, st: PState) -> Result<(SAst, PState), Seq<char>>
    decreases rem(cs, st), 2nat,
{
    match st.cur {
        SToken::Begin => p_compound(cs, st),
        SToken::Id(_) => p_assignment(cs, st),
        _ => Ok((SAst::NoOp, st)),
    }
}

/// `compound : BEGIN statement_list END`
pub open spec fn p_compound(cs: Seq<char>, st: PState) -> Result<(SAst, PState), Seq<char>>
    decreases rem(cs, st), 1nat,
{
    match p_eat(cs, st, TokenKind::Begin) {
        Err(m) => Err(m),
        Ok(st1) => {
            proof {
                lemma_eat(cs, st, TokenKind::Begin);
            }
            match p_statement_list(cs, st1) {
                Err(m) => Err(m),
                Ok((items, st2)) => match p_eat(cs, st2, TokenKind::End) {
                    Err(m) => Err(m),
                    Ok(st3) => Ok((SAst::Compound(items), st3)),
                },
            }
        },
    }
}

/// `program : compound_statement DOT`
pub open spec fn p_program(cs: Seq<char>, st: PState) -> Result<(SAst, PState), Seq<char>> {
    match p_compound(cs, st) {
        Err(m) => Err(m),
        Ok((node, st1)) => match p_eat(cs, st1, TokenKind::Dot) {
            Err(m) => Err(m),
            Ok(st2) => Ok((node, st2)),
        },
    }
}

/// The syntax tree of a whole program text.
pub open spec fn parse_program(cs: Seq<char>) -> Result<SAst, Seq<char>> {
    match lex_token(cs, 0) {
        Err(m) => Err(m),
        Ok((t, p)) => match p_program(cs, PState { pos: p, cur: t }) {
            Ok((node, _)) => Ok(node),
            Err(m) => Err(m),
        },
    }
}

/// The parser: a lexer and the current token.
pub struct Parser {
    lexer: Lexer,
    current_token: Token,
}

impl Parser {
    /// The text being parsed.
    pub closed spec fn text(&self) -> Seq<char> {
        self.lexer.text()
    }

    /// Where the parser stands.
    pub closed spec fn state(&self) -> PState {
        PState { pos: self.lexer.position(), cur: self.current_token@ }
    }

    /// The lexer position lies within the text.
    pub closed spec fn wf(&self) -> bool {
        self.lexer.wf()
    }

    /// A parser on the text of `lexer`, with the first token read.
    /// Where the step fails, gives the message of the failure instead.
    pub fn try_new(lexer: Lexer) -> (r: Result<Parser, String>)
        requires
            lexer.wf(),
        ensures
            match (lex_token(lexer.text(), lexer.position()), r) {
                (Ok((t, p)), Ok(parser)) => parser.wf() && parser.text() == lexer.text() && parser.state()
                    == (PState { pos: p, cur: t }),
                (Err(m), Err(e)) => e@ == m,
                _ => false,
            },
    {
        let mut lexer = lexer;
        match lexer.try_get_next_token() {
            Ok(t) => Ok(Parser { lexer, current_token: t }),
            Err(e) => Err(e),
        }
    }

    /// Consumes the current token, which must be of kind `kind`.
    /// Where the step fails, gives the message of the failure instead.
    pub fn try_eat(&mut self, kind: TokenKind) -> (r: Result<(), String>)
        requires
            old(self).wf(),
        ensures
            final(self).wf(),
            final(self).text() == old(self).text(),
            match (p_eat(old(self).text(), old(self).state(), kind), r) {
                (Ok(st), Ok(_)) => final(self).state() == st,
                (Err(m), Err(e)) => e@ == m,
                _ => false,
            },
    {
        if self.current_token.kind() == kind {
            match self.lexer.try_get_next_token() {
                Ok(t) => {
                    self.current_token = t;
                    Ok(())
                },
                Err(e) => Err(e),
            }
        } else {
            let mut m = String::from_str("Parser error: expected ");
            let k = expected_kind_text(kind);
            push_str(&mut m, k.as_str());
            push_str(&mut m, ", found ");
            let f = self.current_token.debug_text();
            push_str(&mut m, f.as_str());
            Err(m)
        }
    }

    /// `variable : ID`
    /// Where the step fails, gives the message of the failure instead.
    pub fn try_variable(&mut self) -> (r: Result<AST, String>)
        requires
            old(self).wf(),
        ensures
            final(self).wf(),
            final(self).text() == old(self).text(),
            match (p_variable(old(self).text(), old(self).state()), r) {
                (Ok((n, st)), Ok(a)) => a@ == n && final(self).state() == st,
                (Err(m), Err(e)) => e@ == m,
                _ => false,
            },
    {
        let name = match &self.current_token {
            Token::Id(name) => name.clone(),
            _ => {
                let mut m = String::from_str("Parser error: Expected identifier, found ");
                let f = self.current_token.debug_text();
                push_str(&mut m, f.as_str());
                return Err(m);
            },
        };
        match self.try_eat(TokenKind::Id) {
            Ok(()) => Ok(AST::Var(name)),
            Err(e) => Err(e),
        }
    }

    /// `factor : (PLUS | MINUS) factor | INTEGER | LPAREN expr RPAREN | variable`
    /// Where the step fails, gives the message of the failure instead.
    pub fn try_factor(&mut self) -> (r: Result<AST, String>)
        requires
            old(self).wf(),
        ensures
            final(self).wf(),
            final(self).text() == old(self).text(),
            match (p_factor(old(self).text(), old(self).state()), r) {
                (Ok((n, st)), Ok(a)) => a@ == n && final(self).state() == st,
                (Err(m), Err(e)) => e@ == m,
                _ => false,
            },
            r is Ok ==> rem(final(self).text(), final(self).state()) <= rem(old(self).text(), old(self).state()),
        decreases rem(old(self).text(), old(self).state()), 0nat,
    {
        let ghost cs = self.text();
        let ghost st0 = self.state();
        match self.current_token {
            Token::Plus => {
                match self.try_eat(TokenKind::Plus) {
                    Err(e) => return Err(e),
                    Ok(()) => {},
                }
                proof {
                    lemma_eat(cs, st0, TokenKind::Plus);
                }
                match self.try_factor() {
                    Ok(e) => Ok(AST::UnaryOp(Token::Plus, Box::new(e))),
                    Err(e) => Err(e),
                }
            },
            Token::Minus => {
                match self.try_eat(TokenKind::Minus) {
                    Err(e) => return Err(e),
                    Ok(()) => {},
                }
                proof {
                    lemma_eat(cs, st0, TokenKind::Minus);
                }
                match self.try_factor() {
                    Ok(e) => Ok(AST::UnaryOp(Token::Minus, Box::new(e))),
                    Err(e) => Err(e),
                }
            },
            Token::Integer(v) => {
                match self.try_eat(TokenKind::Integer) {
                    Err(e) => return Err(e),
                    Ok(()) => {},
                }
                proof {
                    lemma_eat(cs, st0, TokenKind::Integer);
                }
                Ok(AST::Num(v))
            },
            Token::LParen => {
                match self.try_eat(TokenKind::LParen) {
                    Err(e) => return Err(e),
                    Ok(()) => {},
                }
                proof {
                    lemma_eat(cs, st0, TokenKind::LParen);
                }
                let node = match self.try_expr() {
                    Ok(n) => n,
                    Err(e) => return Err(e),
                };
                let ghost st2 = self.state();
                match self.try_eat(TokenKind::RParen) {
                    Err(e) => return Err(e),
                    Ok(()) => {},
                }
                proof {
                    lemma_eat(cs, st2, TokenKind::RParen);
                }
                Ok(node)
            },
            Token::Id(_) => {
                proof {
                    lemma_eat(cs, st0, TokenKind::Id);
                }
                self.try_variable()
            },
            _ => {
                let mut m = String::from_str("Parser error in factor: unexpected token ");
                let f = self.current_token.debug_text();
                push_str(&mut m, f.as_str());
                Err(m)
            },
        }
    }

    /// `term : factor ((MUL | DIV) factor)*`
    /// Where the step fails, gives the message of the failure instead.
    pub fn try_term(&mut self) -> (r: Result<AST, String>)
        requires
            old(self).wf(),
        ensures
            final(self).wf(),
            final(self).text() == old(self).text(),
            match (p_term(old(self).text(), old(self).state()), r) {
                (Ok((n, st)), Ok(a)) => a@ == n && final(self).state() == st,
                (Err(m), Err(e)) => e@ == m,
                _ => false,
            },
            r is Ok ==> rem(final(self).text(), final(self).state()) <= rem(old(self).text(), old(self).state()),
        decreases rem(old(self).text(), old(self).state()), 2nat,
    {
        let ghost cs = self.text();
        let ghost st0 = self.state();
        let mut node = match self.try_factor() {
            Ok(n) => n,
            Err(e) => return Err(e),
        };
        let ghost target = p_term_loop(cs, node@, self.state());
        assert(p_term(cs, st0) == target);
        loop
            invariant
                self.wf(),
                self.text() == cs,
                cs == old(self).text(),
                st0 == old(self).state(),
                p_term(cs, st0) == target,
                p_term_loop(cs, node@, self.state()) == target,
                rem(cs, self.state()) <= rem(cs, st0),
            decreases rem(cs, self.state()),
        {
            let k = self.current_token.kind();
            if k == TokenKind::Mul || k == TokenKind::Div {
                let ghost stb = self.state();
                let op = self.current_token.duplicate();
                match self.try_eat(k) {
                    Err(e) => return Err(e),
                    Ok(()) => {},
                }
                proof {
                    lemma_eat(cs, stb, k);
                }
                let rhs = match self.try_factor() {
                    Ok(n) => n,
                    Err(e) => return Err(e),
                };
                node = AST::BinOp(Box::new(node), op, Box::new(rhs));
            } else {
                return Ok(node);
            }
        }
    }

    /// `expr : term ((PLUS | MINUS) term)*`
    /// Where the step fails, gives the message of the failure instead.
    pub fn try_expr(&mut self) -> (r: Result<AST, String>)
        requires
            old(self).wf(),
        ensures
            final(self).wf(),
            final(self).text() == old(self).text(),
            match (p_expr(old(self).text(), old(self).state()), r) {
                (Ok((n, st)), Ok(a)) => a@ == n && final(self).state() == st,
                (Err(m), Err(e)) => e@ == m,
                _ => false,
            },
            r is Ok ==> rem(final(self).text(), final(self).state()) <= rem(old(self).text(), old(self).state()),
        decreases rem(old(self).text(), old(self).state()), 4nat,
    {
        let ghost cs = self.text();
        let ghost st0 = self.state();
        let mut node = match self.try_term() {
            Ok(n) => n,
            Err(e) => return Err(e),
        };
        let ghost target = p_expr_loop(cs, node@, self.state());
        assert(p_expr(cs, st0) == target);
        loop
            invariant
                self.wf(),
                self.text() == cs,
                cs == old(self).text(),
                st0 == old(self).state(),
                p_expr(cs, st0) == target,
                p_expr_loop(cs, node@, self.state()) == target,
                rem(cs, self.state()) <= rem(cs, st0),
            decreases rem(cs, self.state()),
        {
            let k = self.current_token.kind();
            if k == TokenKind::Plus || k == TokenKind::Minus {
                let ghost stb = self.state();
                let op = self.current_token.duplicate();
                match self.try_eat(k) {
                    Err(e) => return Err(e),
                    Ok(()) => {},
                }
                proof {
                    lemma_eat(cs, stb, k);
                }
                let rhs = match self.try_term() {
                    Ok(n) => n,
                    Err(e) => return Err(e),
                };
                node = AST::BinOp(Box::new(node), op, Box::new(rhs));
            } else {
                return Ok(node);
            }
        }
    }

    /// `assignment : variable ASSIGN expr`
    /// Where the step fails, gives the message of the failure instead.
    pub fn try_assignment(&mut self) -> (r: Result<AST, String>)
        requires
            old(self).wf(),
        ensures
            final(self).wf(),
            final(self).text() == old(self).text(),
            match (p_assignment(old(self).text(), old(self).state()), r) {
                (Ok((n, st)), Ok(a)) => a@ == n && final(self).state() == st,
                (Err(m), Err(e)) => e@ == m,
                _ => false,
            },
            r is Ok ==> rem(final(self).text(), final(self).state()) <= rem(old(self).text(), old(self).state()),
    {
        let ghost cs = self.text();
        let ghost st0 = self.state();
        proof {
            lemma_eat(cs, st0, TokenKind::Id);
        }
        let left = match self.try_variable() {
            Ok(v) => v,
            Err(e) => return Err(e),
        };
        match left {
            AST::Var(name) => {
                let ghost st1 = self.state();
                match self.try_eat(TokenKind::Assign) {
                    Err(e) => return Err(e),
                    Ok(()) => {},
                }
                proof {
                    lemma_eat(cs, st1, TokenKind::Assign);
                }
                match self.try_expr() {
                    Ok(right) => Ok(AST::Assign(name, Box::new(right))),
                    Err(e) => Err(e),
                }
            },
            // `variable` only ever produces a variable.
            _ => Err(String::new()),
        }
    }

    /// `statement : compound | assignment | empty`
    /// Where the step fails, gives the message of the failure instead.
    pub fn try_statement(&mut self) -> (r: Result<AST, String>)
        requires
            old(self).wf(),
        ensures
            final(self).wf(),
            final(self).text() == old(self).text(),
            match (p_statement(old(self).text(), old(self).state()), r) {
                (Ok((n, st)), Ok(a)) => a@ == n && final(self).state() == st,
                (Err(m), Err(e)) => e@ == m,
                _ => false,
            },
            r is Ok ==> rem(final(self).text(), final(self).state()) <= rem(old(self).text(), old(self).state()),
        decreases rem(old(self).text(), old(self).state()), 2nat,
    {
        match self.current_token {
            Token::Begin => self.try_compound_statement(),
            Token::Id(_) => self.try_assignment(),
            _ => Ok(AST::NoOp),
        }
    }

    /// `statement_list : statement (SEMI statement)*`, not followed by an identifier.
    /// Where the step fails, gives the message of the failure instead.
    pub fn try_statement_list(&mut self) -> (r: Result<Vec<AST>, String>)
        requires
            old(self).wf(),
        ensures
            final(self).wf(),
            final(self).text() == old(self).text(),
            match (p_statement_list(old(self).text(), old(self).state()), r) {
                (Ok((items, st)), Ok(v)) => asts_view(v@) == items && final(self).state() == st,
                (Err(m), Err(e)) => e@ == m,
                _ => false,
            },
            r is Ok ==> rem(final(self).text(), final(self).state()) <= rem(old(self).text(), old(self).state()),
        decreases rem(old(self).text(), old(self).state()), 3nat,
    {
        let ghost cs = self.text();
        let ghost st0 = self.state();
        let first = match self.try_statement() {
            Ok(s) => s,
            Err(e) => return Err(e),
        };
        let mut results: Vec<AST> = Vec::new();
        proof {
            lemma_asts_view_push(results@, first);
        }
        results.push(first);
        assert(asts_view(results@) =~= seq![first@]);
        let ghost target = p_statement_loop(cs, asts_view(results@), self.state());
        loop
            invariant
                self.wf(),
                self.text() == cs,
                cs == old(self).text(),
                st0 == old(self).state(),
                p_statement_loop(cs, asts_view(results@), self.state()) == target,
                p_statement_list(cs, st0) == match target {
                    Err(m) => Err(m),
                    Ok((items, st2)) => if st2.cur is Id {
                        Err(missing_semicolon_error())
                    } else {
                        Ok((items, st2))
                    },
                },
                rem(cs, self.state()) <= rem(cs, st0),
            ensures
                self.wf(),
                self.text() == cs,
                p_statement_loop(cs, asts_view(results@), self.state()) == target,
                !(self.state().cur is Semi),
                rem(cs, self.state()) <= rem(cs, st0),
            decreases rem(cs, self.state()),
        {
            if self.current_token.kind() == TokenKind::Semi {
                let ghost stb = self.state();
                match self.try_eat(TokenKind::Semi) {
                    Err(e) => return Err(e),
                    Ok(()) => {},
                }
                proof {
                    lemma_eat(cs, stb, TokenKind::Semi);
                }
                let s = match self.try_statement() {
                    Ok(s) => s,
                    Err(e) => return Err(e),
                };
                proof {
                    lemma_asts_view_push(results@, s);
                }
                results.push(s);
            } else {
                break;
            }
        }
        if self.current_token.kind() == TokenKind::Id {
            return Err(String::from_str("Parser error: Unexpected identifier after statement without semicolon"));
        }
        Ok(results)
    }

    /// `compound : BEGIN statement_list END`
    /// Where the step fails, gives the message of the failure instead.
    pub fn try_compound_statement(&mut self) -> (r: Result<AST, String>)
        requires
            old(self).wf(),
        ensures
            final(self).wf(),
            final(self).text() == old(self).text(),
            match (p_compound(old(self).text(), old(self).state()), r) {
                (Ok((n, st)), Ok(a)) => a@ == n && final(self).state() == st,
                (Err(m), Err(e)) => e@ == m,
                _ => false,
            },
            r is Ok ==> rem(final(self).text(), final(self).state()) <= rem(old(self).text(), old(self).state()),
        decreases rem(old(self).text(), old(self).state()), 1nat,
    {
        let ghost cs = self.text();
        let ghost st0 = self.state();
        match self.try_eat(TokenKind::Begin) {
            Err(e) => return Err(e),
            Ok(()) => {},
        }
        proof {
            lemma_eat(cs, st0, TokenKind::Begin);
        }
        let nodes = match self.try_statement_list() {
            Ok(v) => v,
            Err(e) => return Err(e),
        };
        let ghost st2 = self.state();
        match self.try_eat(TokenKind::End) {
            Err(e) => return Err(e),
            Ok(()) => {},
        }
        proof {
            lemma_eat(cs, st2, TokenKind::End);
        }
        Ok(AST::Compound(nodes))
    }

    /// `program : compound_statement DOT`
    /// Where the step fails, gives the message of the failure instead.
    pub fn try_program(&mut self) -> (r: Result<AST, String>)
        requires
            old(self).wf(),
        ensures
            final(self).wf(),
            final(self).text() == old(self).text(),
            match (p_program(old(self).text(), old(self).state()), r) {
                (Ok((n, st)), Ok(a)) => a@ == n && final(self).state() == st,
                (Err(m), Err(e)) => e@ == m,
                _ => false,
            },
    {
        let node = match self.try_compound_statement() {
            Ok(n) => n,
            Err(e) => return Err(e),
        };
        match self.try_eat(TokenKind::Dot) {
            Err(e) => Err(e),
            Ok(()) => Ok(node),
        }
    }
}

impl Parser {
    /// A parser on the text of `lexer`, with the first token read. The text
    /// must start with a token (`try_new` reports the other case).
    pub fn new(lexer: Lexer) -> (p: Parser)
        requires
            lexer.wf(),
            lex_token(lexer.text(), lexer.position()) is Ok,
        ensures
            p.wf(),
            p.text() == lexer.text(),
            lex_token(lexer.text(), lexer.position()) == Ok::<(SToken, nat), Seq<char>>((p.state().cur, p.state().pos)),
    {
        Parser::try_new(lexer).unwrap()
    }

    /// Consumes the current token, which must be of kind `kind` and be
    /// followed by a token (`try_eat` reports the other cases).
    pub fn eat(&mut self, kind: TokenKind)
        requires
            old(self).wf(),
            p_eat(old(self).text(), old(self).state(), kind) is Ok,
        ensures
            final(self).wf(),
            final(self).text() == old(self).text(),
            p_eat(old(self).text(), old(self).state(), kind) == Ok::<PState, Seq<char>>(final(self).state()),
    {
        self.try_eat(kind).unwrap()
    }

    /// `variable : ID`, on input where it succeeds (`try_variable` reports the other cases).
    pub fn variable(&mut self) -> (a: AST)
        requires
            old(self).wf(),
            p_variable(old(self).text(), old(self).state()) is Ok,
        ensures
            final(self).wf(),
            final(self).text() == old(self).text(),
            p_variable(old(self).text(), old(self).state()) == Ok::<(SAst, PState), Seq<char>>((a@, final(self).state())),
    {
        self.try_variable().unwrap()
    }

    /// `factor`, on input where it succeeds (`try_factor` reports the other cases).
    pub fn factor(&mut self) -> (a: AST)
        requires
            old(self).wf(),
            p_factor(old(self).text(), old(self).state()) is Ok,
        ensures
            final(self).wf(),
            final(self).text() == old(self).text(),
            p_factor(old(self).text(), old(self).state()) == Ok::<(SAst, PState), Seq<char>>((a@, final(self).state())),
    {
        self.try_factor().unwrap()
    }

    /// `term`, on input where it succeeds (`try_term` reports the other cases).
    pub fn term(&mut self) -> (a: AST)
        requires
            old(self).wf(),
            p_term(old(self).text(), old(self).state()) is Ok,
        ensures
            final(self).wf(),
            final(self).text() == old(self).text(),
            p_term(old(self).text(), old(self).state()) == Ok::<(SAst, PState), Seq<char>>((a@, final(self).state())),
    {
        self.try_term().unwrap()
    }

    /// `expr`, on input where it succeeds (`try_expr` reports the other cases).
    pub fn expr(&mut self) -> (a: AST)
        requires
            old(self).wf(),
            p_expr(old(self).text(), old(self).state()) is Ok,
        ensures
            final(self).wf(),
            final(self).text() == old(self).text(),
            p_expr(old(self).text(), old(self).state()) == Ok::<(SAst, PState), Seq<char>>((a@, final(self).state())),
    {
        self.try_expr().unwrap()
    }

    /// `assignment`, on input where it succeeds (`try_assignment` reports the other cases).
    pub fn assignment(&mut self) -> (a: AST)
        requires
            old(self).wf(),
            p_assignment(old(self).text(), old(self).state()) is Ok,
        ensures
            final(self).wf(),
            final(self).text() == old(self).text(),
            p_assignment(old(self).text(), old(self).state()) == Ok::<(SAst, PState), Seq<char>>((a@, final(self).state())),
    {
        self.try_assignment().unwrap()
    }

    /// `statement`, on input where it succeeds (`try_statement` reports the other cases).
    pub fn statement(&mut self) -> (a: AST)
        requires
            old(self).wf(),
            p_statement(old(self).text(), old(self).state()) is Ok,
        ensures
            final(self).wf(),
            final(self).text() == old(self).text(),
            p_statement(old(self).text(), old(self).state()) == Ok::<(SAst, PState), Seq<char>>((a@, final(self).state())),
    {
        self.try_statement().unwrap()
    }

    /// `statement_list`, on input where it succeeds (`try_statement_list`
    /// reports the other cases).
    pub fn statement_list(&mut self) -> (v: Vec<AST>)
        requires
            old(self).wf(),
            p_statement_list(old(self).text(), old(self).state()) is Ok,
        ensures
            final(self).wf(),
            final(self).text() == old(self).text(),
            p_statement_list(old(self).text(), old(self).state()) == Ok::<(Seq<SAst>, PState), Seq<char>>(
                (asts_view(v@), final(self).state()),
            ),
    {
        self.try_statement_list().unwrap()
    }

    /// `compound`, on input where it succeeds (`try_compound_statement` reports the other cases).
    pub fn compound_statement(&mut self) -> (a: AST)
        requires
            old(self).wf(),
            p_compound(old(self).text(), old(self).state()) is Ok,
        ensures
            final(self).wf(),
            final(self).text() == old(self).text(),
            p_compound(old(self).text(), old(self).state()) == Ok::<(SAst, PState), Seq<char>>((a@, final(self).state())),
    {
        self.try_compound_statement().unwrap()
    }

    /// `program`, on input where it succeeds (`try_program` reports the other cases).
    pub fn program(&mut self) -> (a: AST)
        requires
            old(self).wf(),
            p_program(old(self).text(), old(self).state()) is Ok,
        ensures
            final(self).wf(),
            final(self).text() == old(self).text(),
            p_program(old(self).text(), old(self).state()) == Ok::<(SAst, PState), Seq<char>>((a@, final(self).state())),
    {
        self.try_program().unwrap()
    }
}

} // verus!
