//! Properties of the Pascal subset that relate several functions or calls.
use vstd::prelude::*;
use crate::pascal::token::SToken;
use crate::pascal::ast::SAst;
use crate::pascal::parser::{
    PState, lemma_eat, p_compound, p_eat, p_expr, p_expr_loop, p_factor, p_statement, p_statement_list,
    p_statement_loop, p_term, p_term_loop, p_variable, p_assignment, rem,
};
use crate::pascal::interp::{binary_result, eval, eval_seq, unary_result};
use crate::text::{is_digit, is_white_space};
use crate::pascal::lexer::{
    all_ascii, alphanumeric_char, ascii_upper, colon_error_text, digits_end, ident_tail_end, lex_token, skip_ws, uppercase_text,
    word_token,
};

verus! {

/// Running `a` then `b` is running `a` and then `b` on the variables `a` left.
pub proof fn lemma_statements_compose(a: Seq<SAst>, b: Seq<SAst>, vars: Map<Seq<char>, i32>)
    ensures
        eval_seq(a + b, vars) == match eval_seq(a, vars) {
            Ok(m) => eval_seq(b, m),
            Err(e) => Err(e),
        },
    decreases a.len(),
{
    if a.len() == 0 {
        assert(a + b =~= b);
    } else {
        assert((a + b)[0] == a[0]);
        assert((a + b).subrange(1, (a + b).len() as int) =~= a.subrange(1, a.len() as int) + b);
        match eval(a[0], vars) {
            Err(_) => {},
            Ok((_, m1)) => {
                lemma_statements_compose(a.subrange(1, a.len() as int), b, m1);
            },
        }
    }
}

/// A nested `BEGIN ... END` block opens no scope: its statements run as if
/// they stood in the enclosing list.
pub proof fn lemma_nested_block_flattens(a: Seq<SAst>, b: Seq<SAst>, vars: Map<Seq<char>, i32>)
    ensures
        eval_seq(seq![SAst::Compound(a)] + b, vars) == eval_seq(a + b, vars),
{
    let s = seq![SAst::Compound(a)] + b;
    assert(s[0] == SAst::Compound(a));
    assert(s.subrange(1, s.len() as int) =~= b);
    lemma_statements_compose(a, b, vars);
    assert(eval(SAst::Compound(a), vars) == match eval_seq(a, vars) {
        Ok(m1) => Ok::<(i32, Map<Seq<char>, i32>), Seq<char>>((0, m1)),
        Err(m) => Err(m),
    });
    assert(eval_seq(s, vars) == match eval(s[0], vars) {
        Err(m) => Err(m),
        Ok((_, m1)) => eval_seq(s.subrange(1, s.len() as int), m1),
    });
}

/// After `name := e`, reading `name` gives the value of `e`, and every other
/// variable is as `e` left it.
pub proof fn lemma_assigned_variable_reads_back(name: Seq<char>, e: SAst, vars: Map<Seq<char>, i32>)
    requires
        eval(e, vars) is Ok,
    ensures
        ({
            let (v, m) = eval(e, vars)->Ok_0;
            &&& eval(SAst::Assign(name, Box::new(e)), vars) == Ok::<(i32, Map<Seq<char>, i32>), Seq<char>>((0, m.insert(name, v)))
            &&& eval(SAst::Var(name), m.insert(name, v)) == Ok::<(i32, Map<Seq<char>, i32>), Seq<char>>((v, m.insert(name, v)))
            &&& forall|k: Seq<char>| k != name ==> (m.insert(name, v).contains_key(k) == m.contains_key(k))
        }),
{
}

/// `factor` never leaves more input than it found.
pub proof fn lemma_factor_progress(cs: Seq<char>, st: PState)
    ensures
        p_factor(cs, st) matches Ok((_, st2)) ==> rem(cs, st2) <= rem(cs, st),
    decreases rem(cs, st), 0nat,
{
    match st.cur {
        SToken::Plus | SToken::Minus | SToken::Integer(_) | SToken::LParen | SToken::Id(_) => {
            lemma_eat(cs, st, crate::pascal::token::kind_of(st.cur));
            if let Ok(st1) = p_eat(cs, st, crate::pascal::token::kind_of(st.cur)) {
                match st.cur {
                    SToken::Plus | SToken::Minus => {
                        lemma_factor_progress(cs, st1);
                    },
                    SToken::LParen => {
                        lemma_expr_progress(cs, st1);
                        if let Ok((_, st2)) = p_expr(cs, st1) {
                            lemma_eat(cs, st2, crate::pascal::token::TokenKind::RParen);
                        }
                    },
                    _ => {},
                }
            }
        },
        _ => {},
    }
}

/// The rest of a term never leaves more input than it found.
pub proof fn lemma_term_loop_progress(cs: Seq<char>, node: SAst, st: PState)
    ensures
        p_term_loop(cs, node, st) matches Ok((_, st2)) ==> rem(cs, st2) <= rem(cs, st),
    decreases rem(cs, st), 1nat,
{
    if st.cur is Mul || st.cur is Div {
        lemma_eat(cs, st, crate::pascal::token::kind_of(st.cur));
        if let Ok(st1) = p_eat(cs, st, crate::pascal::token::kind_of(st.cur)) {
            lemma_factor_progress(cs, st1);
            if let Ok((rhs, st2)) = p_factor(cs, st1) {
                lemma_term_loop_progress(cs, SAst::BinOp(Box::new(node), st.cur, Box::new(rhs)), st2);
            }
        }
    }
}

/// `term` never leaves more input than it found.
pub proof fn lemma_term_progress(cs: Seq<char>, st: PState)
    ensures
        p_term(cs, st) matches Ok((_, st2)) ==> rem(cs, st2) <= rem(cs, st),
    decreases rem(cs, st), 2nat,
{
    lemma_factor_progress(cs, st);
    if let Ok((node, st1)) = p_factor(cs, st) {
        lemma_term_loop_progress(cs, node, st1);
    }
}

/// The rest of an expression never leaves more input than it found.
pub proof fn lemma_expr_loop_progress(cs: Seq<char>, node: SAst, st: PState)
    ensures
        p_expr_loop(cs, node, st) matches Ok((_, st2)) ==> rem(cs, st2) <= rem(cs, st),
    decreases rem(cs, st), 3nat,
{
    if st.cur is Plus || st.cur is Minus {
        lemma_eat(cs, st, crate::pascal::token::kind_of(st.cur));
        if let Ok(st1) = p_eat(cs, st, crate::pascal::token::kind_of(st.cur)) {
            lemma_term_progress(cs, st1);
            if let Ok((rhs, st2)) = p_term(cs, st1) {
                lemma_expr_loop_progress(cs, SAst::BinOp(Box::new(node), st.cur, Box::new(rhs)), st2);
            }
        }
    }
}

/// `expr` never leaves more input than it found.
pub proof fn lemma_expr_progress(cs: Seq<char>, st: PState)
    ensures
        p_expr(cs, st) matches Ok((_, st2)) ==> rem(cs, st2) <= rem(cs, st),
    decreases rem(cs, st), 4nat,
{
    lemma_term_progress(cs, st);
    if let Ok((node, st1)) = p_term(cs, st) {
        lemma_expr_loop_progress(cs, node, st1);
    }
}

/// The expression parsers satisfy the grammar's equations without their
/// progress checks: a term is a factor followed by the rest of a term, an
/// expression a term followed by the rest of an expression, and each rest
/// goes on after one more operator and operand.
pub proof fn lemma_expression_equations(cs: Seq<char>, node: SAst, st: PState)
    ensures
        p_term(cs, st) == match p_factor(cs, st) {
            Err(m) => Err(m),
            Ok((n, st1)) => p_term_loop(cs, n, st1),
        },
        p_expr(cs, st) == match p_term(cs, st) {
            Err(m) => Err(m),
            Ok((n, st1)) => p_expr_loop(cs, n, st1),
        },
        (st.cur is Mul || st.cur is Div) ==> p_term_loop(cs, node, st) == match p_eat(cs, st, crate::pascal::token::kind_of(st.cur)) {
            Err(m) => Err(m),
            Ok(st1) => match p_factor(cs, st1) {
                Err(m) => Err(m),
                Ok((rhs, st2)) => p_term_loop(cs, SAst::BinOp(Box::new(node), st.cur, Box::new(rhs)), st2),
            },
        },
        (st.cur is Plus || st.cur is Minus) ==> p_expr_loop(cs, node, st) == match p_eat(cs, st, crate::pascal::token::kind_of(st.cur)) {
            Err(m) => Err(m),
            Ok(st1) => match p_term(cs, st1) {
                Err(m) => Err(m),
                Ok((rhs, st2)) => p_expr_loop(cs, SAst::BinOp(Box::new(node), st.cur, Box::new(rhs)), st2),
            },
        },
{
    lemma_factor_progress(cs, st);
    lemma_term_progress(cs, st);
    lemma_eat(cs, st, crate::pascal::token::kind_of(st.cur));
    if let Ok(st1) = p_eat(cs, st, crate::pascal::token::kind_of(st.cur)) {
        lemma_factor_progress(cs, st1);
        lemma_term_progress(cs, st1);
    }
}

/// `assignment` never leaves more input than it found.
pub proof fn lemma_assignment_progress(cs: Seq<char>, st: PState)
    ensures
        p_assignment(cs, st) matches Ok((_, st2)) ==> rem(cs, st2) <= rem(cs, st),
{
    lemma_eat(cs, st, crate::pascal::token::TokenKind::Id);
    if let Ok((SAst::Var(_), st1)) = p_variable(cs, st) {
        lemma_eat(cs, st1, crate::pascal::token::TokenKind::Assign);
        if let Ok(st2) = p_eat(cs, st1, crate::pascal::token::TokenKind::Assign) {
            lemma_expr_progress(cs, st2);
        }
    }
}

/// The rest of a statement list never leaves more input than it found.
pub proof fn lemma_statement_loop_progress(cs: Seq<char>, items: Seq<SAst>, st: PState)
    ensures
        p_statement_loop(cs, items, st) matches Ok((_, st2)) ==> rem(cs, st2) <= rem(cs, st),
    decreases rem(cs, st), 0nat,
{
    if st.cur is Semi {
        lemma_eat(cs, st, crate::pascal::token::TokenKind::Semi);
        if let Ok(st1) = p_eat(cs, st, crate::pascal::token::TokenKind::Semi) {
            lemma_statement_progress(cs, st1);
            if let Ok((s, st2)) = p_statement(cs, st1) {
                lemma_statement_loop_progress(cs, items.push(s), st2);
            }
        }
    }
}

/// `statement_list` never leaves more input than it found.
pub proof fn lemma_statement_list_progress(cs: Seq<char>, st: PState)
    ensures
        p_statement_list(cs, st) matches Ok((_, st2)) ==> rem(cs, st2) <= rem(cs, st),
    decreases rem(cs, st), 3nat,
{
    lemma_statement_progress(cs, st);
    if let Ok((s, st1)) = p_statement(cs, st) {
        lemma_statement_loop_progress(cs, seq![s], st1);
    }
}

/// `statement` never leaves more input than it found.
pub proof fn lemma_statement_progress(cs: Seq<char>, st: PState)
    ensures
        p_statement(cs, st) matches Ok((_, st2)) ==> rem(cs, st2) <= rem(cs, st),
    decreases rem(cs, st), 2nat,
{
    match st.cur {
        SToken::Begin => lemma_compound_progress(cs, st),
        SToken::Id(_) => lemma_assignment_progress(cs, st),
        _ => {},
    }
}

/// `compound` never leaves more input than it found.
pub proof fn lemma_compound_progress(cs: Seq<char>, st: PState)
    ensures
        p_compound(cs, st) matches Ok((_, st2)) ==> rem(cs, st2) <= rem(cs, st),
    decreases rem(cs, st), 1nat,
{
    lemma_eat(cs, st, crate::pascal::token::TokenKind::Begin);
    if let Ok(st1) = p_eat(cs, st, crate::pascal::token::TokenKind::Begin) {
        lemma_statement_list_progress(cs, st1);
        if let Ok((_, st2)) = p_statement_list(cs, st1) {
            lemma_eat(cs, st2, crate::pascal::token::TokenKind::End);
        }
    }
}

/// The statement parsers satisfy the grammar's equations without their
/// progress checks: a statement list is a statement followed by the rest of
/// the list (and no identifier), and each rest goes on after one more `;`
/// and statement.
pub proof fn lemma_statement_equations(cs: Seq<char>, items: Seq<SAst>, st: PState)
    ensures
        p_statement_list(cs, st) == match p_statement(cs, st) {
            Err(m) => Err(m),
            Ok((s, st1)) => match p_statement_loop(cs, seq![s], st1) {
                Err(m) => Err(m),
                Ok((list, st2)) => if st2.cur is Id {
                    Err(crate::pascal::parser::missing_semicolon_error())
                } else {
                    Ok((list, st2))
                },
            },
        },
        st.cur is Semi ==> p_statement_loop(cs, items, st) == match p_eat(cs, st, crate::pascal::token::TokenKind::Semi) {
            Err(m) => Err(m),
            Ok(st1) => match p_statement(cs, st1) {
                Err(m) => Err(m),
                Ok((s, st2)) => p_statement_loop(cs, items.push(s), st2),
            },
        },
{
    lemma_statement_progress(cs, st);
    lemma_eat(cs, st, crate::pascal::token::TokenKind::Semi);
    if let Ok(st1) = p_eat(cs, st, crate::pascal::token::TokenKind::Semi) {
        lemma_statement_progress(cs, st1);
    }
}

/// Keywords ignore case: two words with the same uppercase form are the same
/// keyword, or both identifiers.
pub proof fn lemma_keywords_ignore_case(a: Seq<char>, b: Seq<char>)
    requires
        uppercase_text(a) == uppercase_text(b),
    ensures
        word_token(a) is Begin <==> word_token(b) is Begin,
        word_token(a) is End <==> word_token(b) is End,
        word_token(a) is Id <==> word_token(b) is Id,
{
}

/// An empty statement (as between two `;`) changes nothing.
pub proof fn lemma_empty_statement_does_nothing(b: Seq<SAst>, vars: Map<Seq<char>, i32>)
    ensures
        eval_seq(seq![SAst::NoOp] + b, vars) == eval_seq(b, vars),
{
    let s = seq![SAst::NoOp] + b;
    assert(s[0] == SAst::NoOp);
    assert(s.subrange(1, s.len() as int) =~= b);
    assert(eval(SAst::NoOp, vars) == Ok::<(i32, Map<Seq<char>, i32>), Seq<char>>((0, vars)));
    assert(eval_seq(s, vars) == match eval(s[0], vars) {
        Err(m) => Err(m),
        Ok((_, m1)) => eval_seq(s.subrange(1, s.len() as int), m1),
    });
}

/// The four operators compute the sum, difference, product and quotient
/// rounded toward zero of their operands, and fail exactly when the result
/// leaves the 32-bit range or the divisor is zero.
pub proof fn lemma_binary_arithmetic(l: i32, r: i32)
    ensures
        binary_result(SToken::Plus, l, r) is Ok <==> i32::MIN <= l + r <= i32::MAX,
        binary_result(SToken::Plus, l, r) matches Ok(v) ==> v == l + r,
        binary_result(SToken::Minus, l, r) is Ok <==> i32::MIN <= l - r <= i32::MAX,
        binary_result(SToken::Minus, l, r) matches Ok(v) ==> v == l - r,
        binary_result(SToken::Mul, l, r) is Ok <==> i32::MIN <= l * r <= i32::MAX,
        binary_result(SToken::Mul, l, r) matches Ok(v) ==> v == l * r,
        binary_result(SToken::Div, l, r) is Ok <==> (r != 0 && !(l == i32::MIN && r == -1)),
        binary_result(SToken::Div, l, r) matches Ok(q) ==> {
            let rem = l - q * r;
            &&& -abs_of(r) < rem < abs_of(r)
            &&& (rem == 0 || (rem < 0) == (l < 0))
        },
{
    if r != 0 && !(l == i32::MIN && r == -1) {
        let q = crate::arith::trunc_div(l as int, r as int);
        let a = if l >= 0 { l as int } else { -(l as int) };
        let d = r as int;
        assert(a == d * (a / d) + a % d && 0 <= a % d < abs_of(r)) by (nonlinear_arith)
            requires
                d != 0,
                a >= 0,
                abs_of(r) == (if d >= 0 { d } else { -d }),
        ;
        if l >= 0 {
            assert(l - q * r == a % d) by (nonlinear_arith)
                requires
                    q == a / d,
                    a == l,
                    d == r,
                    a == d * (a / d) + a % d,
            ;
        } else {
            assert(l - q * r == -(a % d)) by (nonlinear_arith)
                requires
                    q == -(a / d),
                    a == -l,
                    d == r,
                    a == d * (a / d) + a % d,
            ;
        }
        assert(i32::MIN <= q <= i32::MAX) by (nonlinear_arith)
            requires
                q == (if l >= 0 { a / d } else { -(a / d) }),
                0 <= a <= 0x8000_0000,
                d != 0,
                !(a == 0x8000_0000 && d == -1 && l < 0),
                a == d * (a / d) + a % d,
                0 <= a % d,
                a % d < (if d >= 0 { d } else { -d }),
                l >= 0 ==> a <= 0x7fff_ffff,
        ;
    }
}

/// The absolute value of a 32-bit integer.
pub open spec fn abs_of(x: i32) -> int {
    if x < 0 {
        -(x as int)
    } else {
        x as int
    }
}

/// Unary `+` keeps its operand and unary `-` negates it, failing only on the
/// one value whose negation leaves the 32-bit range.
pub proof fn lemma_unary_arithmetic(v: i32)
    ensures
        unary_result(SToken::Plus, v) == Ok::<i32, Seq<char>>(v),
        unary_result(SToken::Minus, v) is Ok <==> v != i32::MIN,
        unary_result(SToken::Minus, v) matches Ok(x) ==> x == -v,
{
}

/// Skipping whitespace stops at the first character from `pos` on that is not
/// whitespace (or at the end), and passes only whitespace.
pub proof fn lemma_skip_ws_skips_exactly_whitespace(cs: Seq<char>, pos: nat)
    requires
        pos <= cs.len(),
    ensures
        pos <= skip_ws(cs, pos) <= cs.len(),
        forall|i: int| pos <= i < skip_ws(cs, pos) ==> is_white_space(#[trigger] cs[i]),
        skip_ws(cs, pos) < cs.len() ==> !is_white_space(cs[skip_ws(cs, pos) as int]),
    decreases cs.len() - pos,
{
    if pos < cs.len() && is_white_space(cs[pos as int]) {
        lemma_skip_ws_skips_exactly_whitespace(cs, pos + 1);
    }
}

/// An integer literal runs over exactly the ASCII digits from `pos` on.
pub proof fn lemma_digits_end_covers_exactly_digits(cs: Seq<char>, pos: nat)
    requires
        pos <= cs.len(),
    ensures
        pos <= digits_end(cs, pos) <= cs.len(),
        forall|i: int| pos <= i < digits_end(cs, pos) ==> is_digit(#[trigger] cs[i]),
        digits_end(cs, pos) < cs.len() ==> !is_digit(cs[digits_end(cs, pos) as int]),
    decreases cs.len() - pos,
{
    if pos < cs.len() && is_digit(cs[pos as int]) {
        lemma_digits_end_covers_exactly_digits(cs, pos + 1);
    }
}

/// The rest of a word runs over exactly the alphanumeric characters and `_`
/// from `pos` on.
pub proof fn lemma_word_tail_covers_exactly_word_chars(cs: Seq<char>, pos: nat)
    requires
        pos <= cs.len(),
    ensures
        pos <= ident_tail_end(cs, pos) <= cs.len(),
        forall|i: int|
            pos <= i < ident_tail_end(cs, pos) ==> alphanumeric_char(#[trigger] cs[i]) || cs[i] == '_',
        ident_tail_end(cs, pos) < cs.len() ==> !(alphanumeric_char(cs[ident_tail_end(cs, pos) as int]) || cs[ident_tail_end(
            cs,
            pos,
        ) as int] == '_'),
    decreases cs.len() - pos,
{
    if pos < cs.len() && (alphanumeric_char(cs[pos as int]) || cs[pos as int] == '_') {
        lemma_word_tail_covers_exactly_word_chars(cs, pos + 1);
    }
}

/// The operator and punctuation characters each make their own token, read
/// at the first non-whitespace position; `:` makes a token only together
/// with a following `=`.
pub proof fn lemma_punctuation_tokens(cs: Seq<char>, pos: nat)
    requires
        skip_ws(cs, pos) < cs.len(),
    ensures
        ({
            let p = skip_ws(cs, pos);
            let c = cs[p as int];
            let one = |t: SToken| lex_token(cs, pos) == Ok::<(SToken, nat), Seq<char>>((t, (p + 1) as nat));
            &&& c == '+' ==> one(SToken::Plus)
            &&& c == '-' ==> one(SToken::Minus)
            &&& c == '*' ==> one(SToken::Mul)
            &&& c == '/' ==> one(SToken::Div)
            &&& c == '(' ==> one(SToken::LParen)
            &&& c == ')' ==> one(SToken::RParen)
            &&& c == ';' ==> one(SToken::Semi)
            &&& c == '.' ==> one(SToken::Dot)
            &&& c == ':' && p + 1 < cs.len() && cs[(p + 1) as int] == '=' ==> lex_token(cs, pos) == Ok::<
                (SToken, nat),
                Seq<char>,
            >((SToken::Assign, (p + 2) as nat))
            &&& c == ':' && !(p + 1 < cs.len() && cs[(p + 1) as int] == '=') ==> lex_token(cs, pos) == Err::<
                (SToken, nat),
                Seq<char>,
            >(colon_error_text())
        }),
{
}

/// An ASCII word is the keyword `BEGIN` or `END` when its letters, uppercased,
/// spell it, whatever their case, and an identifier with its own spelling
/// otherwise.
pub proof fn lemma_keyword_spellings(w: Seq<char>)
    requires
        all_ascii(w),
    ensures
        word_token(w) == (if w.map_values(|c: char| ascii_upper(c)) == "BEGIN"@ {
            SToken::Begin
        } else if w.map_values(|c: char| ascii_upper(c)) == "END"@ {
            SToken::End
        } else {
            SToken::Id(w)
        }),
{
}

} // verus!
