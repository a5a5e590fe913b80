//! The lexer of the Pascal subset: it turns characters into tokens on demand.
use vstd::prelude::*;
use crate::text::{chars_of, digits_value, is_digit, is_white_space, push_char, str_eq, string_of_chars, white_space};
use crate::pascal::token::{SToken, Token};

verus! {

/// Whether `c` has the Unicode `Alphabetic` property (`char::is_alphabetic`).
pub uninterp spec fn unicode_alphabetic(c: char) -> bool;

/// Whether `c` is alphabetic or numeric in Unicode (`char::is_alphanumeric`).
pub uninterp spec fn unicode_alphanumeric(c: char) -> bool;

/// The Unicode uppercase mapping of a string (`str::to_uppercase`).
pub uninterp spec fn unicode_uppercase(s: Seq<char>) -> Seq<char>;

/// Whether `c` is an ASCII letter.
pub open spec fn is_ascii_letter(c: char) -> bool {
    ('a' <= c <= 'z') || ('A' <= c <= 'Z')
}

/// Whether every character of `s` is ASCII.
pub open spec fn all_ascii(s: Seq<char>) -> bool {
    forall|i: int| 0 <= i < s.len() ==> #[trigger] s[i] <= '\u{7f}'
}

/// The uppercase form of an ASCII character: `a`..`z` become `A`..`Z`,
/// every other character stays.
pub open spec fn ascii_upper(c: char) -> char {
    if 'a' <= c <= 'z' {
        ((c as int) - 32) as char
    } else {
        c
    }
}

/// Whether `c` is alphabetic (`char::is_alphabetic`): for ASCII exactly the
/// letters, beyond ASCII the Unicode `Alphabetic` property.
pub open spec fn alphabetic_char(c: char) -> bool {
    if c <= '\u{7f}' {
        is_ascii_letter(c)
    } else {
        unicode_alphabetic(c)
    }
}

/// Whether `c` is alphanumeric (`char::is_alphanumeric`): for ASCII exactly
/// the letters and digits, beyond ASCII the Unicode classes.
pub open spec fn alphanumeric_char(c: char) -> bool {
    if c <= '\u{7f}' {
        is_ascii_letter(c) || is_digit(c)
    } else {
        unicode_alphanumeric(c)
    }
}

/// The uppercase form of a string (`str::to_uppercase`): for an ASCII string
/// each letter is uppercased, otherwise the Unicode case mapping.
pub open spec fn uppercase_text(s: Seq<char>) -> Seq<char> {
    if all_ascii(s) {
        s.map_values(|c: char| ascii_upper(c))
    } else {
        unicode_uppercase(s)
    }
}

/// Calls `char::is_alphabetic`. Claimed: the result is the named
/// `unicode_alphabetic` of `c`, and among ASCII characters exactly the
/// letters are alphabetic (std answers ASCII characters by that match before
/// consulting its Unicode tables).
#[verifier::external_body]
fn is_alphabetic(c: char) -> (r: bool)
    ensures
        r == unicode_alphabetic(c),
        c <= '\u{7f}' ==> (r <==> is_ascii_letter(c)),
{
    c.is_alphabetic()
}

/// Calls `char::is_alphanumeric`. Claimed: the result is the named
/// `unicode_alphanumeric` of `c`, and among ASCII characters exactly the
/// letters and digits are alphanumeric.
#[verifier::external_body]
fn is_alphanumeric(c: char) -> (r: bool)
    ensures
        r == unicode_alphanumeric(c),
        c <= '\u{7f}' ==> (r <==> (is_ascii_letter(c) || is_digit(c))),
{
    c.is_alphanumeric()
}

/// Calls `str::to_uppercase`. Claimed: the result is the named
/// `unicode_uppercase` of `s`, and an ASCII string comes back with `a`..`z`
/// turned into `A`..`Z` and every other character kept (the Unicode
/// uppercase mapping of ASCII characters); beyond ASCII the mapping is not
/// stated.
#[verifier::external_body]
fn to_uppercase(s: &str) -> (r: String)
    ensures
        r@ == unicode_uppercase(s@),
        all_ascii(s@) ==> r@ == s@.map_values(|c: char| ascii_upper(c)),
{
    s.to_uppercase()
}

/// The message for a `:` that does not start `:=`.
pub open spec fn colon_error_text() -> Seq<char> {
    "Lexer error: Unexpected token ':' expected ':='"@
}

/// The message for a character that starts no token.
pub open spec fn char_error_text(c: char) -> Seq<char> {
    "Lexer error: Unexpected character: "@.push(c)
}

/// The message for an integer literal beyond the 32-bit range.
pub open spec fn int_overflow_text() -> Seq<char> {
    "called `Result::unwrap()` on an `Err` value: ParseIntError { kind: PosOverflow }"@
}

/// The message for an integer read where no digit stands.
pub open spec fn int_empty_text() -> Seq<char> {
    "called `Result::unwrap()` on an `Err` value: ParseIntError { kind: Empty }"@
}

/// The first position at or after `pos` that holds no whitespace.
pub open spec fn skip_ws(cs: Seq<char>, pos: nat) -> nat
    decreases cs.len() - pos,
{
    if pos < cs.len() && is_white_space(cs[pos as int]) {
        skip_ws(cs, pos + 1)
    } else {
        pos
    }
}

/// The end of the run of ASCII digits starting at `pos`.
pub open spec fn digits_end(cs: Seq<char>, pos: nat) -> nat
    decreases cs.len() - pos,
{
    if pos < cs.len() && is_digit(cs[pos as int]) {
        digits_end(cs, pos + 1)
    } else {
        pos
    }
}

/// The end of the run of identifier characters (alphanumeric or `_`) starting at `pos`.
pub open spec fn ident_tail_end(cs: Seq<char>, pos: nat) -> nat
    decreases cs.len() - pos,
{
    if pos < cs.len() && (alphanumeric_char(cs[pos as int]) || cs[pos as int] == '_') {
        ident_tail_end(cs, pos + 1)
    } else {
        pos
    }
}

/// The integer literal starting at `pos` and the position after it.
pub open spec fn lex_integer(cs: Seq<char>, pos: nat) -> Result<(i32, nat), Seq<char>> {
    let end = digits_end(cs, pos);
    let v = digits_value(cs.subrange(pos as int, end as int));
    if end == pos {
        Err(int_empty_text())
    } else if v <= i32::MAX {
        Ok((v as i32, end))
    } else {
        Err(int_overflow_text())
    }
}

/// The token of a word: `BEGIN` and `END` in any case are keywords, any
/// other word is an identifier.
pub open spec fn word_token(name: Seq<char>) -> SToken {
    let upper = uppercase_text(name);
    if upper == "BEGIN"@ {
        SToken::Begin
    } else if upper == "END"@ {
        SToken::End
    } else {
        SToken::Id(name)
    }
}

/// The end of the first character of a word at `pos`: one past it when it is
/// alphabetic or `_`, otherwise `pos` itself.
pub open spec fn word_head_end(cs: Seq<char>, pos: nat) -> nat {
    if pos < cs.len() && (alphabetic_char(cs[pos as int]) || cs[pos as int] == '_') {
        pos + 1
    } else {
        pos
    }
}

/// The word starting at `pos` and the position after it: an alphabetic
/// character or `_`, then any alphanumeric characters and `_`.
pub open spec fn lex_word(cs: Seq<char>, pos: nat) -> (SToken, nat) {
    let end = ident_tail_end(cs, word_head_end(cs, pos));
    (word_token(cs.subrange(pos as int, end as int)), end)
}

/// The word starting at `pos`, which holds an ASCII letter or `_`.
pub open spec fn lex_ascii_word(cs: Seq<char>, pos: nat) -> (SToken, nat) {
    let end = ident_tail_end(cs, pos + 1);
    (word_token(cs.subrange(pos as int, end as int)), end)
}

/// The next token at or after `pos` and the position after it.
pub open spec fn lex_token(cs: Seq<char>, pos: nat) -> Result<(SToken, nat), Seq<char>> {
    let p = skip_ws(cs, pos);
    if p >= cs.len() {
        Ok((SToken::Eof, p))
    } else {
        let c = cs[p as int];
        if is_digit(c) {
            match lex_integer(cs, p) {
                Ok((v, end)) => Ok((SToken::Integer(v), end)),
                Err(m) => Err(m),
            }
        } else if is_ascii_letter(c) || c == '_' {
            Ok(lex_ascii_word(cs, p))
        } else if c == '+' {
            Ok((SToken::Plus, p + 1))
        } else if c == '-' {
            Ok((SToken::Minus, p + 1))
        } else if c == '*' {
            Ok((SToken::Mul, p + 1))
        } else if c == '/' {
            Ok((SToken::Div, p + 1))
        } else if c == '(' {
            Ok((SToken::LParen, p + 1))
        } else if c == ')' {
            Ok((SToken::RParen, p + 1))
        } else if c == ';' {
            Ok((SToken::Semi, p + 1))
        } else if c == '.' {
            Ok((SToken::Dot, p + 1))
        } else if c == ':' {
            if p + 1 < cs.len() && cs[(p + 1) as int] == '=' {
                Ok((SToken::Assign, p + 2))
            } else {
                Err(colon_error_text())
            }
        } else {
            Err(char_error_text(c))
        }
    }
}

proof fn lemma_skip_ws(cs: Seq<char>, pos: nat)
    ensures
        pos <= skip_ws(cs, pos),
        pos <= cs.len() ==> skip_ws(cs, pos) <= cs.len(),
    decreases cs.len() - pos,
{
    if pos < cs.len() && is_white_space(cs[pos as int]) {
        lemma_skip_ws(cs, pos + 1);
    }
}

proof fn lemma_digits_end(cs: Seq<char>, pos: nat)
    ensures
        pos <= digits_end(cs, pos),
        pos <= cs.len() ==> digits_end(cs, pos) <= cs.len(),
    decreases cs.len() - pos,
{
    if pos < cs.len() && is_digit(cs[pos as int]) {
        lemma_digits_end(cs, pos + 1);
    }
}

proof fn lemma_ident_tail_end(cs: Seq<char>, pos: nat)
    ensures
        pos <= ident_tail_end(cs, pos),
        pos <= cs.len() ==> ident_tail_end(cs, pos) <= cs.len(),
    decreases cs.len() - pos,
{
    if pos < cs.len() && (alphanumeric_char(cs[pos as int]) || cs[pos as int] == '_') {
        lemma_ident_tail_end(cs, pos + 1);
    }
}

/// Every token but the end marker consumes at least one character, and the
/// lexer never moves backwards or past the end of its text.
pub proof fn lemma_lex_progress(cs: Seq<char>, pos: nat)
    ensures
        match lex_token(cs, pos) {
            Ok((t, p)) => pos <= p && (pos <= cs.len() ==> p <= cs.len()) && (!(t is Eof) ==> pos
                < p <= cs.len()),
            Err(_) => true,
        },
{
    let p = skip_ws(cs, pos);
    lemma_skip_ws(cs, pos);
    if p < cs.len() {
        lemma_digits_end(cs, p);
        lemma_digits_end(cs, p + 1);
        lemma_ident_tail_end(cs, p + 1);
    }
}

/// The lexer: a text and the position of the next character to read.
pub struct Lexer {
    chars: Vec<char>,
    pos: usize,
}

impl Lexer {
    /// The text being read.
    pub closed spec fn text(&self) -> Seq<char> {
        self.chars@
    }

    /// The position of the next character.
    pub closed spec fn position(&self) -> nat {
        self.pos as nat
    }

    /// The position lies within the text.
    pub closed spec fn wf(&self) -> bool {
        self.pos <= self.chars.len()
    }

    /// A lexer at the start of `input`.
    pub fn new(input: &str) -> (l: Lexer)
        ensures
            l.wf(),
            l.text() == input@,
            l.position() == 0,
    {
        Lexer { chars: chars_of(input), pos: 0 }
    }

    /// Skips whitespace.
    pub fn skip_whitespace(&mut self)
        requires
            old(self).wf(),
        ensures
            final(self).wf(),
            final(self).text() == old(self).text(),
            final(self).position() == skip_ws(old(self).text(), old(self).position()),
    {
        while self.pos < self.chars.len() && white_space(self.chars[self.pos])
            invariant
                self.pos <= self.chars.len(),
                self.chars@ == old(self).chars@,
                skip_ws(self.chars@, self.pos as nat) == skip_ws(old(self).chars@, old(self).pos as nat),
            decreases self.chars.len() - self.pos,
        {
            self.pos = self.pos + 1;
        }
    }

    /// Reads the integer literal at the current position.
    /// Where the step fails, gives the message of the failure instead.
    pub fn try_integer(&mut self) -> (r: Result<i32, String>)
        requires
            old(self).wf(),
        ensures
            final(self).wf(),
            final(self).text() == old(self).text(),
            match (lex_integer(old(self).text(), old(self).position()), r) {
                (Ok((v, end)), Ok(x)) => x == v && final(self).position() == end,
                (Err(m), Err(e)) => e@ == m,
                _ => false,
            },
    {
        let start = self.pos;
        let mut value: u64 = 0;
        let mut overflow = false;
        while self.pos < self.chars.len() && '0' <= self.chars[self.pos] && self.chars[self.pos] <= '9'
            invariant
                start <= self.pos <= self.chars.len(),
                self.chars@ == old(self).chars@,
                start == old(self).pos,
                digits_end(self.chars@, self.pos as nat) == digits_end(self.chars@, start as nat),
                !overflow ==> value <= i32::MAX && value as nat == digits_value(self.chars@.subrange(start as int, self.pos as int)),
                overflow ==> digits_value(self.chars@.subrange(start as int, self.pos as int)) > i32::MAX,
            decreases self.chars.len() - self.pos,
        {
            let c = self.chars[self.pos];
            let d = (c as u64) - 48;
            let ghost old_pos = self.pos;
            let ghost prefix = self.chars@.subrange(start as int, old_pos as int);
            assert(self.chars@.subrange(start as int, old_pos + 1).drop_last() =~= prefix);
            assert(digits_value(self.chars@.subrange(start as int, old_pos + 1)) == digits_value(prefix) * 10 + d);
            if !overflow {
                let next = value * 10 + d;
                if next > 0x7fff_ffff {
                    overflow = true;
                } else {
                    value = next;
                }
            }
            self.pos = self.pos + 1;
        }
        if self.pos == start {
            Err(String::from_str("called `Result::unwrap()` on an `Err` value: ParseIntError { kind: Empty }"))
        } else if overflow {
            Err(String::from_str("called `Result::unwrap()` on an `Err` value: ParseIntError { kind: PosOverflow }"))
        } else {
            Ok(value as i32)
        }
    }

    /// Reads the word at the current position: an alphabetic character or `_`,
    /// then any alphanumeric characters and `_`.
    pub fn id(&mut self) -> (t: Token)
        requires
            old(self).wf(),
        ensures
            final(self).wf(),
            final(self).text() == old(self).text(),
            (t@, final(self).position()) == lex_word(old(self).text(), old(self).position()),
            old(self).position() < old(self).text().len() && (is_ascii_letter(
                old(self).text()[old(self).position() as int],
            ) || old(self).text()[old(self).position() as int] == '_') ==> (t@, final(self).position())
                == lex_ascii_word(old(self).text(), old(self).position()),
    {
        let start = self.pos;
        let mut name: Vec<char> = Vec::new();
        if self.pos < self.chars.len() {
            let c = self.chars[self.pos];
            if is_alphabetic(c) || c == '_' {
                name.push(c);
                self.pos = self.pos + 1;
            }
        }
        let head = self.pos;
        assert(head == word_head_end(self.chars@, start as nat));
        assert(name@ =~= self.chars@.subrange(start as int, self.pos as int));
        while self.pos < self.chars.len() && (is_alphanumeric(self.chars[self.pos]) || self.chars[self.pos] == '_')
            invariant
                start <= head <= self.pos <= self.chars.len(),
                self.chars@ == old(self).chars@,
                start == old(self).pos,
                head == word_head_end(self.chars@, start as nat),
                name@ == self.chars@.subrange(start as int, self.pos as int),
                ident_tail_end(self.chars@, self.pos as nat) == ident_tail_end(self.chars@, head as nat),
            decreases self.chars.len() - self.pos,
        {
            name.push(self.chars[self.pos]);
            self.pos = self.pos + 1;
            assert(name@ =~= self.chars@.subrange(start as int, self.pos as int));
        }
        let word = string_of_chars(&name);
        let upper = to_uppercase(word.as_str());
        if str_eq(upper.as_str(), "BEGIN") {
            Token::Begin
        } else if str_eq(upper.as_str(), "END") {
            Token::End
        } else {
            Token::Id(word)
        }
    }

    /// Reads the next token.
    /// Where the step fails, gives the message of the failure instead.
    pub fn try_get_next_token(&mut self) -> (r: Result<Token, String>)
        requires
            old(self).wf(),
        ensures
            final(self).wf(),
            final(self).text() == old(self).text(),
            match (lex_token(old(self).text(), old(self).position()), r) {
                (Ok((t, p)), Ok(tok)) => tok@ == t && final(self).position() == p,
                (Err(m), Err(e)) => e@ == m,
                _ => false,
            },
    {
        self.skip_whitespace();
        if self.pos >= self.chars.len() {
            return Ok(Token::Eof);
        }
        let c = self.chars[self.pos];
        if '0' <= c && c <= '9' {
            match self.try_integer() {
                Ok(v) => Ok(Token::Integer(v)),
                Err(e) => Err(e),
            }
        } else if ('a' <= c && c <= 'z') || ('A' <= c && c <= 'Z') || c == '_' {
            Ok(self.id())
        } else if c == '+' {
            self.pos = self.pos + 1;
            Ok(Token::Plus)
        } else if c == '-' {
            self.pos = self.pos + 1;
            Ok(Token::Minus)
        } else if c == '*' {
            self.pos = self.pos + 1;
            Ok(Token::Mul)
        } else if c == '/' {
            self.pos = self.pos + 1;
            Ok(Token::Div)
        } else if c == '(' {
            self.pos = self.pos + 1;
            Ok(Token::LParen)
        } else if c == ')' {
            self.pos = self.pos + 1;
            Ok(Token::RParen)
        } else if c == ';' {
            self.pos = self.pos + 1;
            Ok(Token::Semi)
        } else if c == '.' {
            self.pos = self.pos + 1;
            Ok(Token::Dot)
        } else if c == ':' {
            self.pos = self.pos + 1;
            if self.pos < self.chars.len() && self.chars[self.pos] == '=' {
                self.pos = self.pos + 1;
                Ok(Token::Assign)
            } else {
                Err(String::from_str("Lexer error: Unexpected token ':' expected ':='"))
            }
        } else {
            let mut m = String::from_str("Lexer error: Unexpected character: ");
            push_char(&mut m, c);
            Err(m)
        }
    }
}

impl Lexer {
    /// Reads the integer literal at the current position. The literal must be
    /// there and fit in 32 bits (`try_integer` reports the other cases).
    pub fn integer(&mut self) -> (v: i32)
        requires
            old(self).wf(),
            lex_integer(old(self).text(), old(self).position()) is Ok,
        ensures
            final(self).wf(),
            final(self).text() == old(self).text(),
            lex_integer(old(self).text(), old(self).position()) == Ok::<(i32, nat), Seq<char>>(
                (v, final(self).position()),
            ),
    {
        self.try_integer().unwrap()
    }

    /// Reads the next token. The text from the current position must start
    /// with a token (`try_get_next_token` reports the other cases).
    pub fn get_next_token(&mut self) -> (t: Token)
        requires
            old(self).wf(),
            lex_token(old(self).text(), old(self).position()) is Ok,
        ensures
            final(self).wf(),
            final(self).text() == old(self).text(),
            lex_token(old(self).text(), old(self).position()) == Ok::<(SToken, nat), Seq<char>>(
                (t@, final(self).position()),
            ),
    {
        self.try_get_next_token().unwrap()
    }
}

} // verus!
