//! The twelve COW instructions and the tokenizer of COW source text.
use vstd::prelude::*;
use crate::text::chars_of;

verus! {

/// A COW instruction, named by its three-letter word.
#[derive(PartialEq, Eq, Structural, Clone, Copy, Debug)]
pub enum Command {
    /// Jump back to the matching `MOO`.
    moo,
    /// Move the memory pointer one cell left.
    mOo,
    /// Move the memory pointer one cell right.
    moO,
    /// Execute the instruction whose code is in the current cell.
    mOO,
    /// Read a character into a zero cell, or print the cell as a character.
    Moo,
    /// Decrement the current cell.
    MOo,
    /// Increment the current cell.
    MoO,
    /// Skip past the matching `moo` when the current cell is zero.
    MOO,
    /// Set the current cell to zero.
    OOO,
    /// Copy the cell into the register, or the register into the cell.
    MMM,
    /// Print the cell as a decimal integer.
    OOM,
    /// Read a decimal integer into the cell.
    oom,
}

/// The instruction spelled by three characters, if any.
pub open spec fn command_of_word(a: char, b: char, c: char) -> Option<Command> {
    if a == 'm' && b == 'o' && c == 'o' {
        Some(Command::moo)
    } else if a == 'm' && b == 'O' && c == 'o' {
        Some(Command::mOo)
    } else if a == 'm' && b == 'o' && c == 'O' {
        Some(Command::moO)
    } else if a == 'm' && b == 'O' && c == 'O' {
        Some(Command::mOO)
    } else if a == 'M' && b == 'o' && c == 'o' {
        Some(Command::Moo)
    } else if a == 'M' && b == 'O' && c == 'o' {
        Some(Command::MOo)
    } else if a == 'M' && b == 'o' && c == 'O' {
        Some(Command::MoO)
    } else if a == 'M' && b == 'O' && c == 'O' {
        Some(Command::MOO)
    } else if a == 'O' && b == 'O' && c == 'O' {
        Some(Command::OOO)
    } else if a == 'M' && b == 'M' && c == 'M' {
        Some(Command::MMM)
    } else if a == 'O' && b == 'O' && c == 'M' {
        Some(Command::OOM)
    } else if a == 'o' && b == 'o' && c == 'm' {
        Some(Command::oom)
    } else {
        None
    }
}

/// The instruction with the given numeric code (0 to 11, in declaration order).
pub open spec fn command_of_code(code: u8) -> Option<Command> {
    match code {
        0 => Some(Command::moo),
        1 => Some(Command::mOo),
        2 => Some(Command::moO),
        3 => Some(Command::mOO),
        4 => Some(Command::Moo),
        5 => Some(Command::MOo),
        6 => Some(Command::MoO),
        7 => Some(Command::MOO),
        8 => Some(Command::OOO),
        9 => Some(Command::MMM),
        10 => Some(Command::OOM),
        11 => Some(Command::oom),
        _ => None,
    }
}

/// The instructions found in `text` from position `i` on: an instruction word
/// is taken whole and scanning resumes after it; any other character is
/// skipped.
pub open spec fn tokens_from(text: Seq<char>, i: int) -> Seq<Command>
    decreases text.len() - i,
{
    if i < 0 || i + 2 >= text.len() {
        Seq::empty()
    } else {
        match command_of_word(text[i], text[i + 1], text[i + 2]) {
            Some(c) => seq![c] + tokens_from(text, i + 3),
            None => tokens_from(text, i + 1),
        }
    }
}

/// Recognizes an instruction word.
pub fn word_command(a: char, b: char, c: char) -> (r: Option<Command>)
    ensures
        r == command_of_word(a, b, c),
{
    if a == 'm' && b == 'o' && c == 'o' {
        Some(Command::moo)
    } else if a == 'm' && b == 'O' && c == 'o' {
        Some(Command::mOo)
    } else if a == 'm' && b == 'o' && c == 'O' {
        Some(Command::moO)
    } else if a == 'm' && b == 'O' && c == 'O' {
        Some(Command::mOO)
    } else if a == 'M' && b == 'o' && c == 'o' {
        Some(Command::Moo)
    } else if a == 'M' && b == 'O' && c == 'o' {
        Some(Command::MOo)
    } else if a == 'M' && b == 'o' && c == 'O' {
        Some(Command::MoO)
    } else if a == 'M' && b == 'O' && c == 'O' {
        Some(Command::MOO)
    } else if a == 'O' && b == 'O' && c == 'O' {
        Some(Command::OOO)
    } else if a == 'M' && b == 'M' && c == 'M' {
        Some(Command::MMM)
    } else if a == 'O' && b == 'O' && c == 'M' {
        Some(Command::OOM)
    } else if a == 'o' && b == 'o' && c == 'm' {
        Some(Command::oom)
    } else {
        None
    }
}

/// The instruction with the given numeric code.
pub fn code_command(code: u8) -> (r: Option<Command>)
    ensures
        r == command_of_code(code),
{
    match code {
        0 => Some(Command::moo),
        1 => Some(Command::mOo),
        2 => Some(Command::moO),
        3 => Some(Command::mOO),
        4 => Some(Command::Moo),
        5 => Some(Command::MOo),
        6 => Some(Command::MoO),
        7 => Some(Command::MOO),
        8 => Some(Command::OOO),
        9 => Some(Command::MMM),
        10 => Some(Command::OOM),
        11 => Some(Command::oom),
        _ => None,
    }
}

/// Extracts the instructions of a COW program, skipping all other text.
pub fn parse_code(code: &str) -> (tokens: Vec<Command>)
    ensures
        tokens@ == tokens_from(code@, 0),
{
    let chars = chars_of(code);
    let mut tokens: Vec<Command> = Vec::new();
    let mut i: usize = 0;
    while i < chars.len() && chars.len() - i > 2
        invariant
            chars@ == code@,
            tokens@ + tokens_from(chars@, i as int) == tokens_from(chars@, 0),
        decreases chars.len() - i,
    {
        match word_command(chars[i], chars[i + 1], chars[i + 2]) {
            Some(c) => {
                assert(tokens_from(chars@, i as int) == seq![c] + tokens_from(chars@, i + 3));
                assert(tokens@.push(c) + tokens_from(chars@, i + 3) =~= tokens@ + (seq![c]
                    + tokens_from(chars@, i + 3)));
                tokens.push(c);
                i = i + 3;
            },
            None => {
                i = i + 1;
            },
        }
    }
    assert(tokens_from(chars@, i as int) == Seq::<Command>::empty());
    assert(tokens@ + Seq::<Command>::empty() =~= tokens@);
    tokens
}

} // verus!
