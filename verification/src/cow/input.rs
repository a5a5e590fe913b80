//! How COW reads its input: one line per read, interpreted either as a
//! character or as a decimal byte.
use vstd::prelude::*;
use crate::text::{digits_value, is_digit, is_white_space, white_space};

verus! {

/// The end of the line that starts at `pos`: just after the next newline, or
/// the end of the input.
pub open spec fn line_end(input: Seq<char>, pos: int) -> int
    decreases input.len() - pos,
{
    if pos >= input.len() {
        input.len() as int
    } else if input[pos] == '\n' {
        pos + 1
    } else {
        line_end(input, pos + 1)
    }
}

/// `s` without leading whitespace.
pub open spec fn trim_start(s: Seq<char>) -> Seq<char>
    decreases s.len(),
{
    if s.len() > 0 && is_white_space(s[0]) {
        trim_start(s.drop_first())
    } else {
        s
    }
}

/// `s` without trailing whitespace.
pub open spec fn trim_end(s: Seq<char>) -> Seq<char>
    decreases s.len(),
{
    if s.len() > 0 && is_white_space(s.last()) {
        trim_end(s.drop_last())
    } else {
        s
    }
}

/// `s` without leading and trailing whitespace.
pub open spec fn trim(s: Seq<char>) -> Seq<char> {
    trim_end(trim_start(s))
}

/// `s` without one leading `+` sign.
pub open spec fn unsigned_digits(s: Seq<char>) -> Seq<char> {
    if s.len() > 0 && s[0] == '+' {
        s.drop_first()
    } else {
        s
    }
}

/// Whether every character of `s` is a decimal digit.
pub open spec fn all_digits(s: Seq<char>) -> bool {
    forall|i: int| 0 <= i < s.len() ==> is_digit(#[trigger] s[i])
}

/// The byte written as `s` in decimal: an optional `+`, at least one digit,
/// a value of at most 255 (what `str::parse::<u8>` accepts).
pub open spec fn parse_byte(s: Seq<char>) -> Option<u8> {
    let digits = unsigned_digits(s);
    if digits.len() > 0 && all_digits(digits) && digits_value(digits) <= 255 {
        Some(digits_value(digits) as u8)
    } else {
        None
    }
}

/// The byte a line gives when read as a character: its first character,
/// truncated to 8 bits, or 0 for an empty line.
pub open spec fn char_input_value(line: Seq<char>) -> u8 {
    if line.len() == 0 {
        0
    } else {
        line[0] as u8
    }
}

/// The byte a line gives when read as an integer: the trimmed line parsed as
/// a byte, or 0 when it does not parse.
pub open spec fn integer_input_value(line: Seq<char>) -> u8 {
    match parse_byte(trim(line)) {
        Some(v) => v,
        None => 0,
    }
}

/// The end of the line starting at `pos`.
pub fn next_line_end(input: &Vec<char>, pos: usize) -> (end: usize)
    requires
        pos <= input.len(),
    ensures
        end == line_end(input@, pos as int),
        pos <= end <= input.len(),
{
    let mut i = pos;
    while i < input.len() && input[i] != '\n'
        invariant
            pos <= i <= input.len(),
            line_end(input@, i as int) == line_end(input@, pos as int),
        decreases input.len() - i,
    {
        i = i + 1;
    }
    if i < input.len() {
        i + 1
    } else {
        i
    }
}

proof fn lemma_trim_start_suffix(s: Seq<char>, i: int)
    requires
        0 <= i <= s.len(),
        forall|j: int| 0 <= j < i ==> is_white_space(#[trigger] s[j]),
    ensures
        trim_start(s) == trim_start(s.subrange(i, s.len() as int)),
    decreases i,
{
    if i > 0 {
        assert(s.drop_first().subrange(i - 1, s.drop_first().len() as int) =~= s.subrange(i, s.len() as int));
        lemma_trim_start_suffix(s.drop_first(), i - 1);
    } else {
        assert(s.subrange(0, s.len() as int) =~= s);
    }
}

proof fn lemma_trim_end_prefix(s: Seq<char>, k: int)
    requires
        0 <= k <= s.len(),
        forall|j: int| k <= j < s.len() ==> is_white_space(#[trigger] s[j]),
    ensures
        trim_end(s) == trim_end(s.subrange(0, k)),
    decreases s.len() - k,
{
    if k < s.len() {
        assert(s.drop_last().subrange(0, k) =~= s.subrange(0, k));
        lemma_trim_end_prefix(s.drop_last(), k);
    } else {
        assert(s.subrange(0, k) =~= s);
    }
}

/// The byte value of reading `line` as a character.
pub fn read_char(line: &Vec<char>) -> (v: u8)
    ensures
        v == char_input_value(line@),
{
    if line.len() == 0 {
        0
    } else {
        line[0] as u8
    }
}

/// The byte value of reading `line` as an integer.
pub fn read_integer(line: &Vec<char>) -> (v: u8)
    ensures
        v == integer_input_value(line@),
{
    let n = line.len();
    let mut start: usize = 0;
    while start < n && white_space(line[start])
        invariant
            n == line.len(),
            start <= n,
            forall|j: int| 0 <= j < start ==> is_white_space(#[trigger] line@[j]),
        decreases n - start,
    {
        start = start + 1;
    }
    proof {
        lemma_trim_start_suffix(line@, start as int);
    }
    let ghost rest = line@.subrange(start as int, n as int);
    assert(start < n ==> !is_white_space(rest[0]));
    assert(trim_start(rest) == rest) by {
        if rest.len() > 0 {
            assert(!is_white_space(rest[0]));
        }
    }
    let mut end: usize = n;
    while end > start && white_space(line[end - 1])
        invariant
            start <= end <= n,
            n == line.len(),
            rest == line@.subrange(start as int, n as int),
            forall|j: int| end - start <= j < rest.len() ==> is_white_space(#[trigger] rest[j]),
        decreases end,
    {
        end = end - 1;
    }
    proof {
        lemma_trim_end_prefix(rest, end - start);
        let t = rest.subrange(0, end - start);
        assert(t =~= line@.subrange(start as int, end as int));
        if t.len() > 0 {
            assert(!is_white_space(t.last()));
        }
        assert(trim_end(t) == t);
    }
    let ghost t = line@.subrange(start as int, end as int);
    assert(trim(line@) == t);
    // optional sign
    let mut i = start;
    if i < end && line[i] == '+' {
        i = i + 1;
    }
    let ghost digits = line@.subrange(i as int, end as int);
    assert(digits == unsigned_digits(t));
    if i == end {
        return 0;
    }
    let mut value: u32 = 0;
    let mut j = i;
    while j < end
        invariant
            start <= i <= j <= end <= n,
            n == line.len(),
            digits == line@.subrange(i as int, end as int),
            t == line@.subrange(start as int, end as int),
            trim(line@) == t,
            digits == unsigned_digits(t),
            digits.len() > 0,
            forall|k: int| i <= k < j ==> is_digit(#[trigger] line@[k]),
            value as nat == digits_value(line@.subrange(i as int, j as int)),
            value <= 255,
        decreases end - j,
    {
        let c = line[j];
        if !('0' <= c && c <= '9') {
            assert(digits[j - i] == line@[j as int]);
            assert(!is_digit(digits[j - i]));
            assert(parse_byte(t) is None);
            return 0;
        }
        assert(line@.subrange(i as int, j + 1).drop_last() =~= line@.subrange(i as int, j as int));
        let d = (c as u32) - 48;
        let next = value * 10 + d;
        assert(digits_value(line@.subrange(i as int, j + 1)) == next);
        if next > 255 {
            proof {
                assert(digits.subrange(0, j + 1 - i) =~= line@.subrange(i as int, j + 1));
                if all_digits(digits) {
                    lemma_digits_value_prefix_bound(digits, j + 1 - i);
                }
            }
            assert(parse_byte(t) is None);
            return 0;
        }
        value = next;
        j = j + 1;
    }
    assert(line@.subrange(i as int, end as int) == digits);
    assert forall|k: int| 0 <= k < digits.len() implies is_digit(#[trigger] digits[k]) by {
        assert(digits[k] == line@[i + k]);
    }
    value as u8
}

/// A longer digit string never has a smaller value than its prefix.
proof fn lemma_digits_value_prefix_bound(s: Seq<char>, k: int)
    requires
        0 <= k <= s.len(),
        forall|j: int| 0 <= j < s.len() ==> is_digit(#[trigger] s[j]),
    ensures
        digits_value(s.subrange(0, k)) <= digits_value(s),
    decreases s.len() - k,
{
    if k < s.len() {
        let t = s.drop_last();
        assert(t.subrange(0, k) =~= s.subrange(0, k));
        assert forall|j: int| 0 <= j < t.len() implies is_digit(#[trigger] t[j]) by {
            assert(t[j] == s[j]);
        }
        lemma_digits_value_prefix_bound(t, k);
        assert(is_digit(s[s.len() - 1]));
    } else {
        assert(s.subrange(0, k) =~= s);
    }
}

} // verus!
