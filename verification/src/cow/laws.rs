//! Properties of the COW machine that relate several instructions or steps.
use vstd::prelude::*;
use crate::text::{digit_char, digits_value, int_text, is_digit, is_white_space, nat_digits};
use crate::cow::command::{Command, command_of_code, command_of_word, tokens_from};
use crate::cow::input::{all_digits, char_input_value, integer_input_value, line_end, parse_byte, trim, trim_end, trim_start, unsigned_digits};
use crate::cow::machine::{CowState, MEMORY_SIZE, back_delta, fwd_delta, run_command, scan_back, scan_fwd, state_ok};

verus! {

/// Net loop depth change of the instructions in `[a, b)` read backwards:
/// +1 for each `moo`, -1 for each `MOO`.
pub open spec fn back_net(prog: Seq<Command>, a: int, b: int) -> int
    decreases b - a,
{
    if b <= a {
        0
    } else {
        back_net(prog, a, b - 1) + back_delta(prog[b - 1])
    }
}

/// Net loop depth change of the instructions in `[a, b)` read forwards:
/// +1 for each `MOO`, -1 for each `moo`.
pub open spec fn fwd_net(prog: Seq<Command>, a: int, b: int) -> int
    decreases b - a,
{
    if b <= a {
        0
    } else {
        fwd_delta(prog[a]) + fwd_net(prog, a + 1, b)
    }
}

proof fn lemma_back_net_front(prog: Seq<Command>, a: int, b: int)
    requires
        a < b,
    ensures
        back_net(prog, a, b) == back_delta(prog[a]) + back_net(prog, a + 1, b),
    decreases b - a,
{
    assert(back_net(prog, a, b) == back_net(prog, a, b - 1) + back_delta(prog[b - 1]));
    if a + 1 < b {
        lemma_back_net_front(prog, a, b - 1);
        assert(back_net(prog, a + 1, b) == back_net(prog, a + 1, b - 1) + back_delta(prog[b - 1]));
    } else {
        assert(back_net(prog, a, a) == 0);
        assert(back_net(prog, a + 1, b) == 0);
    }
}

proof fn lemma_scan_back(prog: Seq<Command>, pc: int, depth: int)
    requires
        depth > 0,
        0 <= pc <= prog.len(),
    ensures
        match scan_back(prog, pc, depth) {
            Some(j) => 0 <= j < pc && depth + back_net(prog, j, pc) == 0 && forall|k: int|
                j < k <= pc ==> depth + #[trigger] back_net(prog, k, pc) > 0,
            None => forall|k: int| 0 <= k <= pc ==> depth + #[trigger] back_net(prog, k, pc) > 0,
        },
    decreases pc,
{
    if pc > 0 {
        let d = depth + back_delta(prog[pc - 1]);
        assert(back_net(prog, pc, pc) == 0);
        assert(back_net(prog, pc - 1, pc - 1) == 0);
        assert(back_net(prog, pc - 1, pc) == back_delta(prog[pc - 1]));
        assert forall|k: int| k < pc implies #[trigger] back_net(prog, k, pc) == back_net(prog, k, pc - 1)
            + back_delta(prog[pc - 1]) by {}
        if d != 0 {
            lemma_scan_back(prog, pc - 1, d);
            match scan_back(prog, pc - 1, d) {
                Some(j) => {
                    assert forall|k: int| j < k <= pc implies depth + #[trigger] back_net(prog, k, pc) > 0 by {
                        if k < pc {
                            assert(d + back_net(prog, k, pc - 1) > 0);
                        }
                    }
                },
                None => {
                    assert forall|k: int| 0 <= k <= pc implies depth + #[trigger] back_net(prog, k, pc) > 0 by {
                        if k < pc {
                            assert(d + back_net(prog, k, pc - 1) > 0);
                        }
                    }
                },
            }
        }
    }
}

/// A `moo` jumps back to the `MOO` that opens its loop: the instruction found
/// is a `MOO`, the instructions strictly between are balanced, and every tail
/// of them holds at least as many `moo` as `MOO` (no earlier `MOO` closes).
/// When no position is found, every prefix of the program before the `moo`
/// is short of an opening `MOO`.
pub proof fn lemma_moo_returns_to_opening_moo(prog: Seq<Command>, pc: int)
    requires
        0 <= pc < prog.len(),
        prog[pc] == Command::moo,
    ensures
        match scan_back(prog, pc, 1) {
            Some(j) => prog[j] == Command::MOO && back_net(prog, j + 1, pc) == 0 && forall|k: int|
                j < k <= pc ==> #[trigger] back_net(prog, k, pc) >= 0,
            None => forall|k: int| 0 <= k <= pc ==> #[trigger] back_net(prog, k, pc) >= 0,
        },
{
    lemma_scan_back(prog, pc, 1);
    if let Some(j) = scan_back(prog, pc, 1) {
        lemma_back_net_front(prog, j, pc);
        if j + 1 <= pc {
            assert(1 + back_net(prog, j + 1, pc) > 0);
        }
    }
}

proof fn lemma_scan_fwd(prog: Seq<Command>, pc: int, depth: int)
    requires
        depth > 0,
        0 <= pc < prog.len(),
    ensures
        match scan_fwd(prog, pc, depth) {
            Some(j) => pc < j < prog.len() && depth + fwd_net(prog, pc + 1, j + 1) == 0 && forall|k: int|
                pc <= k < j ==> depth + #[trigger] fwd_net(prog, pc + 1, k + 1) > 0,
            None => forall|k: int| pc <= k < prog.len() ==> depth + #[trigger] fwd_net(prog, pc + 1, k + 1) > 0,
        },
    decreases prog.len() - pc,
{
    if pc + 1 < prog.len() {
        let d = depth + fwd_delta(prog[pc + 1]);
        assert(fwd_net(prog, pc + 2, pc + 2) == 0);
        assert(fwd_net(prog, pc + 1, pc + 2) == fwd_delta(prog[pc + 1]));
        if d != 0 {
            lemma_scan_fwd(prog, pc + 1, d);
            match scan_fwd(prog, pc + 1, d) {
                Some(j) => {
                    assert forall|k: int| pc <= k < j implies depth + #[trigger] fwd_net(prog, pc + 1, k + 1) > 0 by {
                        if k > pc {
                            assert(d + fwd_net(prog, pc + 2, k + 1) > 0);
                        }
                    }
                },
                None => {
                    assert forall|k: int| pc <= k < prog.len() implies depth + #[trigger] fwd_net(prog, pc + 1, k + 1) > 0 by {
                        if k > pc {
                            assert(d + fwd_net(prog, pc + 2, k + 1) > 0);
                        }
                    }
                },
            }
        }
    }
}

proof fn lemma_fwd_net_back(prog: Seq<Command>, a: int, b: int)
    requires
        a < b,
    ensures
        fwd_net(prog, a, b) == fwd_net(prog, a, b - 1) + fwd_delta(prog[b - 1]),
    decreases b - a,
{
    assert(fwd_net(prog, a, b) == fwd_delta(prog[a]) + fwd_net(prog, a + 1, b));
    if a + 1 < b {
        lemma_fwd_net_back(prog, a + 1, b);
        assert(fwd_net(prog, a, b - 1) == fwd_delta(prog[a]) + fwd_net(prog, a + 1, b - 1));
    } else {
        assert(fwd_net(prog, b, b) == 0);
        assert(fwd_net(prog, a, b - 1) == 0);
    }
}

/// A `MOO` on a zero cell skips to just after the `moo` that closes its loop:
/// the instruction found is a `moo`, the instructions strictly between are
/// balanced, and every head of them holds at least as many `MOO` as `moo`.
/// When no position is found, no `moo` after the `MOO` closes it.
pub proof fn lemma_moo_skips_to_closing_moo(prog: Seq<Command>, pc: int)
    requires
        0 <= pc < prog.len(),
        prog[pc] == Command::MOO,
    ensures
        match scan_fwd(prog, pc, 1) {
            Some(j) => prog[j] == Command::moo && fwd_net(prog, pc + 1, j) == 0 && forall|k: int|
                pc < k <= j ==> #[trigger] fwd_net(prog, pc + 1, k) >= 0,
            None => forall|k: int| pc < k <= prog.len() ==> #[trigger] fwd_net(prog, pc + 1, k) >= 0,
        },
{
    lemma_scan_fwd(prog, pc, 1);
    match scan_fwd(prog, pc, 1) {
        Some(j) => {
            lemma_fwd_net_back(prog, pc + 1, j + 1);
            assert forall|k: int| pc < k <= j implies #[trigger] fwd_net(prog, pc + 1, k) >= 0 by {
                if k > pc + 1 {
                    assert(1 + fwd_net(prog, pc + 1, (k - 1) + 1) > 0);
                }
            }
        },
        None => {
            assert forall|k: int| pc < k <= prog.len() implies #[trigger] fwd_net(prog, pc + 1, k) >= 0 by {
                if k > pc + 1 {
                    assert(1 + fwd_net(prog, pc + 1, (k - 1) + 1) > 0);
                }
            }
        },
    }
}

/// Two `MMM` in a row with an empty register copy the cell into the register
/// and back: the memory is unchanged and the register is empty again.
pub proof fn lemma_register_copy_then_paste(prog: Seq<Command>, st: CowState, line1: Seq<char>, line2: Seq<char>)
    requires
        state_ok(st),
        st.register is None,
    ensures
        match run_command(Command::MMM, prog, st, line1) {
            Ok((s1, out1)) => out1.len() == 0 && match run_command(Command::MMM, prog, s1, line2) {
                Ok((s2, out2)) => out2.len() == 0 && s2.memory == st.memory && s2.register is None
                    && s2.pointer == st.pointer && s2.pc == st.pc + 2,
                Err(_) => false,
            },
            Err(_) => false,
        },
{
    let cell = st.memory[st.pointer];
    assert(st.memory.update(st.pointer, cell) =~= st.memory);
}

/// `MoO` followed by `MOo` leaves the memory as it was, also across the
/// wrap-around between 255 and 0.
pub proof fn lemma_increment_then_decrement(prog: Seq<Command>, st: CowState, line1: Seq<char>, line2: Seq<char>)
    requires
        state_ok(st),
    ensures
        match run_command(Command::MoO, prog, st, line1) {
            Ok((s1, _)) => match run_command(Command::MOo, prog, s1, line2) {
                Ok((s2, _)) => s2.memory == st.memory && s2.pointer == st.pointer && s2.pc == st.pc + 2,
                Err(_) => false,
            },
            Err(_) => false,
        },
{
    let cell = st.memory[st.pointer];
    assert(st.memory.update(st.pointer, cell) =~= st.memory);
}

proof fn lemma_nat_digits_parse(n: nat)
    ensures
        nat_digits(n).len() > 0,
        all_digits(nat_digits(n)),
        digits_value(nat_digits(n)) == n,
    decreases n,
{
    if n >= 10 {
        lemma_nat_digits_parse(n / 10);
        let s = nat_digits(n);
        assert(s.drop_last() == nat_digits(n / 10));
        let x = (n % 10) as int;
        assert(digit_char(x) as nat == 48 + x);
        assert(digits_value(s) == digits_value(nat_digits(n / 10)) * 10 + x);
        vstd::arithmetic::div_mod::lemma_fundamental_div_mod(n as int, 10);
        assert(digits_value(s) == n);
        assert forall|i: int| 0 <= i < s.len() implies is_digit(#[trigger] s[i]) by {
            if i < s.len() - 1 {
                assert(s[i] == nat_digits(n / 10)[i]);
            }
        }
    } else {
        assert(is_digit(nat_digits(n)[0]));
        assert(digit_char(n as int) as nat == 48 + n);
        assert(nat_digits(n).drop_last().len() == 0);
        assert(digits_value(nat_digits(n).drop_last()) == 0);
        assert(nat_digits(n).last() == digit_char(n as int));
        assert(digits_value(nat_digits(n)) == n);
    }
}

/// What `OOM` prints for a cell, read back by `oom` as a line, gives the same
/// cell value.
pub proof fn lemma_printed_integer_reads_back(v: u8)
    ensures
        integer_input_value(int_text(v as int) + seq!['\n']) == v,
{
    let d = nat_digits(v as nat);
    lemma_nat_digits_parse(v as nat);
    let line = d + seq!['\n'];
    assert(is_digit(d[0]));
    assert(!is_white_space(line[0]));
    assert(trim_start(line) == line);
    assert(line.drop_last() =~= d);
    assert(is_white_space(line.last()));
    assert(is_digit(d.last()));
    assert(trim_end(d) == d);
    assert(trim_end(line) == d);
    assert(trim(line) == d);
    assert(unsigned_digits(d) == d);
}

/// Every instruction keeps the machine in a valid state: the memory keeps all
/// its cells, the pointer stays on one of them (`mOo` on the first cell and
/// `moO` on the last leave it in place) and the program counter stays
/// non-negative.
pub proof fn lemma_instruction_keeps_state_ok(cmd: Command, prog: Seq<Command>, st: CowState, line: Seq<char>)
    requires
        state_ok(st),
    ensures
        run_command(cmd, prog, st, line) matches Ok((s2, _)) ==> state_ok(s2),
    decreases (if cmd == Command::mOO {
        1int
    } else {
        0int
    }),
{
    let cell = st.memory[st.pointer];
    match cmd {
        Command::moo => {
            if st.pc <= prog.len() {
                lemma_scan_back(prog, st.pc, 1);
            }
        },
        Command::MOO => {
            if st.pc < prog.len() {
                lemma_scan_fwd(prog, st.pc, 1);
            }
        },
        Command::mOO => {
            if cell != 3 {
                if let Some(c) = command_of_code(cell) {
                    lemma_instruction_keeps_state_ok(c, prog, st, line);
                }
            }
        },
        _ => {},
    }
}

/// What `Moo` prints for a non-zero cell, read back by `Moo` on a zero cell
/// as a line, gives the same cell value.
pub proof fn lemma_printed_char_reads_back(v: u8)
    ensures
        char_input_value(seq![v as char] + seq!['\n']) == v,
{
    let line = seq![v as char] + seq!['\n'];
    assert(line[0] == v as char);
    assert((v as char) as u8 == v);
}

/// Whether `c` occurs in some instruction word.
pub open spec fn word_letter(c: char) -> bool {
    c == 'm' || c == 'o' || c == 'M' || c == 'O'
}

proof fn lemma_tokens_shift(x: Seq<char>, y: Seq<char>, k: int)
    requires
        0 <= k,
    ensures
        tokens_from(x + y, x.len() + k) == tokens_from(y, k),
    decreases y.len() - k,
{
    let s = x + y;
    let i = x.len() + k;
    if i + 2 < s.len() {
        assert(s[i] == y[k] && s[i + 1] == y[k + 1] && s[i + 2] == y[k + 2]);
        lemma_tokens_shift(x, y, k + 3);
        lemma_tokens_shift(x, y, k + 1);
    }
}

proof fn lemma_tokens_split_from(a: Seq<char>, sep: char, b: Seq<char>, i: int)
    requires
        0 <= i <= a.len() + 1,
        !word_letter(sep),
    ensures
        tokens_from(a + seq![sep] + b, i) == tokens_from(a, i) + tokens_from(b, 0),
    decreases a.len() + 1 - i,
{
    let s = a + seq![sep] + b;
    let x = a + seq![sep];
    assert(s == x + b);
    if i == a.len() + 1 {
        lemma_tokens_shift(x, b, 0);
        assert(tokens_from(a, i) =~= Seq::<Command>::empty());
        assert(Seq::<Command>::empty() + tokens_from(b, 0) =~= tokens_from(b, 0));
    } else if i + 2 < a.len() {
        assert(s[i] == a[i] && s[i + 1] == a[i + 1] && s[i + 2] == a[i + 2]);
        lemma_tokens_split_from(a, sep, b, i + 1);
        match command_of_word(a[i], a[i + 1], a[i + 2]) {
            Some(c) => {
                lemma_tokens_split_from(a, sep, b, i + 3);
                assert(seq![c] + (tokens_from(a, i + 3) + tokens_from(b, 0)) =~= (seq![c] + tokens_from(a, i
                    + 3)) + tokens_from(b, 0));
            },
            None => {},
        }
    } else {
        assert(tokens_from(a, i) =~= Seq::<Command>::empty());
        if i + 2 >= s.len() {
            assert(s.len() == a.len() + 1 + b.len());
            assert(b.len() <= 1);
            assert(tokens_from(b, 0) =~= Seq::<Command>::empty());
        } else {
            assert(s[a.len() as int] == sep);
            assert(command_of_word(s[i], s[i + 1], s[i + 2]) is None);
            lemma_tokens_split_from(a, sep, b, i + 1);
            assert(tokens_from(a, i + 1) =~= Seq::<Command>::empty());
        }
        assert(Seq::<Command>::empty() + tokens_from(b, 0) =~= tokens_from(b, 0));
    }
}

/// Two pieces of source joined by a character that occurs in no instruction
/// word give the instructions of the first piece followed by those of the
/// second.
pub proof fn lemma_tokens_of_joined_source(a: Seq<char>, sep: char, b: Seq<char>)
    requires
        !word_letter(sep),
    ensures
        tokens_from(a + seq![sep] + b, 0) == tokens_from(a, 0) + tokens_from(b, 0),
{
    lemma_tokens_split_from(a, sep, b, 0);
}

/// The COW instruction words in code order: code `k` is the `k`-th word.
pub open spec fn code_words() -> Seq<(char, char, char)> {
    seq![
        ('m', 'o', 'o'),
        ('m', 'O', 'o'),
        ('m', 'o', 'O'),
        ('m', 'O', 'O'),
        ('M', 'o', 'o'),
        ('M', 'O', 'o'),
        ('M', 'o', 'O'),
        ('M', 'O', 'O'),
        ('O', 'O', 'O'),
        ('M', 'M', 'M'),
        ('O', 'O', 'M'),
        ('o', 'o', 'm'),
    ]
}

/// The instruction with code `k` is the one spelled by the `k`-th word of
/// the list `moo mOo moO mOO Moo MOo MoO MOO OOO MMM OOM oom`, and no code
/// from 12 on names an instruction.
pub proof fn lemma_codes_follow_word_list(k: u8)
    ensures
        k < 12 ==> command_of_code(k) == command_of_word(code_words()[k as int].0, code_words()[k as int].1, code_words()[k as int].2),
        k < 12 ==> command_of_code(k) is Some,
        k >= 12 ==> command_of_code(k) is None,
{
}

/// Whether `m2` equals `m1` everywhere but at cell `p`.
pub open spec fn same_except(m1: Seq<u8>, m2: Seq<u8>, p: int) -> bool {
    m1.len() == m2.len() && forall|i: int| 0 <= i < m1.len() && i != p ==> #[trigger] m2[i] == m1[i]
}

/// `MMM` with an empty register copies the current cell into the register and
/// leaves the memory as it is; with a full register it writes the register
/// into the current cell and empties it. Either way nothing is printed and
/// execution goes on with the next instruction.
pub proof fn lemma_mmm_copies_then_pastes(prog: Seq<Command>, st: CowState, line: Seq<char>)
    requires
        state_ok(st),
    ensures
        run_command(Command::MMM, prog, st, line) matches Ok((s, out)) && out.len() == 0 && s.pointer == st.pointer
            && s.pc == st.pc + 1 && match st.register {
            None => s.memory == st.memory && s.register == Some(st.memory[st.pointer]),
            Some(r) => same_except(st.memory, s.memory, st.pointer) && s.memory[st.pointer] == r && s.register
                is None,
        },
{
}

/// What the cell instructions do to the current cell, as arithmetic modulo
/// 256: `MoO` adds one, `MOo` subtracts one, `OOO` clears it, `oom` stores
/// the integer read, `Moo` on a zero cell stores the character read. No other
/// cell, the pointer and the register stay, nothing is printed, and execution
/// goes on with the next instruction.
pub proof fn lemma_cell_instructions(prog: Seq<Command>, st: CowState, line: Seq<char>)
    requires
        state_ok(st),
    ensures
        ({
            let cell = st.memory[st.pointer] as int;
            let sets = |cmd: Command, v: int|
                run_command(cmd, prog, st, line) matches Ok((s, out)) && out.len() == 0 && same_except(
                    st.memory,
                    s.memory,
                    st.pointer,
                ) && s.memory[st.pointer] as int == v && s.pointer == st.pointer && s.register == st.register
                    && s.pc == st.pc + 1;
            &&& sets(Command::MoO, (cell + 1) % 256)
            &&& sets(Command::MOo, (cell + 255) % 256)
            &&& sets(Command::OOO, 0)
            &&& sets(Command::oom, integer_input_value(line) as int)
            &&& cell == 0 ==> sets(Command::Moo, char_input_value(line) as int)
        }),
{
}

/// The printing instructions: `OOM` prints the cell in decimal, `Moo` on a
/// non-zero cell prints the character with the cell's code; the machine
/// state is unchanged but for the next instruction.
pub proof fn lemma_print_instructions(prog: Seq<Command>, st: CowState, line: Seq<char>)
    requires
        state_ok(st),
    ensures
        run_command(Command::OOM, prog, st, line) matches Ok((s, out)) && out == int_text(
            st.memory[st.pointer] as int,
        ) && s.memory == st.memory && s.pointer == st.pointer && s.register == st.register && s.pc == st.pc + 1,
        st.memory[st.pointer] != 0 ==> (run_command(Command::Moo, prog, st, line) matches Ok((s, out)) && out.len()
            == 1 && out[0] as int == st.memory[st.pointer] as int && s.memory == st.memory && s.pointer == st.pointer
            && s.register == st.register && s.pc == st.pc + 1),
{
}

/// `mOo` moves the pointer one cell left and `moO` one cell right, staying on
/// the first and last cell; the memory and the register are unchanged.
pub proof fn lemma_pointer_moves(prog: Seq<Command>, st: CowState, line: Seq<char>)
    requires
        state_ok(st),
    ensures
        run_command(Command::mOo, prog, st, line) matches Ok((s, out)) && out.len() == 0 && s.memory == st.memory
            && s.register == st.register && s.pc == st.pc + 1 && s.pointer == (if st.pointer == 0 {
            0
        } else {
            st.pointer - 1
        }),
        run_command(Command::moO, prog, st, line) matches Ok((s, out)) && out.len() == 0 && s.memory == st.memory
            && s.register == st.register && s.pc == st.pc + 1 && s.pointer == (if st.pointer == MEMORY_SIZE - 1 {
            st.pointer
        } else {
            st.pointer + 1
        }),
{
}

/// `mOO` runs the instruction whose code is in the current cell and then goes
/// on with the instruction after itself; code 3 (itself) and codes from 12 on
/// are errors.
pub proof fn lemma_code_dispatch(prog: Seq<Command>, st: CowState, line: Seq<char>)
    requires
        state_ok(st),
    ensures
        ({
            let cell = st.memory[st.pointer];
            &&& (cell == 3 || cell >= 12) ==> run_command(Command::mOO, prog, st, line) is Err
            &&& (cell < 12 && cell != 3) ==> {
                let c = command_of_code(cell)->Some_0;
                &&& command_of_code(cell) is Some
                &&& (run_command(Command::mOO, prog, st, line) is Ok <==> run_command(c, prog, st, line) is Ok)
                &&& run_command(c, prog, st, line) matches Ok((s, out)) ==> run_command(Command::mOO, prog, st, line)
                    == Ok::<(CowState, Seq<char>), crate::cow::machine::CowError>((CowState { pc: st.pc + 1, ..s }, out))
            }
        }),
{
}

/// The decimal digits of a number read back as that number.
pub proof fn lemma_digits_read_back(n: nat)
    ensures
        all_digits(nat_digits(n)),
        digits_value(nat_digits(n)) == n,
{
    lemma_nat_digits_parse(n);
}

/// A read takes the input up to and including the next newline, or the rest
/// of the input when no newline follows.
pub proof fn lemma_line_end_stops_after_newline(input: Seq<char>, pos: int)
    requires
        0 <= pos <= input.len(),
    ensures
        pos <= line_end(input, pos) <= input.len(),
        forall|i: int| pos <= i < line_end(input, pos) - 1 ==> #[trigger] input[i] != '\n',
        line_end(input, pos) == input.len() || input[line_end(input, pos) - 1] == '\n',
        line_end(input, pos) > pos && input[line_end(input, pos) - 1] != '\n' ==> line_end(input, pos) == input.len(),
    decreases input.len() - pos,
{
    if pos < input.len() && input[pos] != '\n' {
        lemma_line_end_stops_after_newline(input, pos + 1);
    }
}

/// A decimal number read as a byte gives that number when it is at most 255
/// and nothing otherwise.
pub proof fn lemma_parse_byte_range(n: nat)
    ensures
        n <= 255 ==> parse_byte(nat_digits(n)) == Some(n as u8),
        n > 255 ==> parse_byte(nat_digits(n)) is None,
{
    lemma_nat_digits_parse(n);
    let d = nat_digits(n);
    assert(is_digit(d[0]));
    assert(unsigned_digits(d) == d);
}

/// The decimal text of an integer: a minus sign and the digits of its
/// magnitude for a negative value, the digits of the value otherwise.
pub proof fn lemma_int_text_reads_back(i: int)
    ensures
        i < 0 ==> int_text(i)[0] == '-' && all_digits(int_text(i).drop_first()) && digits_value(int_text(i).drop_first())
            == -i,
        i >= 0 ==> all_digits(int_text(i)) && digits_value(int_text(i)) == i && int_text(i).len() > 0,
{
    if i < 0 {
        lemma_nat_digits_parse((-i) as nat);
        assert(int_text(i).drop_first() =~= nat_digits((-i) as nat));
    } else {
        lemma_nat_digits_parse(i as nat);
    }
}

/// Trimming removes exactly the whitespace at both ends: what is left is a
/// piece of the line that neither starts nor ends with whitespace, and only
/// whitespace stands around it.
pub proof fn lemma_trim_removes_outer_whitespace(s: Seq<char>)
    ensures
        exists|a: int, b: int|
            0 <= a <= b <= s.len() && #[trigger] s.subrange(a, b) == trim(s) && (forall|i: int|
                0 <= i < a ==> is_white_space(#[trigger] s[i])) && (forall|i: int| b <= i < s.len() ==> is_white_space(
                #[trigger] s[i],
            )) && (a < b ==> !is_white_space(s[a]) && !is_white_space(s[b - 1])),
{
    let a = lemma_trim_start_shape(s);
    let t = s.subrange(a, s.len() as int);
    let k = lemma_trim_end_shape(t);
    assert(t.subrange(0, k) =~= s.subrange(a, a + k));
    assert forall|i: int| a + k <= i < s.len() implies is_white_space(#[trigger] s[i]) by {
        assert(s[i] == t[i - a]);
    }
    if k > 0 {
        assert(s[a] == t[0]);
        assert(s[a + k - 1] == t[k - 1]);
    }
    assert(s.subrange(a, a + k) == trim(s));
}

proof fn lemma_trim_start_shape(s: Seq<char>) -> (a: int)
    ensures
        0 <= a <= s.len(),
        trim_start(s) == s.subrange(a, s.len() as int),
        forall|i: int| 0 <= i < a ==> is_white_space(#[trigger] s[i]),
        a < s.len() ==> !is_white_space(s[a]),
    decreases s.len(),
{
    if s.len() > 0 && is_white_space(s[0]) {
        let a1 = lemma_trim_start_shape(s.drop_first());
        assert(s.drop_first().subrange(a1, s.drop_first().len() as int) =~= s.subrange(a1 + 1, s.len() as int));
        assert forall|i: int| 0 <= i < a1 + 1 implies is_white_space(#[trigger] s[i]) by {
            if i > 0 {
                assert(s[i] == s.drop_first()[i - 1]);
            }
        }
        a1 + 1
    } else {
        assert(s.subrange(0, s.len() as int) =~= s);
        0
    }
}

proof fn lemma_trim_end_shape(s: Seq<char>) -> (k: int)
    ensures
        0 <= k <= s.len(),
        trim_end(s) == s.subrange(0, k),
        forall|i: int| k <= i < s.len() ==> is_white_space(#[trigger] s[i]),
        k > 0 ==> !is_white_space(s[k - 1]),
    decreases s.len(),
{
    if s.len() > 0 && is_white_space(s.last()) {
        let k1 = lemma_trim_end_shape(s.drop_last());
        assert(s.drop_last().subrange(0, k1) =~= s.subrange(0, k1));
        assert forall|i: int| k1 <= i < s.len() implies is_white_space(#[trigger] s[i]) by {
            if i < s.len() - 1 {
                assert(s[i] == s.drop_last()[i]);
            }
        }
        k1
    } else {
        assert(s.subrange(0, s.len() as int) =~= s);
        s.len() as int
    }
}

} // verus!
