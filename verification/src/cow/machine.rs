//! The COW machine: memory, pointer, register and program counter, and what
//! each instruction does to them.
use vstd::prelude::*;
use crate::text::{int_text, nat_digits, push_int, push_nat, push_char};
use crate::cow::command::{Command, command_of_code, code_command};
use crate::cow::input::{char_input_value, integer_input_value, read_char, read_integer};

verus! {

/// Number of memory cells.
pub const MEMORY_SIZE: usize = 30000;

/// Why a COW program stops with an error.
#[derive(PartialEq, Eq, Structural, Clone, Copy, Debug)]
pub enum CowError {
    /// A `moo` without an opening `MOO` before it.
    UnmatchedMoo,
    /// A `MOO` on a zero cell without a closing `moo` after it.
    UnmatchedMOO,
    /// `mOO` on a cell holding 3, which would run `mOO` again.
    CodeThree,
    /// `mOO` on a cell holding no instruction code.
    UnknownCode(u8),
}

/// The message of an error.
pub open spec fn error_text(e: CowError) -> Seq<char> {
    match e {
        CowError::UnmatchedMoo => "Loop error: unmatched 'moo'"@,
        CowError::UnmatchedMOO => "Loop error: unmatched 'MOO'"@,
        CowError::CodeThree => "Infinite Loop Error (code 3 in mOO)"@,
        CowError::UnknownCode(code) => "Unknown command code: "@ + nat_digits(code as nat),
    }
}

impl CowError {
    /// The message of the error.
    pub fn message(&self) -> (m: String)
        ensures
            m@ == error_text(*self),
    {
        match self {
            CowError::UnmatchedMoo => String::from_str("Loop error: unmatched 'moo'"),
            CowError::UnmatchedMOO => String::from_str("Loop error: unmatched 'MOO'"),
            CowError::CodeThree => String::from_str("Infinite Loop Error (code 3 in mOO)"),
            CowError::UnknownCode(code) => {
                let mut m = String::from_str("Unknown command code: ");
                push_nat(&mut m, *code as u64);
                m
            },
        }
    }
}

/// The state of the machine as values.
pub struct CowState {
    pub memory: Seq<u8>,
    pub pointer: int,
    pub register: Option<u8>,
    pub pc: int,
}

/// The state at program start: all cells zero, pointer, counter at 0, empty register.
pub open spec fn initial_state() -> CowState {
    CowState { memory: Seq::new(MEMORY_SIZE as nat, |i: int| 0u8), pointer: 0, register: None, pc: 0 }
}

/// A state the machine can be in: full memory, pointer on a cell.
pub open spec fn state_ok(st: CowState) -> bool {
    st.memory.len() == MEMORY_SIZE && 0 <= st.pointer < MEMORY_SIZE && st.pc >= 0
}

/// How an instruction changes the loop depth when scanning backwards.
pub open spec fn back_delta(c: Command) -> int {
    if c == Command::moo {
        1
    } else if c == Command::MOO {
        -1
    } else {
        0
    }
}

/// How an instruction changes the loop depth when scanning forwards.
pub open spec fn fwd_delta(c: Command) -> int {
    -back_delta(c)
}

/// Scanning backwards from `pc` with loop depth `depth`: the first position
/// where the depth drops to zero.
pub open spec fn scan_back(prog: Seq<Command>, pc: int, depth: int) -> Option<int>
    decreases pc,
{
    if pc <= 0 || pc > prog.len() {
        None
    } else {
        let d = depth + back_delta(prog[pc - 1]);
        if d == 0 {
            Some(pc - 1)
        } else {
            scan_back(prog, pc - 1, d)
        }
    }
}

/// Scanning forwards from `pc` with loop depth `depth`: the first position
/// where the depth drops to zero.
pub open spec fn scan_fwd(prog: Seq<Command>, pc: int, depth: int) -> Option<int>
    decreases prog.len() - pc,
{
    if pc < -1 || pc + 1 >= prog.len() {
        None
    } else {
        let d = depth + fwd_delta(prog[pc + 1]);
        if d == 0 {
            Some(pc + 1)
        } else {
            scan_fwd(prog, pc + 1, d)
        }
    }
}

/// `st` moved to the next instruction.
pub open spec fn advance(st: CowState) -> CowState {
    CowState { pc: st.pc + 1, ..st }
}

/// `st` with the current cell set to `v`.
pub open spec fn with_cell(st: CowState, v: u8) -> CowState {
    CowState { memory: st.memory.update(st.pointer, v), ..st }
}

/// Whether instruction `cmd` reads a line of input when the current cell holds `cell`.
pub open spec fn reads_line(cmd: Command, cell: u8) -> bool {
    (cmd == Command::Moo && cell == 0) || cmd == Command::oom || (cmd == Command::mOO && cell == 11)
}

/// Executes `cmd` at position `st.pc` of `prog`; `line` is the input line it
/// reads, if it reads one. Gives the new state and the text printed.
pub open spec fn run_command(cmd: Command, prog: Seq<Command>, st: CowState, line: Seq<char>) -> Result<
    (CowState, Seq<char>),
    CowError,
>
    decreases (if cmd == Command::mOO {
        1int
    } else {
        0int
    }),
{
    let cell = st.memory[st.pointer];
    let next = advance(st);
    let silent = Seq::<char>::empty();
    match cmd {
        Command::moo => match scan_back(prog, st.pc, 1) {
            Some(j) => Ok((CowState { pc: j, ..st }, silent)),
            None => Err(CowError::UnmatchedMoo),
        },
        Command::mOo => Ok(
            (
                if st.pointer > 0 {
                    CowState { pointer: st.pointer - 1, ..next }
                } else {
                    next
                },
                silent,
            ),
        ),
        Command::moO => Ok(
            (
                if st.pointer < st.memory.len() - 1 {
                    CowState { pointer: st.pointer + 1, ..next }
                } else {
                    next
                },
                silent,
            ),
        ),
        Command::mOO => if cell == 3 {
            Err(CowError::CodeThree)
        } else {
            match command_of_code(cell) {
                None => Err(CowError::UnknownCode(cell)),
                Some(c) => match run_command(c, prog, st, line) {
                    Ok((s2, out)) => Ok((CowState { pc: st.pc + 1, ..s2 }, out)),
                    Err(e) => Err(e),
                },
            }
        },
        Command::Moo => if cell == 0 {
            Ok((with_cell(next, char_input_value(line)), silent))
        } else {
            Ok((next, seq![cell as char]))
        },
        Command::MOo => Ok((with_cell(next, if cell == 0 { 255 } else { (cell - 1) as u8 }), silent)),
        Command::MoO => Ok((with_cell(next, if cell == 255 { 0 } else { (cell + 1) as u8 }), silent)),
        Command::MOO => if cell == 0 {
            match scan_fwd(prog, st.pc, 1) {
                Some(j) => Ok((CowState { pc: j + 1, ..st }, silent)),
                None => Err(CowError::UnmatchedMOO),
            }
        } else {
            Ok((next, silent))
        },
        Command::OOO => Ok((with_cell(next, 0), silent)),
        Command::MMM => match st.register {
            None => Ok((CowState { register: Some(cell), ..next }, silent)),
            Some(r) => Ok((CowState { register: None, ..with_cell(next, r) }, silent)),
        },
        Command::OOM => Ok((next, int_text(cell as int))),
        Command::oom => Ok((with_cell(next, integer_input_value(line)), silent)),
    }
}

/// The COW machine.
pub struct CowMachine {
    memory: Vec<u8>,
    pointer: usize,
    register: Option<u8>,
    pc: usize,
}

impl CowMachine {
    /// The state as values.
    pub closed spec fn state(&self) -> CowState {
        CowState {
            memory: self.memory@,
            pointer: self.pointer as int,
            register: self.register,
            pc: self.pc as int,
        }
    }

    /// The memory has all its cells and the pointer is on one of them.
    pub closed spec fn wf(&self) -> bool {
        self.memory.len() == MEMORY_SIZE && self.pointer < MEMORY_SIZE
    }

    /// A well-formed machine is in a state the machine can be in.
    pub proof fn lemma_wf_state(&self)
        requires
            self.wf(),
        ensures
            state_ok(self.state()),
    {
    }

    /// A machine ready to run a program.
    pub fn new() -> (m: CowMachine)
        ensures
            m.wf(),
            m.state() == initial_state(),
    {
        let mut memory: Vec<u8> = Vec::new();
        let mut i: usize = 0;
        while i < MEMORY_SIZE
            invariant
                i <= MEMORY_SIZE,
                memory@ == Seq::new(i as nat, |k: int| 0u8),
            decreases MEMORY_SIZE - i,
        {
            memory.push(0);
            i = i + 1;
        }
        CowMachine { memory, pointer: 0, register: None, pc: 0 }
    }

    /// The position of the next instruction.
    pub fn pc(&self) -> (pc: usize)
        ensures
            pc == self.state().pc,
    {
        self.pc
    }

    /// Whether the next instruction reads a line of input.
    pub fn needs_input(&self, prog: &Vec<Command>) -> (r: bool)
        requires
            self.wf(),
            self.state().pc < prog.len(),
        ensures
            r == reads_line(prog@[self.state().pc], self.state().memory[self.state().pointer]),
    {
        let cell = self.memory[self.pointer];
        match prog[self.pc] {
            Command::Moo => cell == 0,
            Command::oom => true,
            Command::mOO => cell == 11,
            _ => false,
        }
    }

    /// Executes `cmd` as the instruction at the current position of `prog`;
    /// `line` is the input line it reads, if it reads one. Gives the text
    /// printed, or the error that stops the program.
    pub fn execute_command(&mut self, cmd: Command, prog: &Vec<Command>, line: &Vec<char>) -> (out: Result<String, CowError>)
        requires
            old(self).wf(),
            old(self).state().pc < usize::MAX,
            cmd == Command::moo || (cmd == Command::mOO && old(self).state().memory[old(self).state().pointer]
                == 0) ==> old(self).state().pc <= prog.len(),
        ensures
            final(self).wf(),
            match (run_command(cmd, prog@, old(self).state(), line@), out) {
                (Ok((st, text)), Ok(s)) => s@ == text && final(self).state() == st,
                (Err(e), Err(e2)) => e == e2 && final(self).state() == old(self).state(),
                _ => false,
            },
        decreases (if cmd == Command::mOO {
            1int
        } else {
            0int
        }),
    {
        let ghost st0 = self.state();
        let cell = self.memory[self.pointer];
        let pc = self.pc;
        match cmd {
            Command::moo => match find_loop_start(prog, pc) {
                Some(j) => {
                    self.pc = j;
                    Ok(String::new())
                },
                None => Err(CowError::UnmatchedMoo),
            },
            Command::mOo => {
                if self.pointer > 0 {
                    self.pointer = self.pointer - 1;
                }
                self.pc = pc + 1;
                Ok(String::new())
            },
            Command::moO => {
                if self.pointer < self.memory.len() - 1 {
                    self.pointer = self.pointer + 1;
                }
                self.pc = pc + 1;
                Ok(String::new())
            },
            Command::mOO => {
                if cell == 3 {
                    return Err(CowError::CodeThree);
                }
                match code_command(cell) {
                    None => Err(CowError::UnknownCode(cell)),
                    Some(c) => {
                        let r = self.execute_command(c, prog, line);
                        match r {
                            Ok(text) => {
                                self.pc = pc + 1;
                                Ok(text)
                            },
                            Err(e) => Err(e),
                        }
                    },
                }
            },
            Command::Moo => {
                self.pc = pc + 1;
                if cell == 0 {
                    let v = read_char(line);
                    self.memory.set(self.pointer, v);
                    Ok(String::new())
                } else {
                    let mut text = String::new();
                    push_char(&mut text, cell as char);
                    assert(text@ =~= seq![cell as char]);
                    Ok(text)
                }
            },
            Command::MOo => {
                self.pc = pc + 1;
                self.memory.set(self.pointer, cell.wrapping_sub(1));
                Ok(String::new())
            },
            Command::MoO => {
                self.pc = pc + 1;
                self.memory.set(self.pointer, cell.wrapping_add(1));
                Ok(String::new())
            },
            Command::MOO => {
                if cell == 0 {
                    match find_loop_end(prog, pc) {
                        Some(j) => {
                            self.pc = j + 1;
                            Ok(String::new())
                        },
                        None => Err(CowError::UnmatchedMOO),
                    }
                } else {
                    self.pc = pc + 1;
                    Ok(String::new())
                }
            },
            Command::OOO => {
                self.pc = pc + 1;
                self.memory.set(self.pointer, 0);
                Ok(String::new())
            },
            Command::MMM => {
                self.pc = pc + 1;
                match self.register {
                    None => {
                        self.register = Some(cell);
                    },
                    Some(r) => {
                        self.memory.set(self.pointer, r);
                        self.register = None;
                    },
                }
                Ok(String::new())
            },
            Command::OOM => {
                self.pc = pc + 1;
                let mut text = String::new();
                push_int(&mut text, cell as i64);
                Ok(text)
            },
            Command::oom => {
                self.pc = pc + 1;
                let v = read_integer(line);
                self.memory.set(self.pointer, v);
                Ok(String::new())
            },
        }
    }

    /// Executes the instruction at the current position.
    pub fn step(&mut self, prog: &Vec<Command>, line: &Vec<char>) -> (out: Result<String, CowError>)
        requires
            old(self).wf(),
            old(self).state().pc < prog.len(),
        ensures
            final(self).wf(),
            match (run_command(prog@[old(self).state().pc], prog@, old(self).state(), line@), out) {
                (Ok((st, text)), Ok(s)) => s@ == text && final(self).state() == st,
                (Err(e), Err(e2)) => e == e2 && final(self).state() == old(self).state(),
                _ => false,
            },
    {
        let cmd = prog[self.pc];
        self.execute_command(cmd, prog, line)
    }
}

/// The position of the `MOO` that opens the loop closed by the `moo` at `pc`.
fn find_loop_start(prog: &Vec<Command>, pc: usize) -> (r: Option<usize>)
    requires
        pc <= prog.len(),
        pc < usize::MAX,
    ensures
        match r {
            Some(j) => scan_back(prog@, pc as int, 1) == Some(j as int),
            None => scan_back(prog@, pc as int, 1) is None,
        },
{
    let mut p = pc;
    let mut depth: usize = 1;
    while p > 0
        invariant
            p <= pc <= prog.len(),
            pc < usize::MAX,
            1 <= depth <= 1 + (pc - p),
            scan_back(prog@, p as int, depth as int) == scan_back(prog@, pc as int, 1),
        decreases p,
    {
        p = p - 1;
        match prog[p] {
            Command::moo => {
                depth = depth + 1;
            },
            Command::MOO => {
                depth = depth - 1;
            },
            _ => {},
        }
        if depth == 0 {
            return Some(p);
        }
    }
    None
}

/// The position of the `moo` that closes the loop opened by the `MOO` at `pc`.
fn find_loop_end(prog: &Vec<Command>, pc: usize) -> (r: Option<usize>)
    ensures
        match r {
            Some(j) => scan_fwd(prog@, pc as int, 1) == Some(j as int) && j < prog.len(),
            None => scan_fwd(prog@, pc as int, 1) is None,
        },
{
    if pc >= prog.len() {
        return None;
    }
    let mut p = pc;
    let mut depth: usize = 1;
    while p + 1 < prog.len()
        invariant
            pc <= p < prog.len(),
            1 <= depth <= 1 + (p - pc),
            scan_fwd(prog@, p as int, depth as int) == scan_fwd(prog@, pc as int, 1),
        decreases prog.len() - p,
    {
        p = p + 1;
        match prog[p] {
            Command::MOO => {
                depth = depth + 1;
            },
            Command::moo => {
                depth = depth - 1;
            },
            _ => {},
        }
        if depth == 0 {
            return Some(p);
        }
    }
    None
}

} // verus!
