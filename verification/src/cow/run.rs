//! Running a whole COW program on a given input text.
use vstd::prelude::*;
use crate::text::{chars_of, push_str};
use crate::cow::command::{Command, parse_code, tokens_from};
use crate::cow::input::{line_end, next_line_end};
use crate::cow::machine::{CowError, CowMachine, CowState, initial_state, reads_line, run_command};

verus! {

/// How a run ended.
#[derive(PartialEq, Eq, Structural, Clone, Copy, Debug)]
pub enum CowOutcome {
    /// The program counter went past the last instruction.
    Completed,
    /// An instruction failed.
    Failed(CowError),
    /// The step budget ran out first.
    Unfinished,
}

/// The outcome and the printed text of running `prog` from `st` for at most
/// `fuel` steps, reading lines from `input` starting at `pos`.
pub open spec fn run_from(prog: Seq<Command>, st: CowState, input: Seq<char>, pos: int, fuel: nat) -> (
    CowOutcome,
    Seq<char>,
)
    decreases fuel,
{
    if st.pc < 0 || st.pc >= prog.len() {
        (CowOutcome::Completed, Seq::empty())
    } else if fuel == 0 {
        (CowOutcome::Unfinished, Seq::empty())
    } else {
        let cmd = prog[st.pc];
        let reads = reads_line(cmd, st.memory[st.pointer]);
        let end = if reads {
            line_end(input, pos)
        } else {
            pos
        };
        let line = if reads {
            input.subrange(pos, end)
        } else {
            Seq::empty()
        };
        match run_command(cmd, prog, st, line) {
            Err(e) => (CowOutcome::Failed(e), Seq::empty()),
            Ok((next, text)) => {
                let rest = run_from(prog, next, input, end, (fuel - 1) as nat);
                (rest.0, text + rest.1)
            },
        }
    }
}

/// The outcome and printed text of running the program in `source` on
/// `input` for at most `max_steps` instructions.
pub open spec fn cow_run(source: Seq<char>, input: Seq<char>, max_steps: nat) -> (CowOutcome, Seq<char>) {
    run_from(tokens_from(source, 0), initial_state(), input, 0, max_steps)
}

/// The result of a run: how it ended and everything it printed.
pub struct CowRun {
    pub outcome: CowOutcome,
    pub output: String,
}

fn copy_range(input: &Vec<char>, start: usize, end: usize) -> (v: Vec<char>)
    requires
        start <= end <= input.len(),
    ensures
        v@ == input@.subrange(start as int, end as int),
{
    let mut v: Vec<char> = Vec::new();
    let mut i = start;
    while i < end
        invariant
            start <= i <= end <= input.len(),
            v@ == input@.subrange(start as int, i as int),
        decreases end - i,
    {
        v.push(input[i]);
        i = i + 1;
        assert(v@ =~= input@.subrange(start as int, i as int));
    }
    v
}

/// Runs a tokenized program on an input text for at most `max_steps` steps.
pub fn run_program(prog: &Vec<Command>, input: &Vec<char>, max_steps: u64) -> (run: CowRun)
    ensures
        (run.outcome, run.output@) == run_from(prog@, initial_state(), input@, 0, max_steps as nat),
{
    let mut machine = CowMachine::new();
    let mut output = String::new();
    let mut pos: usize = 0;
    let mut fuel = max_steps;
    let ghost total = run_from(prog@, initial_state(), input@, 0, max_steps as nat);
    loop
        invariant
            machine.wf(),
            total == run_from(prog@, initial_state(), input@, 0, max_steps as nat),
            pos <= input.len(),
            machine.state().pc >= 0,
            run_from(prog@, machine.state(), input@, pos as int, fuel as nat).0 == total.0,
            output@ + run_from(prog@, machine.state(), input@, pos as int, fuel as nat).1 == total.1,
        decreases fuel,
    {
        proof {
            machine.lemma_wf_state();
        }
        let pc = machine.pc();
        if pc >= prog.len() {
            assert(output@ + Seq::<char>::empty() =~= output@);
            assert(run_from(prog@, machine.state(), input@, pos as int, fuel as nat) == (CowOutcome::Completed, Seq::<char>::empty()));
            assert(total.0 == CowOutcome::Completed);
            assert(output@ == total.1);
            return CowRun { outcome: CowOutcome::Completed, output };
        }
        if fuel == 0 {
            assert(output@ + Seq::<char>::empty() =~= output@);
            assert(run_from(prog@, machine.state(), input@, pos as int, fuel as nat) == (CowOutcome::Unfinished, Seq::<char>::empty()));
            return CowRun { outcome: CowOutcome::Unfinished, output };
        }
        let reads = machine.needs_input(prog);
        let end = if reads {
            next_line_end(input, pos)
        } else {
            pos
        };
        let line = copy_range(input, pos, end);
        assert(line@ =~= if reads {
            input@.subrange(pos as int, line_end(input@, pos as int))
        } else {
            Seq::<char>::empty()
        });
        let ghost st = machine.state();
        match machine.step(prog, &line) {
            Err(e) => {
                assert(output@ + Seq::<char>::empty() =~= output@);
                assert(run_from(prog@, st, input@, pos as int, fuel as nat) == (CowOutcome::Failed(e), Seq::<char>::empty()));
                assert(total.0 == CowOutcome::Failed(e));
                assert(output@ == total.1);
                return CowRun { outcome: CowOutcome::Failed(e), output };
            },
            Ok(text) => {
                let ghost old_out = output@;
                push_str(&mut output, text.as_str());
                assert(old_out + (text@ + run_from(prog@, machine.state(), input@, end as int, (fuel - 1) as nat).1)
                    =~= output@ + run_from(prog@, machine.state(), input@, end as int, (fuel - 1) as nat).1);
                pos = end;
                fuel = fuel - 1;
                proof {
                    machine.lemma_wf_state();
                }
            },
        }
    }
}

/// Runs the COW program in `source` on the text `input` (read line by line)
/// for at most `max_steps` instructions.
pub fn run_cow(source: &str, input: &str, max_steps: u64) -> (run: CowRun)
    ensures
        (run.outcome, run.output@) == cow_run(source@, input@, max_steps as nat),
{
    let prog = parse_code(source);
    let chars = chars_of(input);
    run_program(&prog, &chars, max_steps)
}

} // verus!
