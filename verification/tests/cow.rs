use minilab::cow::cli::run_app;
use minilab::cow::command::{parse_code, Command};
use minilab::cow::machine::{CowError, CowMachine};
use minilab::cow::run::{run_cow, CowOutcome};

fn run_cow_test(code: &str, input_data: &str) -> (Result<(), String>, String) {
    let run = run_cow(code, input_data, u64::MAX);
    let res = match run.outcome {
        CowOutcome::Completed => Ok(()),
        CowOutcome::Failed(e) => Err(e.message()),
        CowOutcome::Unfinished => panic!("program did not finish"),
    };
    (res, run.output)
}

fn run_app_test(args: Vec<String>, file_content: Result<String, String>) -> (i32, String) {
    let run = run_app(&args, file_content, "", u64::MAX).expect("program did not finish");
    (run.exit_code, run.output)
}

#[test]
fn test_cli_no_args() {
    let args = vec!["program_name".to_string()];
    let (exit_code, out) = run_app_test(args, Ok("".to_string()));
    assert_eq!(exit_code, 1);
    assert!(out.contains("Error: No filename provided"));
}

#[test]
fn test_cli_file_not_found() {
    let args = vec!["program".to_string(), "bad.cow".to_string()];
    let (exit_code, out) = run_app_test(args, Err("Not found".to_string()));
    assert_eq!(exit_code, 1);
    assert!(out.contains("Failed to read file 'bad.cow'"));
}

#[test]
fn test_cli_runtime_error() {
    let code = "moo";
    let args = vec!["program".to_string(), "script.cow".to_string()];
    let (exit_code, out) = run_app_test(args, Ok(code.to_string()));
    assert_eq!(exit_code, 1);
    assert!(out.contains("Runtime Error"));
}

#[test]
fn test_cli_success() {
    let code = "MoO OOM";
    let args = vec!["program".to_string(), "good.cow".to_string()];
    let (exit_code, _) = run_app_test(args, Ok(code.to_string()));
    assert_eq!(exit_code, 0);
}

#[test]
fn test_parsing() {
    let code = "MoO   moO invalid text mOo";
    let tokens = parse_code(code);
    assert_eq!(tokens.len(), 3);
    assert_eq!(tokens[0], Command::MoO);
}

#[test]
fn test_math() {
    let code = "MoO MOo MOo OOM";
    let (res, out) = run_cow_test(code, "");
    assert!(res.is_ok());
    assert_eq!(out, "255");
}

#[test]
fn test_pointer_move() {
    let code = "mOo moO MoO mOo OOM";
    let (res, out) = run_cow_test(code, "");
    assert!(res.is_ok());
    assert_eq!(out, "0");
}

#[test]
fn test_pointer_boundary_right() {
    let code = "moO";
    let (res, _) = run_cow_test(code, "");
    assert!(res.is_ok());
}

#[test]
fn test_loop_skip() {
    let code = "MOO MoO MoO moo OOM";
    let (res, out) = run_cow_test(code, "");
    assert!(res.is_ok());
    assert_eq!(out, "0");
}

#[test]
fn test_loop_enter_and_back() {
    let code = "MoO MOO MOo moo OOM";
    let (res, out) = run_cow_test(code, "");
    assert!(res.is_ok());
    assert_eq!(out, "0");
}

#[test]
fn test_loop_nested() {
    let code = "MOO MOO MoO moo moo OOM";
    let (res, out) = run_cow_test(code, "");
    assert!(res.is_ok());
    assert_eq!(out, "0");
}

#[test]
fn test_error_unmatched_moo() {
    let code = "moo";
    let (res, _) = run_cow_test(code, "");
    assert!(res.is_err());
    assert_eq!(res.unwrap_err(), "Loop error: unmatched 'moo'");
}

#[test]
#[allow(non_snake_case)]
fn test_error_unmatched_MOO() {
    let code = "MOO";
    let (res, _) = run_cow_test(code, "");
    assert!(res.is_err());
    assert_eq!(res.unwrap_err(), "Loop error: unmatched 'MOO'");
}

#[test]
fn test_register_mmm() {
    let code = "MoO MMM OOO MMM OOM";
    let (res, out) = run_cow_test(code, "");
    assert!(res.is_ok());
    assert_eq!(out, "1");
}

#[test]
fn test_io_integer() {
    let code = "oom OOM";
    let (res, out) = run_cow_test(code, "123\n");
    assert!(res.is_ok());
    assert_eq!(out, "123");
}

#[test]
fn test_io_char() {
    let code = "Moo MoO Moo";
    let (res, out) = run_cow_test(code, "A");
    assert!(res.is_ok());
    assert_eq!(out, "B");
}

#[test]
#[allow(non_snake_case)]
fn test_mOO_execution() {
    let code = "MoO MoO MoO MoO MoO MoO mOO OOM";
    let (res, out) = run_cow_test(code, "");
    assert!(res.is_ok());
    assert_eq!(out, "7");
}

#[test]
#[allow(non_snake_case)]
fn test_mOO_error_3() {
    let code = "MoO MoO MoO mOO";
    let (res, _) = run_cow_test(code, "");
    assert!(res.is_err());
    assert_eq!(res.unwrap_err(), "Infinite Loop Error (code 3 in mOO)");
}

#[test]
#[allow(non_snake_case)]
fn test_mOO_error_unknown() {
    let code = "MOo mOO";
    let (res, _) = run_cow_test(code, "");
    assert!(res.is_err());
}

#[test]
fn test_zero_memory() {
    let code = "MoO OOO OOM";
    let (res, out) = run_cow_test(code, "");
    assert!(res.is_ok());
    assert_eq!(out, "0");
}

#[test]
fn test_read_eof() {
    let code = "oom OOM";
    let (res, out) = run_cow_test(code, "");
    assert!(res.is_ok());
    assert_eq!(out, "0");
}

#[test]
fn unknown_code_message_names_the_code() {
    let (res, _) = run_cow_test("MOo mOO", "");
    assert_eq!(res.unwrap_err(), "Unknown command code: 255");
}

#[test]
fn runtime_error_keeps_earlier_output() {
    let args = vec!["p".to_string(), "s.cow".to_string()];
    let (code, out) = run_app_test(args, Ok("MoO OOM moo".to_string()));
    assert_eq!(code, 1);
    assert_eq!(out, "1Runtime Error: Loop error: unmatched 'moo'\n");
}

#[test]
fn usage_and_read_failure_messages() {
    let (_, out) = run_app_test(vec!["p".to_string()], Ok(String::new()));
    assert_eq!(out, "Error: No filename provided.\nUsage: cargo run -- <filename.cow>\n");
    let (_, out) = run_app_test(vec!["p".to_string(), "x".to_string()], Err("gone".to_string()));
    assert_eq!(out, "Failed to read file 'x': gone\n");
}

#[test]
fn integer_input_trims_and_checks_range() {
    assert_eq!(run_cow_test("oom OOM", "  +42 \t\n").1, "42");
    assert_eq!(run_cow_test("oom OOM", "256\n").1, "0");
    assert_eq!(run_cow_test("oom OOM", "-1\n").1, "0");
    assert_eq!(run_cow_test("oom OOM", "+\n").1, "0");
    assert_eq!(run_cow_test("oom OOM", "007\n").1, "7");
    assert_eq!(run_cow_test("oom OOM oom OOM", "1\n2\n").1, "12");
}

#[test]
fn printed_integer_reads_back() {
    for v in [0u8, 9, 10, 99, 100, 255] {
        let line = format!("{}\n", v);
        assert_eq!(run_cow_test("oom OOM", &line).1, v.to_string());
    }
}

#[test]
fn char_input_takes_first_char_of_line() {
    assert_eq!(run_cow_test("Moo OOM", "xyz\n").1, "120");
    assert_eq!(run_cow_test("Moo OOM", "\n").1, "10");
    assert_eq!(run_cow_test("Moo OOM", "").1, "0");
}

#[test]
fn pointer_stays_in_memory() {
    let (res, out) = run_cow_test("mOo mOo MoO OOM", "");
    assert!(res.is_ok());
    assert_eq!(out, "1");
}

#[test]
fn increment_then_decrement_restores_cell() {
    assert_eq!(run_cow_test("MOo MoO MOo OOM", "").1, "255");
    assert_eq!(run_cow_test("MoO MOo OOM", "").1, "0");
}

#[test]
fn loop_counts_down() {
    // cell0 = 3; while cell0 != 0 { cell0 -= 1; cell1 += 2 }; print cell1
    let code = "MoO MoO MoO MOO MOo moO MoO MoO mOo moo moO OOM";
    let (res, out) = run_cow_test(code, "");
    assert!(res.is_ok());
    assert_eq!(out, "6");
}

#[test]
fn step_budget_can_run_out() {
    let run = run_cow("MoO MOO moo", "", 100);
    assert_eq!(run.outcome, CowOutcome::Unfinished);
    let run = run_cow("MoO OOM", "", 1);
    assert_eq!(run.outcome, CowOutcome::Unfinished);
    assert_eq!(run.output, "");
}

#[test]
fn char_output_uses_cell_code() {
    let code = "MoO MoO MoO MoO MoO MoO MoO MoO MoO MoO Moo";
    let (res, out) = run_cow_test(code, "");
    assert!(res.is_ok());
    assert_eq!(out, "\n");
}

#[test]
fn pointer_stays_on_last_cell() {
    let mut code = String::new();
    for _ in 0..30005 {
        code.push_str("moO ");
    }
    code.push_str("MoO OOM mOo OOM");
    let (res, out) = run_cow_test(&code, "");
    assert!(res.is_ok());
    assert_eq!(out, "10");
}

#[test]
fn single_instructions_on_a_fresh_machine() {
    let prog = parse_code("MoO OOM moo");
    let none: Vec<char> = Vec::new();
    let mut m = CowMachine::new();
    assert_eq!(m.execute_command(Command::moo, &prog, &none), Err(CowError::UnmatchedMoo));
    assert_eq!(m.pc(), 0);
    assert_eq!(m.execute_command(Command::MoO, &prog, &none), Ok(String::new()));
    assert_eq!(m.pc(), 1);
    assert_eq!(m.execute_command(Command::OOM, &prog, &none), Ok("1".to_string()));
    assert_eq!(m.execute_command(Command::MOO, &prog, &none), Ok(String::new()));
    assert_eq!(m.pc(), 3);
    let line: Vec<char> = "77\n".chars().collect();
    assert_eq!(m.execute_command(Command::oom, &prog, &line), Ok(String::new()));
    assert_eq!(m.execute_command(Command::OOM, &prog, &none), Ok("77".to_string()));
    assert_eq!(m.pc(), 5);
}

#[test]
fn printed_char_reads_back() {
    let mut code = String::new();
    for _ in 0..66 {
        code.push_str("MoO ");
    }
    code.push_str("Moo");
    let (res, printed) = run_cow_test(&code, "");
    assert!(res.is_ok());
    assert_eq!(printed, "B");
    let (res, out) = run_cow_test("Moo OOM", &format!("{}\n", printed));
    assert!(res.is_ok());
    assert_eq!(out, "66");
}

#[test]
fn joined_sources_concatenate_instructions() {
    let a = "MoO mo";
    let b = "O OOM";
    let joined = format!("{}x{}", a, b);
    let mut expected = parse_code(a);
    expected.extend(parse_code(b));
    assert_eq!(parse_code(&joined), expected);
    assert_eq!(parse_code("MoO mo"), vec![Command::MoO]);
    assert_eq!(parse_code("MoO moO OOM"), vec![Command::MoO, Command::moO, Command::OOM]);
}
