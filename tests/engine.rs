use bf_repl::parser::{check_valid_inp, BfError, Parser};

fn run(p: &mut Parser, code: &str, input: &str) -> (Result<(), BfError>, Vec<u8>) {
    let mut out = Vec::new();
    let r = p.parse(code.to_string(), input.to_string(), &mut out);
    (r, out)
}

#[test]
fn multiplication_loop_emits_64() {
    let mut p = Parser::new();
    let (r, out) = run(&mut p, "++++++++[>++++++++<-]>.", "");
    assert_eq!(r, Ok(()));
    assert_eq!(out, vec![64u8]);
    assert_eq!(p.state().index(), 15_001);
    assert_eq!(p.state().out(), 64);
    assert_eq!(p.state().cell(15_000), 0);
}

#[test]
fn read_copies_input_through() {
    let mut p = Parser::new();
    let (r, out) = run(&mut p, ",.", "A");
    assert_eq!(r, Ok(()));
    assert_eq!(out, vec![65u8]);
}

#[test]
fn read_without_input_is_a_no_op() {
    let mut p = Parser::new();
    let (r, out) = run(&mut p, ",.", "");
    assert_eq!(r, Ok(()));
    assert_eq!(out, vec![0u8]);
    assert!(p.state().is_zero());
}

#[test]
fn read_keeps_low_eight_bits_of_character() {
    let mut p = Parser::new();
    let (r, out) = run(&mut p, ",.", "\u{141}");
    assert_eq!(r, Ok(()));
    assert_eq!(out, vec![0x41u8]);
}

#[test]
fn reads_consume_input_in_order() {
    let mut p = Parser::new();
    let (r, out) = run(&mut p, ",.,.,.,.", "xyz");
    assert_eq!(r, Ok(()));
    assert_eq!(out, vec![b'x', b'y', b'z', b'z']);
}

#[test]
fn lone_loop_end_fails() {
    let mut p = Parser::new();
    let (r, out) = run(&mut p, "]", "");
    assert_eq!(r, Err(BfError::UnmatchedLoopEnd));
    assert!(out.is_empty());
}

#[test]
fn loop_end_on_nonzero_cell_without_start_fails() {
    let mut p = Parser::new();
    let (r, out) = run(&mut p, "+.]+", "");
    assert_eq!(r, Err(BfError::UnmatchedLoopEnd));
    assert_eq!(out, vec![1u8]);
    assert_eq!(p.state().out(), 1);
}

#[test]
fn lone_loop_start_fails() {
    let mut p = Parser::new();
    let (r, out) = run(&mut p, "[", "");
    assert_eq!(r, Err(BfError::UnmatchedLoopStart));
    assert!(out.is_empty());
}

#[test]
fn unclosed_loop_keeps_earlier_effects() {
    let mut p = Parser::new();
    let (r, out) = run(&mut p, "++.[", "");
    assert_eq!(r, Err(BfError::UnmatchedLoopStart));
    assert_eq!(out, vec![2u8]);
    assert_eq!(p.state().out(), 2);
}

#[test]
fn move_left_at_cell_zero_fails() {
    let mut p = Parser::new();
    let left = "<".repeat(15_000);
    let (r, _) = run(&mut p, &left, "");
    assert_eq!(r, Ok(()));
    assert_eq!(p.state().index(), 0);
    let (r, out) = run(&mut p, "+.<+", "");
    assert_eq!(r, Err(BfError::LeftBoundExceeded));
    assert_eq!(out, vec![1u8]);
    assert_eq!(p.state().index(), 0);
    assert_eq!(p.state().out(), 1);
}

#[test]
fn false_guard_loop_body_has_no_effect() {
    let mut p = Parser::new();
    let (r, out) = run(&mut p, "[+.>,[-<.]++[.]]", "q");
    assert_eq!(r, Ok(()));
    assert!(out.is_empty());
    assert_eq!(p.state().index(), 15_000);
    assert!(p.state().is_zero());
}

#[test]
fn input_is_not_consumed_inside_skipped_loop() {
    let mut p = Parser::new();
    let (r, out) = run(&mut p, "[,],.", "ab");
    assert_eq!(r, Ok(()));
    assert_eq!(out, vec![b'a']);
}

#[test]
fn nested_loops_run() {
    let mut p = Parser::new();
    let (r, out) = run(&mut p, "++[>+++[>++<-]<-]>>.", "");
    assert_eq!(r, Ok(()));
    assert_eq!(out, vec![12u8]);
}

#[test]
fn unrecognised_characters_are_comments() {
    let mut p = Parser::new();
    let (r, out) = run(&mut p, "a+b+ c.\n", "");
    assert_eq!(r, Ok(()));
    assert_eq!(out, vec![2u8]);
}

#[test]
fn empty_program_changes_nothing() {
    let mut p = Parser::new();
    let (r, _) = run(&mut p, "+++>++", "");
    assert_eq!(r, Ok(()));
    let (r, out) = run(&mut p, "", "input");
    assert_eq!(r, Ok(()));
    assert!(out.is_empty());
    assert_eq!(p.state().index(), 15_001);
    assert_eq!(p.state().out(), 2);
    assert_eq!(p.state().cell(15_000), 3);
    assert_eq!(p.state().len(), 30_000);
}

#[test]
fn tape_persists_between_turns() {
    let mut p = Parser::new();
    let (r, _) = run(&mut p, "+++++", "");
    assert_eq!(r, Ok(()));
    let (r, out) = run(&mut p, "+.", "");
    assert_eq!(r, Ok(()));
    assert_eq!(out, vec![6u8]);
}

#[test]
fn output_is_appended_to_buffer() {
    let mut p = Parser::new();
    let mut out = vec![9u8];
    let r = p.parse("+.".to_string(), String::new(), &mut out);
    assert_eq!(r, Ok(()));
    assert_eq!(out, vec![9u8, 1u8]);
}

#[test]
fn bracket_free_program_finishes() {
    let mut p = Parser::new();
    let (r, out) = run(&mut p, "+>+>+<.<.", "");
    assert_eq!(r, Ok(()));
    assert_eq!(out, vec![1u8, 1u8]);
}

#[test]
fn balanced_input_detection() {
    assert!(check_valid_inp(String::new()));
    assert!(check_valid_inp("+[->+<]".to_string()));
    assert!(!check_valid_inp("+[->+<".to_string()));
    assert!(!check_valid_inp("]".to_string()));
    assert!(check_valid_inp("][".to_string()));
    assert!(check_valid_inp("[[]]\n".to_string()));
}
