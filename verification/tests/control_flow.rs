use helix::control::{Executor, Step, EXECUTION_BUDGET, MAX_CALL_DEPTH};

fn program(src: &str) -> Vec<Vec<char>> {
    src.lines().map(|l| l.chars().collect()).collect()
}

fn s(c: &[char]) -> String {
    c.iter().collect()
}

/// The value of the small condition language these programs use: `[1]`,
/// `[0]`, or `[#1 LT n]` against the counter.
fn condition(text: &str, counter: i64) -> bool {
    let t = text.trim();
    if let Some(n) = t.strip_prefix("[#1 LT ").and_then(|r| r.strip_suffix(']')) {
        return counter < n.trim().parse::<i64>().unwrap();
    }
    t != "[0]"
}

/// Runs a program through the executor, standing in for the interpreter:
/// `#1=0` resets the counter, any other assignment adds one to it, and a
/// repeat count is the number in brackets. Returns the word lines (with
/// their line numbers) and returns from subroutines, in execution order.
fn run_with(src: &str, block_delete: bool) -> Result<Vec<(usize, String)>, (usize, String)> {
    let mut ex = Executor::new(program(src), block_delete).map_err(|e| (e.line, e.message))?;
    let mut counter: i64 = 0;
    let mut out = Vec::new();
    loop {
        match ex.next_step().map_err(|e| (e.line, e.message))? {
            Step::Done => return Ok(out),
            Step::Assign { text, .. } => {
                if s(&text).replace(' ', "") == "#1=0" {
                    counter = 0;
                } else {
                    counter += 1;
                }
            }
            Step::Words { line, text } => out.push((line, s(&text))),
            Step::Condition { text, branch, .. } => {
                let mut text = text;
                let mut branch = branch;
                loop {
                    let value = condition(&s(&text), counter);
                    match ex.decide(branch, value).map_err(|e| (e.line, e.message))? {
                        None => break,
                        Some((t, b)) => {
                            text = t;
                            branch = b;
                        }
                    }
                }
            }
            Step::Count { text, repeat, .. } => {
                let t = s(&text);
                let n: i64 = t.trim().trim_start_matches('[').trim_end_matches(']').trim().parse().unwrap();
                ex.repeat_count(repeat, n).map_err(|e| (e.line, e.message))?;
            }
            Step::Call { call, .. } => ex.enter_call(call).map_err(|e| (e.line, e.message))?,
            Step::Return => out.push((0, "return".to_string())),
        }
    }
}

fn run(src: &str) -> Result<Vec<String>, (usize, String)> {
    run_with(src, false).map(|v| v.into_iter().map(|(_, t)| t).collect())
}

fn fails(src: &str) -> (usize, String) {
    run(src).unwrap_err()
}

#[test]
fn straight_program_runs_every_line() {
    let out = run_with("G21 G90\n\n(comment)\nG0 X10 ; fast\n%\nG1 X20", false).unwrap();
    assert_eq!(out, vec![(1, "G21 G90".to_string()), (4, "G0 X10".to_string()), (6, "G1 X20".to_string())]);
}

#[test]
fn assignments_are_handed_out_separately() {
    let mut ex = Executor::new(program("#1 = 5\nG0 X#1"), false).unwrap();
    match ex.next_step().unwrap() {
        Step::Assign { line, text } => {
            assert_eq!(line, 1);
            assert_eq!(s(&text), "#1 = 5");
        }
        _ => panic!("expected an assignment"),
    }
    assert_eq!(ex.pc(), 1);
    match ex.next_step().unwrap() {
        Step::Words { line, text } => {
            assert_eq!(line, 2);
            assert_eq!(s(&text), "G0 X#1");
        }
        _ => panic!("expected words"),
    }
    assert!(matches!(ex.next_step().unwrap(), Step::Done));
    assert!(matches!(ex.next_step().unwrap(), Step::Done));
}

#[test]
fn block_delete_skips_slash_lines_when_on() {
    assert_eq!(run_with("G0 X10\n/G0 X99\nG0 X20", true).unwrap().len(), 2);
    assert_eq!(run_with("G0 X10\n/G0 X99\nG0 X20", false).unwrap()[1].1, "G0 X99");
}

#[test]
fn sub_is_skipped_until_called() {
    let out = run("o100 sub\nG1 X1\no100 endsub\nG0 Y0\no100 call [5]\nG0 X0").unwrap();
    assert_eq!(out, vec!["G0 Y0", "G1 X1", "return", "G0 X0"]);
}

#[test]
fn call_hands_out_arguments() {
    let mut ex = Executor::new(program("o<cut> sub\no<cut> endsub\no<CUT> call [1] [2]"), false).unwrap();
    match ex.next_step().unwrap() {
        Step::Call { line, args, call } => {
            assert_eq!(line, 3);
            assert_eq!(s(&args), " [1] [2]");
            ex.enter_call(call).unwrap();
        }
        _ => panic!("expected a call"),
    }
    assert_eq!(ex.pc(), 1);
    assert!(matches!(ex.next_step().unwrap(), Step::Return));
    assert_eq!(ex.pc(), 3);
    assert!(matches!(ex.next_step().unwrap(), Step::Done));
}

#[test]
fn leading_zeros_name_the_same_sub() {
    let out = run("o010 sub\nG1 X1\no10 endsub\no0010 call").unwrap();
    assert_eq!(out, vec!["G1 X1", "return"]);
}

#[test]
fn return_leaves_a_sub_early() {
    let out = run("o1 sub\nG1 X1\no1 return\nG1 X2\no1 endsub\no1 call\nG0").unwrap();
    assert_eq!(out, vec!["G1 X1", "return", "G0"]);
}

#[test]
fn nested_calls_unwind_in_order() {
    let out = run("o1 sub\nG1 X1\no2 call\nG1 X3\no1 endsub\no2 sub\nG1 X2\no2 endsub\no1 call\nM2").unwrap();
    assert_eq!(out, vec!["G1 X1", "G1 X2", "return", "G1 X3", "return", "M2"]);
}

#[test]
fn if_elseif_else_takes_one_branch() {
    let src = |a: &str, b: &str| {
        format!("o1 if [{a}]\nG0 X1\no1 elseif [{b}]\nG0 X2\no1 else\nG0 X3\no1 endif\nG0 X4")
    };
    assert_eq!(run(&src("1", "1")).unwrap(), vec!["G0 X1", "G0 X4"]);
    assert_eq!(run(&src("0", "1")).unwrap(), vec!["G0 X2", "G0 X4"]);
    assert_eq!(run(&src("0", "0")).unwrap(), vec!["G0 X3", "G0 X4"]);
}

#[test]
fn if_without_else_falls_through() {
    assert_eq!(run("o1 if [0]\nG0 X1\no1 endif\nG0 X2").unwrap(), vec!["G0 X2"]);
}

#[test]
fn while_loop_runs_until_false() {
    let out = run("#1=0\no2 while [#1 LT 3]\nG1 X1\n#1=[#1+1]\no2 endwhile\nG0 Z0").unwrap();
    assert_eq!(out, vec!["G1 X1", "G1 X1", "G1 X1", "G0 Z0"]);
}

#[test]
fn while_false_skips_body() {
    assert_eq!(run("o2 while [0]\nG1 X1\no2 endwhile\nG0").unwrap(), vec!["G0"]);
}

#[test]
fn repeat_runs_body_n_times() {
    let out = run("o3 repeat [3]\nG91 G1 X10\no3 endrepeat\nG90").unwrap();
    assert_eq!(out, vec!["G91 G1 X10", "G91 G1 X10", "G91 G1 X10", "G90"]);
    assert_eq!(run("o3 repeat [0]\nG1\no3 endrepeat\nG90").unwrap(), vec!["G90"]);
    assert_eq!(run("o3 repeat [-2]\nG1\no3 endrepeat\nG90").unwrap(), vec!["G90"]);
}

#[test]
fn nested_repeats_multiply() {
    let out = run("o1 repeat [2]\no2 repeat [3]\nG1\no2 endrepeat\no1 endrepeat").unwrap();
    assert_eq!(out.len(), 6);
}

#[test]
fn structural_errors_name_their_line() {
    assert_eq!(fails("G0\no5 sub\nG1"), (2, "o5 sub without endsub".to_string()));
    assert_eq!(fails("G0\no9 call"), (2, "call to unknown sub o9".to_string()));
    assert_eq!(fails("o1 return"), (1, "return outside a subroutine".to_string()));
    assert_eq!(fails("o1 endsub"), (1, "return outside a subroutine".to_string()));
    assert_eq!(fails("G0\no1 endrepeat"), (2, "endrepeat without repeat".to_string()));
    assert_eq!(fails("o1 repeat [2]\no2 endrepeat"), (2, "endrepeat o2 does not match o1".to_string()));
    assert_eq!(fails("o1 frob"), (1, "unsupported O-word \"frob\"".to_string()));
    assert_eq!(fails("o1 while [0]\nG1"), (1, "o1 while without endwhile".to_string()));
    assert_eq!(fails("o1 if [0]\nG1"), (1, "o1 if without endif".to_string()));
    assert_eq!(fails("o1 if [0]\no1 elseif [0]\nG1"), (1, "o1 if without endif".to_string()));
    assert_eq!(fails("o1 endwhile"), (1, "o1 endwhile without while".to_string()));
    assert_eq!(fails("o1 repeat [0]\nG1"), (1, "o1 repeat without endrepeat".to_string()));
    assert_eq!(fails("o1 if [1]\nG1\no1 else\nG2"), (3, "o1 without endif".to_string()));
}

#[test]
fn nested_sub_definitions_are_skipped_when_indexing() {
    let out = run("o1 sub\no2 sub\nG2\no2 endsub\nG1\no1 endsub\no1 call").unwrap();
    assert_eq!(out, vec!["G1", "return"]);
}

#[test]
fn runaway_recursion_is_stopped() {
    let e = fails("o1 sub\no1 call\no1 endsub\no1 call");
    assert_eq!(e, (2, "subroutine call depth exceeded".to_string()));
    assert_eq!(MAX_CALL_DEPTH, 64);
}

#[test]
fn endless_loop_is_caught() {
    let e = fails("o1 while [1]\nG91 G0 X1\no1 endwhile");
    assert!(e.1.contains("budget"));
    assert_eq!(e.1, "execution budget exceeded — endless loop?");
    assert_eq!(EXECUTION_BUDGET, 2_000_000);
}
