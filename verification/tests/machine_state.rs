use helix::machine::{
    all_yes, axis_index, contains, state_of_replies, override_kind, parse_usize, reject, reply_line, reply_state, wcs_name, Command,
    OverrideKind, State, StateMachine,
};

fn m(commands: &[Command]) -> StateMachine {
    let mut sm = StateMachine::new();
    for c in commands {
        sm.apply(*c).unwrap();
    }
    sm
}

fn refusal(sm: &mut StateMachine, c: Command) -> String {
    let before = (sm.state(), sm.homed());
    let e = sm.apply(c).unwrap_err();
    assert_eq!((sm.state(), sm.homed()), before, "a refused request changes nothing");
    e.0
}

#[test]
fn state_names() {
    let all = [
        (State::Estop, "estop"),
        (State::Off, "off"),
        (State::On, "on"),
        (State::Homing, "homing"),
        (State::Idle, "idle"),
        (State::Jog, "jog"),
        (State::Mdi, "mdi"),
        (State::Running, "running"),
        (State::Paused, "paused"),
    ];
    for (s, name) in all {
        assert_eq!(s.as_str(), name);
    }
}

#[test]
fn reject_keeps_the_message() {
    assert_eq!(reject("no".to_string()).0, "no");
}

#[test]
fn fresh_machine_is_in_estop() {
    let sm = StateMachine::new();
    assert_eq!(sm.state(), State::Estop);
    assert!(!sm.homed());
}

#[test]
fn startup_sequence_reaches_idle() {
    let mut sm = StateMachine::new();
    sm.apply(Command::EstopReset).unwrap();
    assert_eq!(sm.state(), State::Off);
    sm.apply(Command::Power(true)).unwrap();
    assert_eq!(sm.state(), State::On);
    sm.apply(Command::Home).unwrap();
    assert_eq!(sm.state(), State::Homing);
    sm.apply(Command::HomingDone).unwrap();
    assert_eq!(sm.state(), State::Idle);
    assert!(sm.homed());
}

#[test]
fn estop_from_anywhere_keeps_homing() {
    let up = [Command::EstopReset, Command::Power(true), Command::Home, Command::HomingDone];
    for extra in [vec![], vec![Command::Run(true)], vec![Command::Run(true), Command::Pause], vec![Command::JogStart]] {
        let mut cmds = up.to_vec();
        cmds.extend(extra);
        let mut sm = m(&cmds);
        sm.apply(Command::Estop).unwrap();
        assert_eq!(sm.state(), State::Estop);
        assert!(sm.homed());
        // after a reset and power on, a homed machine is idle again
        sm.apply(Command::EstopReset).unwrap();
        sm.apply(Command::Power(true)).unwrap();
        assert_eq!(sm.state(), State::Idle);
    }
}

#[test]
fn only_reset_leaves_estop() {
    let mut sm = StateMachine::new();
    assert_eq!(refusal(&mut sm, Command::Power(true)), "cannot power on while estop");
    assert_eq!(refusal(&mut sm, Command::Home), "cannot home while estop");
    assert_eq!(refusal(&mut sm, Command::JogStart), "cannot jog while estop");
    assert_eq!(refusal(&mut sm, Command::JogStep), "cannot jog while estop");
    assert_eq!(refusal(&mut sm, Command::Mdi(true)), "cannot MDI while estop");
    assert_eq!(refusal(&mut sm, Command::Run(true)), "cannot run while estop");
    assert_eq!(refusal(&mut sm, Command::Pause), "cannot pause while estop");
    assert_eq!(refusal(&mut sm, Command::Resume), "cannot resume while estop");
    for c in [Command::Power(false), Command::Stop, Command::Load, Command::JogStop(false), Command::MotionDone] {
        sm.apply(c).unwrap();
        assert_eq!(sm.state(), State::Estop);
    }
}

#[test]
fn run_pause_resume_stop() {
    let mut sm = m(&[Command::EstopReset, Command::Power(true), Command::Home, Command::HomingDone]);
    assert_eq!(refusal(&mut sm, Command::Run(false)), "no program loaded");
    sm.apply(Command::Load).unwrap();
    sm.apply(Command::Run(true)).unwrap();
    assert_eq!(sm.state(), State::Running);
    assert_eq!(refusal(&mut sm, Command::Load), "cannot load a program while one is running");
    assert_eq!(refusal(&mut sm, Command::Power(false)), "cannot power off while in motion");
    assert_eq!(refusal(&mut sm, Command::JogStart), "cannot jog while running");
    sm.apply(Command::Pause).unwrap();
    assert_eq!(sm.state(), State::Paused);
    assert_eq!(refusal(&mut sm, Command::Pause), "cannot pause while paused");
    sm.apply(Command::Resume).unwrap();
    assert_eq!(sm.state(), State::Running);
    sm.apply(Command::MotionDone).unwrap();
    assert_eq!(sm.state(), State::Idle);
    sm.apply(Command::Run(true)).unwrap();
    sm.apply(Command::Stop).unwrap();
    assert_eq!(sm.state(), State::Idle);
}

#[test]
fn jog_and_mdi() {
    let mut sm = m(&[Command::EstopReset, Command::Power(true)]);
    assert_eq!(refusal(&mut sm, Command::JogStart), "cannot jog while on");
    sm.apply(Command::Home).unwrap();
    assert_eq!(refusal(&mut sm, Command::Power(false)), "cannot power off while in motion");
    sm.apply(Command::HomingDone).unwrap();
    sm.apply(Command::JogStart).unwrap();
    assert_eq!(sm.state(), State::Jog);
    sm.apply(Command::JogStop(true)).unwrap();
    assert_eq!(sm.state(), State::Jog);
    sm.apply(Command::JogStop(false)).unwrap();
    assert_eq!(sm.state(), State::Idle);
    sm.apply(Command::JogStep).unwrap();
    sm.apply(Command::JogDone).unwrap();
    assert_eq!(sm.state(), State::Idle);
    sm.apply(Command::Mdi(false)).unwrap();
    assert_eq!(sm.state(), State::Idle);
    sm.apply(Command::Mdi(true)).unwrap();
    assert_eq!(sm.state(), State::Mdi);
    assert_eq!(refusal(&mut sm, Command::Mdi(true)), "cannot MDI while mdi");
    sm.apply(Command::MotionDone).unwrap();
    assert_eq!(sm.state(), State::Idle);
    sm.apply(Command::Power(false)).unwrap();
    assert_eq!(sm.state(), State::Off);
    assert!(sm.homed());
}

#[test]
fn axis_names() {
    assert_eq!(axis_index('x').unwrap(), 0);
    assert_eq!(axis_index('y').unwrap(), 1);
    assert_eq!(axis_index('z').unwrap(), 2);
    assert_eq!(axis_index('X').unwrap_err().0, "unknown axis 'X'");
    assert_eq!(axis_index('\'').unwrap_err().0, "unknown axis '\\''");
}

#[test]
fn override_names() {
    assert_eq!(override_kind("feed").unwrap(), OverrideKind::Feed);
    assert_eq!(override_kind("rapid").unwrap(), OverrideKind::Rapid);
    assert_eq!(override_kind("spindle").unwrap(), OverrideKind::Spindle);
    assert_eq!(override_kind("Feed").unwrap_err().0, "unknown override \"Feed\"");
    assert_eq!(override_kind("a\"b").unwrap_err().0, "unknown override \"a\\\"b\"");
}

#[test]
fn work_coordinate_systems() {
    let names = ["G54", "G55", "G56", "G57", "G58", "G59", "G59.1", "G59.2", "G59.3"];
    for (i, n) in names.iter().enumerate() {
        assert_eq!(wcs_name(i).unwrap(), *n);
    }
    assert_eq!(wcs_name(9).unwrap_err().0, "WCS index out of range (0–8)");
}

#[test]
fn controller_replies() {
    assert_eq!(reply_state("ESTOP ON", "MACHINE ON", "PROGRAM_STATUS IDLE", "MODE MANUAL", "JOINT_HOMED YES"), (State::Estop, true));
    assert_eq!(reply_state("ESTOP OFF", "MACHINE OFF", "PROGRAM_STATUS IDLE", "MODE MANUAL", "JOINT_HOMED NO"), (State::Off, false));
    assert_eq!(reply_state("estop off", "machine on", "program_status idle", "mode manual", "joint_homed yes no"), (State::On, false));
    assert_eq!(reply_state("ESTOP OFF", "MACHINE ON", "PROGRAM_STATUS IDLE", "MODE AUTO", "JOINT_HOMED YES Yes yEs"), (State::Idle, true));
    assert_eq!(reply_state("ESTOP OFF", "MACHINE ON", "PROGRAM_STATUS RUNNING", "MODE AUTO", "JOINT_HOMED YES"), (State::Running, true));
    assert_eq!(reply_state("ESTOP OFF", "MACHINE ON", "PROGRAM_STATUS RUNNING", "MODE MDI", "JOINT_HOMED YES"), (State::Mdi, true));
    assert_eq!(reply_state("ESTOP OFF", "MACHINE ON", "PROGRAM_STATUS PAUSED", "MODE AUTO", "JOINT_HOMED YES"), (State::Paused, true));
    // "OFF" holds no " ON"
    assert_eq!(reply_state("ESTOP OFF", "MACHINE OFF", "", "", "JOINT_HOMED").0, State::Off);
    // a reply with no joints counts as all homed
    assert!(all_yes("JOINT_HOMED"));
    assert!(all_yes(""));
    assert!(all_yes("  JOINT_HOMED   yes\tYES "));
    assert!(!all_yes("JOINT_HOMED YES YESS"));
    assert!(!all_yes("JOINT_HOMED no"));
}

#[test]
fn controller_line_numbers() {
    assert_eq!(reply_line("PROGRAM_LINE 12"), 12);
    assert_eq!(reply_line("  PROGRAM_LINE   +7  extra"), 7);
    assert_eq!(reply_line("PROGRAM_LINE"), 0);
    assert_eq!(reply_line("PROGRAM_LINE -3"), 0);
    assert_eq!(reply_line("PROGRAM_LINE 1x"), 0);
    assert_eq!(reply_line(""), 0);
    let v = |s: &str| s.chars().collect::<Vec<char>>();
    assert_eq!(parse_usize(&v("0042")), Some(42));
    assert_eq!(parse_usize(&v("+")), None);
    assert_eq!(parse_usize(&v("")), None);
    assert_eq!(parse_usize(&v("99999999999999999999999")), None);
    assert_eq!(parse_usize(&v(&usize::MAX.to_string())), Some(usize::MAX));
}

#[test]
fn substring_search() {
    let v = |s: &str| s.chars().collect::<Vec<char>>();
    assert!(contains(&v("MACHINE ON"), &[' ', 'O', 'N']));
    assert!(!contains(&v("MACHINE OFF"), &[' ', 'O', 'N']));
    assert!(contains(&v("abc"), &[]));
    assert!(!contains(&v("ab"), &['a', 'b', 'c']));
}

#[test]
fn flags_from_upper_case_replies() {
    let v = |s: &str| s.chars().collect::<Vec<char>>();
    let st = |e: &str, m: &str, p: &str, md: &str, h: &str| state_of_replies(&v(e), &v(m), &v(p), &v(md), h);
    assert_eq!(st("ESTOP ON", "MACHINE ON", "", "", ""), (State::Estop, true));
    // these replies are taken as given: lower case reads as no flag
    assert_eq!(st("estop on", "MACHINE ON", "", "", "J yes"), (State::Idle, true));
    assert_eq!(st("ESTOP OFF", "MACHINE ON", "PROGRAM_STATUS RUNNING", "MODE MDI", "J NO"), (State::Mdi, false));
    assert_eq!(st("ESTOP OFF", "MACHINE ON", "PROGRAM_STATUS IDLE", "MODE MDI", "J NO"), (State::On, false));
}
