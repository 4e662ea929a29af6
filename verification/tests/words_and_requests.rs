use helix::api::{is_program_name, request_kind, tool_order, RequestKind};
use helix::gcode::PauseKind;
use helix::text::{decimal_chars, signed_decimal_chars};
use helix::words::{g10_target, g_action, line_action, m_action, G10Mode, GAction, LineAction, LineWords, MAction};

#[test]
fn g_codes() {
    assert_eq!(g_action(0), GAction::Motion(0));
    assert_eq!(g_action(10), GAction::Motion(1));
    assert_eq!(g_action(20), GAction::Motion(2));
    assert_eq!(g_action(30), GAction::Motion(3));
    assert_eq!(g_action(40), GAction::Dwell);
    assert_eq!(g_action(70), GAction::DiameterMode(true));
    assert_eq!(g_action(80), GAction::DiameterMode(false));
    assert_eq!(g_action(100), GAction::SetOffsets);
    assert_eq!(g_action(180), GAction::Plane(18));
    assert_eq!(g_action(200), GAction::Metric(false));
    assert_eq!(g_action(210), GAction::Metric(true));
    assert_eq!(g_action(410), GAction::Comp(true));
    assert_eq!(g_action(420), GAction::Comp(false));
    assert_eq!(g_action(540), GAction::Wcs(0));
    assert_eq!(g_action(590), GAction::Wcs(5));
    assert_eq!(g_action(591), GAction::Wcs(6));
    assert_eq!(g_action(593), GAction::Wcs(8));
    assert_eq!(g_action(545), GAction::Ignore);
    assert_eq!(g_action(820), GAction::Cycle(82));
    assert_eq!(g_action(840), GAction::Ignore);
    assert_eq!(g_action(901), GAction::ArcAbsolute(true));
    assert_eq!(g_action(911), GAction::ArcAbsolute(false));
    assert_eq!(g_action(921), GAction::G92Clear);
    assert_eq!(g_action(980), GAction::RetractInitial(true));
    assert_eq!(g_action(-10), GAction::Ignore);
    assert_eq!(g_action(i64::MAX), GAction::Ignore);
}

#[test]
fn m_codes() {
    assert_eq!(m_action(0), MAction::Pause(PauseKind::Mandatory));
    assert_eq!(m_action(1), MAction::Pause(PauseKind::Optional));
    assert_eq!(m_action(2), MAction::End);
    assert_eq!(m_action(30), MAction::End);
    assert_eq!(m_action(4), MAction::Spindle(true));
    assert_eq!(m_action(5), MAction::Spindle(false));
    assert_eq!(m_action(6), MAction::ToolChange);
    assert_eq!(m_action(7), MAction::Coolant(true));
    assert_eq!(m_action(9), MAction::Coolant(false));
    assert_eq!(m_action(98), MAction::Ignore);
}

#[test]
fn g10_systems() {
    assert_eq!(g10_target(2, 2).unwrap(), (G10Mode::Absolute, 1));
    assert_eq!(g10_target(20, 9).unwrap(), (G10Mode::TouchOff, 8));
    assert_eq!(g10_target(2, 0).unwrap_err(), "G10 P0 out of range (1–9)");
    assert_eq!(g10_target(7, -3).unwrap_err(), "G10 P-3 out of range (1–9)");
    assert_eq!(g10_target(1, 1).unwrap_err(), "unsupported G10 L1");
    assert_eq!(g10_target(-12, 1).unwrap_err(), "unsupported G10 L-12");
}

#[test]
fn decimal_text() {
    let s = |v: Vec<char>| v.into_iter().collect::<String>();
    assert_eq!(s(decimal_chars(0)), "0");
    assert_eq!(s(decimal_chars(105)), "105");
    assert_eq!(s(decimal_chars(u64::MAX)), u64::MAX.to_string());
    assert_eq!(s(signed_decimal_chars(-7)), "-7");
    assert_eq!(s(signed_decimal_chars(i64::MIN)), i64::MIN.to_string());
    assert_eq!(s(signed_decimal_chars(i64::MAX)), i64::MAX.to_string());
}

#[test]
fn request_names() {
    let all = [
        ("estop", RequestKind::Estop),
        ("estop_reset", RequestKind::EstopReset),
        ("power", RequestKind::Power),
        ("home", RequestKind::Home),
        ("jog", RequestKind::Jog),
        ("jog_step", RequestKind::JogStep),
        ("mdi", RequestKind::Mdi),
        ("run", RequestKind::Run),
        ("pause", RequestKind::Pause),
        ("resume", RequestKind::Resume),
        ("stop", RequestKind::Stop),
        ("single_block", RequestKind::SingleBlock),
        ("optional_stop", RequestKind::OptionalStop),
        ("block_delete", RequestKind::BlockDelete),
        ("wcs", RequestKind::Wcs),
        ("touch_off", RequestKind::TouchOff),
        ("tool", RequestKind::Tool),
        ("spindle", RequestKind::Spindle),
        ("coolant", RequestKind::Coolant),
        ("override", RequestKind::Override),
    ];
    for (name, kind) in all {
        assert_eq!(request_kind(Some(name)).unwrap(), kind);
    }
    assert_eq!(request_kind(Some("fly")).unwrap_err().0, "unknown command Some(\"fly\")");
    assert_eq!(request_kind(None).unwrap_err().0, "unknown command None");
    assert_eq!(request_kind(Some("ESTOP")).unwrap_err().0, format!("unknown command {:?}", Some("ESTOP")));
}

#[test]
fn program_names() {
    assert!(is_program_name("part.ngc"));
    assert!(is_program_name("part.nc"));
    assert!(is_program_name("a.b.gcode"));
    assert!(is_program_name(".nc"));
    assert!(!is_program_name("part.NGC"));
    assert!(!is_program_name("part.txt"));
    assert!(!is_program_name("ngc"));
}

#[test]
fn tool_table_order() {
    // numbers 0 dropped, sorted, first of each number kept
    assert_eq!(tool_order(&vec![3, 0, 1, 3, 2, 1]), vec![2, 4, 0]);
    assert_eq!(tool_order(&vec![]), Vec::<usize>::new());
    assert_eq!(tool_order(&vec![0, 0]), Vec::<usize>::new());
    // an already saved table stays as it is
    assert_eq!(tool_order(&vec![1, 2, 3]), vec![0, 1, 2]);
}

fn seen() -> LineWords {
    LineWords {
        comp_engage: None,
        plane: 17,
        end: false,
        g10: false,
        g92: false,
        cycle_active: false,
        axis_word: false,
        motion_on_line: false,
        motion: 0,
        arc_words: false,
    }
}

#[test]
fn line_effects_in_order() {
    assert_eq!(line_action(seen()).unwrap(), LineAction::Nothing);
    assert_eq!(line_action(LineWords { axis_word: true, motion: 1, ..seen() }).unwrap(), LineAction::Move(1));
    assert_eq!(line_action(LineWords { end: true, g10: true, axis_word: true, ..seen() }).unwrap(), LineAction::EndProgram);
    assert_eq!(line_action(LineWords { g10: true, g92: true, ..seen() }).unwrap(), LineAction::SetOffsets);
    assert_eq!(line_action(LineWords { g92: true, axis_word: true, ..seen() }).unwrap(), LineAction::SetG92);
    assert_eq!(line_action(LineWords { cycle_active: true, axis_word: true, ..seen() }).unwrap(), LineAction::Cycle);
    assert_eq!(line_action(LineWords { cycle_active: true, ..seen() }).unwrap(), LineAction::Nothing);
    // a full circle: G2 with I/J and no axis word
    assert_eq!(line_action(LineWords { motion_on_line: true, motion: 2, arc_words: true, ..seen() }).unwrap(), LineAction::Move(2));
    assert_eq!(line_action(LineWords { motion: 2, arc_words: true, ..seen() }).unwrap(), LineAction::Nothing);
    assert_eq!(
        line_action(LineWords { comp_engage: Some(true), plane: 18, end: true, ..seen() }).unwrap_err(),
        "cutter compensation requires G17"
    );
    assert_eq!(line_action(LineWords { comp_engage: Some(false), axis_word: true, ..seen() }).unwrap(), LineAction::Move(0));
}
