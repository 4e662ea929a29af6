//! The G- and M-code tables of the interpreter: what each code does to the
//! modal state, and which of a line's effects takes precedence. G codes
//! arrive in tenths (G59.1 is 591), M codes as the integer part of their
//! value.

use vstd::prelude::*;
use vstd::string::StringExecFns;
use crate::gcode::PauseKind;
use crate::text::{signed_decimal, signed_decimal_chars, string_of};

verus! {

/// What a G code does.
#[derive(Debug, Clone, Copy, PartialEq, Eq, Structural)]
pub enum GAction {
    /// G0–G3: the motion mode (also ends a canned cycle).
    Motion(u8),
    /// G4 dwell.
    Dwell,
    /// G7 (true) / G8 (false): X words are diameters.
    DiameterMode(bool),
    /// G10 offset setting.
    SetOffsets,
    /// G17/G18/G19.
    Plane(u8),
    /// G21 (true) / G20 (false).
    Metric(bool),
    /// G40.
    CompOff,
    /// G41 (true, cutter left) / G42 (false).
    Comp(bool),
    /// G43 tool length compensation.
    ToolLength,
    /// G49.
    ToolLengthOff,
    /// G54–G59.3 as system 0–8.
    Wcs(usize),
    /// G80.
    CycleOff,
    /// G81–G83.
    Cycle(u8),
    /// G90 (true) / G91 (false).
    Absolute(bool),
    /// G90.1 (true) / G91.1 (false): absolute arc centres.
    ArcAbsolute(bool),
    /// G92 origin offset.
    G92Set,
    /// G92.1.
    G92Clear,
    /// G98 (true, back to the initial Z) / G99 (false, back to R).
    RetractInitial(bool),
    /// Codes with nothing to show.
    Ignore,
}

/// The G code of `tenths` tenths.
pub open spec fn g_spec(t: int) -> GAction {
    if t == 0 || t == 10 || t == 20 || t == 30 {
        GAction::Motion((t / 10) as u8)
    } else if t == 40 {
        GAction::Dwell
    } else if t == 70 {
        GAction::DiameterMode(true)
    } else if t == 80 {
        GAction::DiameterMode(false)
    } else if t == 100 {
        GAction::SetOffsets
    } else if t == 170 || t == 180 || t == 190 {
        GAction::Plane((t / 10) as u8)
    } else if t == 200 {
        GAction::Metric(false)
    } else if t == 210 {
        GAction::Metric(true)
    } else if t == 400 {
        GAction::CompOff
    } else if t == 410 {
        GAction::Comp(true)
    } else if t == 420 {
        GAction::Comp(false)
    } else if t == 430 {
        GAction::ToolLength
    } else if t == 490 {
        GAction::ToolLengthOff
    } else if 540 <= t <= 590 && t % 10 == 0 {
        GAction::Wcs((t / 10 - 54) as usize)
    } else if t == 591 || t == 592 || t == 593 {
        GAction::Wcs((t - 585) as usize)
    } else if t == 800 {
        GAction::CycleOff
    } else if 810 <= t <= 830 && t % 10 == 0 {
        GAction::Cycle((t / 10) as u8)
    } else if t == 900 {
        GAction::Absolute(true)
    } else if t == 910 {
        GAction::Absolute(false)
    } else if t == 901 {
        GAction::ArcAbsolute(true)
    } else if t == 911 {
        GAction::ArcAbsolute(false)
    } else if t == 920 {
        GAction::G92Set
    } else if t == 921 {
        GAction::G92Clear
    } else if t == 980 {
        GAction::RetractInitial(true)
    } else if t == 990 {
        GAction::RetractInitial(false)
    } else {
        GAction::Ignore
    }
}

/// What the G code of `tenths` tenths does.
pub fn g_action(tenths: i64) -> (a: GAction)
    ensures
        a == g_spec(tenths as int),
{
    let t = tenths;
    if t == 0 || t == 10 || t == 20 || t == 30 {
        GAction::Motion((t / 10) as u8)
    } else if t == 40 {
        GAction::Dwell
    } else if t == 70 {
        GAction::DiameterMode(true)
    } else if t == 80 {
        GAction::DiameterMode(false)
    } else if t == 100 {
        GAction::SetOffsets
    } else if t == 170 || t == 180 || t == 190 {
        GAction::Plane((t / 10) as u8)
    } else if t == 200 {
        GAction::Metric(false)
    } else if t == 210 {
        GAction::Metric(true)
    } else if t == 400 {
        GAction::CompOff
    } else if t == 410 {
        GAction::Comp(true)
    } else if t == 420 {
        GAction::Comp(false)
    } else if t == 430 {
        GAction::ToolLength
    } else if t == 490 {
        GAction::ToolLengthOff
    } else if 540 <= t && t <= 590 && t % 10 == 0 {
        GAction::Wcs((t / 10 - 54) as usize)
    } else if t == 591 || t == 592 || t == 593 {
        GAction::Wcs((t - 585) as usize)
    } else if t == 800 {
        GAction::CycleOff
    } else if 810 <= t && t <= 830 && t % 10 == 0 {
        GAction::Cycle((t / 10) as u8)
    } else if t == 900 {
        GAction::Absolute(true)
    } else if t == 910 {
        GAction::Absolute(false)
    } else if t == 901 {
        GAction::ArcAbsolute(true)
    } else if t == 911 {
        GAction::ArcAbsolute(false)
    } else if t == 920 {
        GAction::G92Set
    } else if t == 921 {
        GAction::G92Clear
    } else if t == 980 {
        GAction::RetractInitial(true)
    } else if t == 990 {
        GAction::RetractInitial(false)
    } else {
        GAction::Ignore
    }
}

/// What an M code does.
#[derive(Debug, Clone, Copy, PartialEq, Eq, Structural)]
pub enum MAction {
    /// M0 / M1.
    Pause(PauseKind),
    /// M2 / M30: end of program.
    End,
    /// M3 / M4 (true), M5 (false).
    Spindle(bool),
    /// M6.
    ToolChange,
    /// M7 / M8 (true), M9 (false).
    Coolant(bool),
    Ignore,
}

pub open spec fn m_spec(m: int) -> MAction {
    if m == 0 {
        MAction::Pause(PauseKind::Mandatory)
    } else if m == 1 {
        MAction::Pause(PauseKind::Optional)
    } else if m == 2 || m == 30 {
        MAction::End
    } else if m == 3 || m == 4 {
        MAction::Spindle(true)
    } else if m == 5 {
        MAction::Spindle(false)
    } else if m == 6 {
        MAction::ToolChange
    } else if m == 7 || m == 8 {
        MAction::Coolant(true)
    } else if m == 9 {
        MAction::Coolant(false)
    } else {
        MAction::Ignore
    }
}

pub fn m_action(m: i64) -> (a: MAction)
    ensures
        a == m_spec(m as int),
{
    if m == 0 {
        MAction::Pause(PauseKind::Mandatory)
    } else if m == 1 {
        MAction::Pause(PauseKind::Optional)
    } else if m == 2 || m == 30 {
        MAction::End
    } else if m == 3 || m == 4 {
        MAction::Spindle(true)
    } else if m == 5 {
        MAction::Spindle(false)
    } else if m == 6 {
        MAction::ToolChange
    } else if m == 7 || m == 8 {
        MAction::Coolant(true)
    } else if m == 9 {
        MAction::Coolant(false)
    } else {
        MAction::Ignore
    }
}

/// How G10 sets a work offset.
#[derive(Debug, Clone, Copy, PartialEq, Eq, Structural)]
pub enum G10Mode {
    /// L2: the offset is the value given.
    Absolute,
    /// L20: the offset makes the current position read the value given.
    TouchOff,
}

/// The work system (0–8) and mode of `G10 L<l> P<p>`, or why it is
/// refused; P is checked before L.
pub open spec fn g10_spec(l: int, p: int) -> Result<(G10Mode, nat), Seq<char>> {
    if !(1 <= p <= 9) {
        Err("G10 P"@ + signed_decimal(p) + " out of range (1–9)"@)
    } else if l == 2 {
        Ok((G10Mode::Absolute, (p - 1) as nat))
    } else if l == 20 {
        Ok((G10Mode::TouchOff, (p - 1) as nat))
    } else {
        Err("unsupported G10 L"@ + signed_decimal(l))
    }
}

pub fn g10_target(l: i64, p: i64) -> (r: Result<(G10Mode, usize), String>)
    ensures
        match (r, g10_spec(l as int, p as int)) {
            (Ok(a), Ok(b)) => a.0 == b.0 && a.1 == b.1,
            (Err(e), Err(f)) => e@ == f,
            _ => false,
        },
{
    if !(1 <= p && p <= 9) {
        let mut msg = String::from_str("G10 P");
        let digits = string_of(&signed_decimal_chars(p));
        msg.append(digits.as_str());
        msg.append(" out of range (1–9)");
        return Err(msg);
    }
    let sys = (p - 1) as usize;
    if l == 2 {
        Ok((G10Mode::Absolute, sys))
    } else if l == 20 {
        Ok((G10Mode::TouchOff, sys))
    } else {
        let mut msg = String::from_str("unsupported G10 L");
        let digits = string_of(&signed_decimal_chars(l));
        msg.append(digits.as_str());
        Err(msg)
    }
}

} // verus!

verus! {

// ── what a line of words does ─────────────────────────────────────────────

/// What the interpreter gathered from the words of one line, before any
/// coordinate is computed.
#[derive(Debug, Clone, Copy, PartialEq, Eq, Structural)]
pub struct LineWords {
    /// G41/G42 on the line: Some(true) for cutter left.
    pub comp_engage: Option<bool>,
    /// The active plane after the line's G codes (17, 18 or 19).
    pub plane: u8,
    /// M2/M30 on the line.
    pub end: bool,
    /// G10 on the line.
    pub g10: bool,
    /// G92 on the line.
    pub g92: bool,
    /// A canned cycle is active after the line's G codes.
    pub cycle_active: bool,
    /// An X, Y, Z or A word on the line.
    pub axis_word: bool,
    /// A motion code (G0–G3 or a cycle) on the line.
    pub motion_on_line: bool,
    /// The active motion mode (0–3).
    pub motion: u8,
    /// An I, J, K or R word on the line.
    pub arc_words: bool,
}

/// How a line ends, once its modal words are applied.
#[derive(Debug, Clone, Copy, PartialEq, Eq, Structural)]
pub enum LineAction {
    /// End of program.
    EndProgram,
    /// Set a work offset (G10).
    SetOffsets,
    /// Set the G92 origin.
    SetG92,
    /// Run the active canned cycle at the line's position.
    Cycle,
    /// Move in motion mode 0–3 (rapid, feed, clockwise or counter-clockwise arc).
    Move(u8),
    /// Nothing moves.
    Nothing,
}

/// The precedence of a line's effects: the plane check of cutter
/// compensation first, then end of program, G10, G92, an active cycle, and
/// last a move, which needs an axis word (or, for an arc, a motion code with
/// its centre words).
pub open spec fn line_spec(w: LineWords) -> Result<LineAction, Seq<char>> {
    if w.comp_engage is Some && w.plane != 17 {
        Err("cutter compensation requires G17"@)
    } else if w.end {
        Ok(LineAction::EndProgram)
    } else if w.g10 {
        Ok(LineAction::SetOffsets)
    } else if w.g92 {
        Ok(LineAction::SetG92)
    } else if w.cycle_active {
        Ok(if w.axis_word || w.motion_on_line { LineAction::Cycle } else { LineAction::Nothing })
    } else if !w.axis_word && !(w.motion_on_line && (w.motion == 2 || w.motion == 3) && w.arc_words) {
        Ok(LineAction::Nothing)
    } else if w.motion <= 3 {
        Ok(LineAction::Move(w.motion))
    } else {
        Ok(LineAction::Nothing)
    }
}

pub fn line_action(w: LineWords) -> (r: Result<LineAction, String>)
    ensures
        match (r, line_spec(w)) {
            (Ok(a), Ok(b)) => a == b,
            (Err(e), Err(f)) => e@ == f,
            _ => false,
        },
{
    if w.comp_engage.is_some() && w.plane != 17 {
        Err(String::from_str("cutter compensation requires G17"))
    } else if w.end {
        Ok(LineAction::EndProgram)
    } else if w.g10 {
        Ok(LineAction::SetOffsets)
    } else if w.g92 {
        Ok(LineAction::SetG92)
    } else if w.cycle_active {
        Ok(if w.axis_word || w.motion_on_line { LineAction::Cycle } else { LineAction::Nothing })
    } else if !w.axis_word && !(w.motion_on_line && (w.motion == 2 || w.motion == 3) && w.arc_words) {
        Ok(LineAction::Nothing)
    } else if w.motion <= 3 {
        Ok(LineAction::Move(w.motion))
    } else {
        Ok(LineAction::Nothing)
    }
}

/// A line that ends the program does nothing else: no offset is set and
/// nothing moves, whatever else it holds.
pub proof fn law_end_takes_precedence(w: LineWords)
    requires
        w.end,
        w.comp_engage is None || w.plane == 17,
    ensures
        line_spec(w) == Ok::<LineAction, Seq<char>>(LineAction::EndProgram),
{
}

/// Without an axis word a line moves only as an arc programmed on that
/// very line with its centre words.
pub proof fn law_no_axis_no_straight_move(w: LineWords)
    requires
        !w.axis_word,
        !w.cycle_active,
    ensures
        line_spec(w) matches Ok(LineAction::Move(m)) ==> (m == 2 || m == 3) && w.motion_on_line && w.arc_words,
{
}

} // verus!

verus! {

// ── laws of the code tables ───────────────────────────────────────────────

/// The G-code table, code by code (in tenths): G0–G3 motion, G4 dwell,
/// G7/G8 diameter mode, G10, G17–G19 planes, G20 inch / G21 metric,
/// G40–G42 cutter compensation, G43/G49 tool length, G54–G59.3 work
/// systems 0–8, G80–G83 cycles, G90 absolute / G91 incremental distance,
/// G90.1/G91.1 arc centres, G92/G92.1, G98/G99 retract.
pub proof fn law_g_code_table()
    ensures
        g_spec(0) == GAction::Motion(0),
        g_spec(10) == GAction::Motion(1),
        g_spec(20) == GAction::Motion(2),
        g_spec(30) == GAction::Motion(3),
        g_spec(40) == GAction::Dwell,
        g_spec(70) == GAction::DiameterMode(true),
        g_spec(80) == GAction::DiameterMode(false),
        g_spec(100) == GAction::SetOffsets,
        g_spec(170) == GAction::Plane(17),
        g_spec(180) == GAction::Plane(18),
        g_spec(190) == GAction::Plane(19),
        g_spec(200) == GAction::Metric(false),
        g_spec(210) == GAction::Metric(true),
        g_spec(400) == GAction::CompOff,
        g_spec(410) == GAction::Comp(true),
        g_spec(420) == GAction::Comp(false),
        g_spec(430) == GAction::ToolLength,
        g_spec(490) == GAction::ToolLengthOff,
        g_spec(540) == GAction::Wcs(0),
        g_spec(550) == GAction::Wcs(1),
        g_spec(560) == GAction::Wcs(2),
        g_spec(570) == GAction::Wcs(3),
        g_spec(580) == GAction::Wcs(4),
        g_spec(590) == GAction::Wcs(5),
        g_spec(591) == GAction::Wcs(6),
        g_spec(592) == GAction::Wcs(7),
        g_spec(593) == GAction::Wcs(8),
        g_spec(800) == GAction::CycleOff,
        g_spec(810) == GAction::Cycle(81),
        g_spec(820) == GAction::Cycle(82),
        g_spec(830) == GAction::Cycle(83),
        g_spec(900) == GAction::Absolute(true),
        g_spec(910) == GAction::Absolute(false),
        g_spec(901) == GAction::ArcAbsolute(true),
        g_spec(911) == GAction::ArcAbsolute(false),
        g_spec(920) == GAction::G92Set,
        g_spec(921) == GAction::G92Clear,
        g_spec(980) == GAction::RetractInitial(true),
        g_spec(990) == GAction::RetractInitial(false),
{
}

/// Each action comes from exactly one code: nothing but G90 selects
/// absolute distance and nothing but G91 incremental, and so on for every
/// entry; every other code does nothing.
pub proof fn law_g_codes_are_unique(t: int)
    ensures
        g_spec(t) matches GAction::Motion(m) ==> m <= 3 && t == 10 * m,
        g_spec(t) == GAction::Dwell ==> t == 40,
        g_spec(t) matches GAction::DiameterMode(on) ==> t == (if on { 70int } else { 80int }),
        g_spec(t) == GAction::SetOffsets ==> t == 100,
        g_spec(t) matches GAction::Plane(p) ==> 17 <= p <= 19 && t == 10 * p,
        g_spec(t) matches GAction::Metric(on) ==> t == (if on { 210int } else { 200int }),
        g_spec(t) == GAction::CompOff ==> t == 400,
        g_spec(t) matches GAction::Comp(left) ==> t == (if left { 410int } else { 420int }),
        g_spec(t) == GAction::ToolLength ==> t == 430,
        g_spec(t) == GAction::ToolLengthOff ==> t == 490,
        g_spec(t) matches GAction::Wcs(i) ==> i <= 8 && t == (if i <= 5 { 540 + 10 * i } else { 585 + i }),
        g_spec(t) == GAction::CycleOff ==> t == 800,
        g_spec(t) matches GAction::Cycle(c) ==> 81 <= c <= 83 && t == 10 * c,
        g_spec(t) matches GAction::Absolute(on) ==> t == (if on { 900int } else { 910int }),
        g_spec(t) matches GAction::ArcAbsolute(on) ==> t == (if on { 901int } else { 911int }),
        g_spec(t) == GAction::G92Set ==> t == 920,
        g_spec(t) == GAction::G92Clear ==> t == 921,
        g_spec(t) matches GAction::RetractInitial(initial) ==> t == (if initial { 980int } else { 990int }),
{
}

/// The M-code table: each action and the codes that give it.
pub proof fn law_m_code_table(m: int)
    ensures
        (m_spec(m) == MAction::Pause(PauseKind::Mandatory)) <==> m == 0,
        (m_spec(m) == MAction::Pause(PauseKind::Optional)) <==> m == 1,
        (m_spec(m) == MAction::End) <==> (m == 2 || m == 30),
        (m_spec(m) == MAction::Spindle(true)) <==> (m == 3 || m == 4),
        (m_spec(m) == MAction::Spindle(false)) <==> m == 5,
        (m_spec(m) == MAction::ToolChange) <==> m == 6,
        (m_spec(m) == MAction::Coolant(true)) <==> (m == 7 || m == 8),
        (m_spec(m) == MAction::Coolant(false)) <==> m == 9,
{
}

} // verus!

verus! {

/// `G10 L2 P<p>` sets work system p−1 to the values given and `G10 L20
/// P<p>` touches it off; P must be 1–9 (checked first), and any other L is
/// refused.
pub proof fn law_g10_selection(l: int, p: int)
    ensures
        g10_spec(l, p) matches Ok(r) ==> 1 <= p <= 9 && r.1 == p - 1
            && ((l == 2 && r.0 == G10Mode::Absolute) || (l == 20 && r.0 == G10Mode::TouchOff)),
        (1 <= p <= 9 && (l == 2 || l == 20)) ==> g10_spec(l, p) is Ok,
        !(1 <= p <= 9) ==> g10_spec(l, p) == Err::<(G10Mode, nat), Seq<char>>("G10 P"@ + signed_decimal(p) + " out of range (1–9)"@),
        (1 <= p <= 9 && l != 2 && l != 20) ==> g10_spec(l, p) == Err::<(G10Mode, nat), Seq<char>>("unsupported G10 L"@ + signed_decimal(l)),
{
}

/// What each outcome of a line requires of its words: a move is in the
/// active motion mode and needs an axis word or an arc with its centre;
/// a cycle runs only while one is active and the line names a position or
/// a cycle; G10 and G92 act only when named and nothing of higher rank is
/// on the line; an invalid plane for cutter compensation is the only
/// refusal.
pub proof fn law_line_outcomes(w: LineWords)
    ensures
        line_spec(w) is Err <==> (w.comp_engage is Some && w.plane != 17),
        line_spec(w) == Ok::<LineAction, Seq<char>>(LineAction::EndProgram) ==> w.end,
        line_spec(w) == Ok::<LineAction, Seq<char>>(LineAction::SetOffsets) ==> w.g10 && !w.end,
        line_spec(w) == Ok::<LineAction, Seq<char>>(LineAction::SetG92) ==> w.g92 && !w.g10 && !w.end,
        line_spec(w) == Ok::<LineAction, Seq<char>>(LineAction::Cycle) ==> w.cycle_active && (w.axis_word || w.motion_on_line) && !w.g92 && !w.g10 && !w.end,
        line_spec(w) matches Ok(LineAction::Move(m)) ==> m == w.motion && m <= 3 && !w.cycle_active && !w.g92 && !w.g10 && !w.end
            && (w.axis_word || (w.motion_on_line && (m == 2 || m == 3) && w.arc_words)),
        (!(w.comp_engage is Some && w.plane != 17) && !w.end && !w.g10 && !w.g92 && !w.cycle_active && w.axis_word && w.motion <= 3)
            ==> line_spec(w) == Ok::<LineAction, Seq<char>>(LineAction::Move(w.motion)),
{
}

} // verus!
