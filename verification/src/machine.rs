//! The machine state machine every controller backend honours:
//!
//! ```text
//! ESTOP ──reset──▶ OFF ──power──▶ ON ──home──▶ HOMED (IDLE)
//!   ▲                                            │  ▲
//!   └────────────── estop (from anywhere)        │  └─ pause/stop/done
//!                                        run/jog/mdi ──▶ RUNNING / JOG / MDI
//! ```
//!
//! Requests that the current state does not allow are rejected and leave
//! the state as it was.

use vstd::prelude::*;
use vstd::string::StringExecFns;
use crate::text::{chars_of, is_ws, lemma_run_end_bounds, lemma_skip_ws_bounds, lower, run_end, skip_ws, skip_ws_from, to_ascii_lowercase};
use crate::expr::{all_digits, digits_value, matches_ignoring_case, unsigned_digits};
use crate::text::{is_ascii_digit, is_digit, slice_of};
use crate::text::{debug_str, str_debug};

verus! {

#[derive(Debug, Clone, Copy, PartialEq, Eq, Structural)]
pub enum State {
    Estop,
    /// E-stop reset, drives unpowered.
    Off,
    /// Powered, not homed.
    On,
    Homing,
    /// Homed, ready.
    Idle,
    Jog,
    Mdi,
    Running,
    Paused,
}

pub open spec fn state_name(s: State) -> Seq<char> {
    match s {
        State::Estop => "estop"@,
        State::Off => "off"@,
        State::On => "on"@,
        State::Homing => "homing"@,
        State::Idle => "idle"@,
        State::Jog => "jog"@,
        State::Mdi => "mdi"@,
        State::Running => "running"@,
        State::Paused => "paused"@,
    }
}

impl State {
    pub fn as_str(self) -> (r: &'static str)
        ensures
            r@ == state_name(self),
    {
        match self {
            State::Estop => "estop",
            State::Off => "off",
            State::On => "on",
            State::Homing => "homing",
            State::Idle => "idle",
            State::Jog => "jog",
            State::Mdi => "mdi",
            State::Running => "running",
            State::Paused => "paused",
        }
    }
}

/// A rejected request, with the reason shown to the operator.
#[derive(Debug)]
pub struct MachineError(pub String);

pub fn reject(msg: String) -> (e: MachineError)
    ensures
        e.0@ == msg@,
{
    MachineError(msg)
}

/// How std's `Debug` writes a character (quoted and escaped).
pub uninterp spec fn char_debug(c: char) -> Seq<char>;

/// std's `Debug` formatting of a `char` (`format!("{c:?}")`). Claimed: the
/// result depends on `c` alone and is named `char_debug`; the quoting and
/// escaping rules are not spelled out.
#[verifier::external_body]
fn debug_char(c: char) -> (r: String)
    ensures
        r@ == char_debug(c),
{
    format!("{c:?}")
}

pub open spec fn axis_spec(axis: char) -> Option<usize> {
    if axis == 'x' {
        Some(0)
    } else if axis == 'y' {
        Some(1)
    } else if axis == 'z' {
        Some(2)
    } else {
        None
    }
}

/// Index of a linear axis: x, y, z.
pub fn axis_index(axis: char) -> (r: Result<usize, MachineError>)
    ensures
        match (r, axis_spec(axis)) {
            (Ok(i), Some(j)) => i == j,
            (Err(e), None) => e.0@ == "unknown axis "@ + char_debug(axis),
            _ => false,
        },
{
    match axis {
        'x' => Ok(0),
        'y' => Ok(1),
        'z' => Ok(2),
        _ => {
            let mut msg = String::from_str("unknown axis ");
            let d = debug_char(axis);
            msg.append(d.as_str());
            Err(reject(msg))
        },
    }
}

/// The three operator overrides.
#[derive(Debug, Clone, Copy, PartialEq, Eq, Structural)]
pub enum OverrideKind {
    Feed,
    Rapid,
    Spindle,
}

pub open spec fn override_spec(kind: Seq<char>) -> Option<OverrideKind> {
    if kind == "feed"@ {
        Some(OverrideKind::Feed)
    } else if kind == "rapid"@ {
        Some(OverrideKind::Rapid)
    } else if kind == "spindle"@ {
        Some(OverrideKind::Spindle)
    } else {
        None
    }
}

/// Which override a request names: "feed" | "rapid" | "spindle".
pub fn override_kind(kind: &str) -> (r: Result<OverrideKind, MachineError>)
    ensures
        match (r, override_spec(kind@)) {
            (Ok(k), Some(j)) => k == j,
            (Err(e), None) => e.0@ == "unknown override "@ + str_debug(kind@),
            _ => false,
        },
{
    let k = chars_of(kind);
    proof {
        reveal_strlit("feed");
        reveal_strlit("rapid");
        reveal_strlit("spindle");
    }
    if crate::text::chars_eq(&k, &['f', 'e', 'e', 'd']) {
        assert(kind@ =~= "feed"@);
        Ok(OverrideKind::Feed)
    } else if crate::text::chars_eq(&k, &['r', 'a', 'p', 'i', 'd']) {
        assert(kind@ =~= "rapid"@);
        Ok(OverrideKind::Rapid)
    } else if crate::text::chars_eq(&k, &['s', 'p', 'i', 'n', 'd', 'l', 'e']) {
        assert(kind@ =~= "spindle"@);
        Ok(OverrideKind::Spindle)
    } else {
        proof {
            if kind@ == "feed"@ {
                assert(k@ =~= seq!['f', 'e', 'e', 'd']);
            }
            if kind@ == "rapid"@ {
                assert(k@ =~= seq!['r', 'a', 'p', 'i', 'd']);
            }
            if kind@ == "spindle"@ {
                assert(k@ =~= seq!['s', 'p', 'i', 'n', 'd', 'l', 'e']);
            }
        }
        let mut msg = String::from_str("unknown override ");
        let d = debug_str(kind);
        msg.append(d.as_str());
        Err(reject(msg))
    }
}

pub open spec fn wcs_name_spec(index: nat) -> Seq<char> {
    if index == 0 {
        "G54"@
    } else if index == 1 {
        "G55"@
    } else if index == 2 {
        "G56"@
    } else if index == 3 {
        "G57"@
    } else if index == 4 {
        "G58"@
    } else if index == 5 {
        "G59"@
    } else if index == 6 {
        "G59.1"@
    } else if index == 7 {
        "G59.2"@
    } else {
        "G59.3"@
    }
}

/// G-code of work coordinate system `index` (0 = G54 … 8 = G59.3).
pub fn wcs_name(index: usize) -> (r: Result<&'static str, MachineError>)
    ensures
        index < 9 ==> r == Ok::<&'static str, MachineError>(r->Ok_0) && r->Ok_0@ == wcs_name_spec(index as nat),
        index >= 9 ==> r == Err::<&'static str, MachineError>(r->Err_0) && r->Err_0.0@ == "WCS index out of range (0–8)"@,
{
    if index >= 9 {
        return Err(reject(String::from_str("WCS index out of range (0–8)")));
    }
    let name = match index {
        0 => "G54",
        1 => "G55",
        2 => "G56",
        3 => "G57",
        4 => "G58",
        5 => "G59",
        6 => "G59.1",
        7 => "G59.2",
        _ => "G59.3",
    };
    Ok(name)
}

} // verus!

verus! {

/// A request to the state machine, or an event of the motion it runs.
#[derive(Debug, Clone, Copy, PartialEq, Eq, Structural)]
pub enum Command {
    Estop,
    EstopReset,
    /// Drives on (true) or off (false).
    Power(bool),
    Home,
    /// Start or change a continuous jog.
    JogStart,
    /// Stop one axis' continuous jog; true while other jog motion is left.
    JogStop(bool),
    /// Queue a step jog.
    JogStep,
    /// Run an MDI line; true when it has motion.
    Mdi(bool),
    /// Stage a program.
    Load,
    /// Run the staged program; true when one with motion is staged.
    Run(bool),
    Pause,
    Resume,
    Stop,
    /// The homing sequence reached home.
    HomingDone,
    /// All jog motion ended.
    JogDone,
    /// A program or MDI line ran out of motion.
    MotionDone,
}

pub open spec fn cannot(action: Seq<char>, s: State) -> Seq<char> {
    "cannot "@ + action + " while "@ + state_name(s)
}

/// The state machine: the next (state, homed) after `c`, or why it is
/// refused.
pub open spec fn step_spec(s: State, homed: bool, c: Command) -> Result<(State, bool), Seq<char>> {
    match c {
        Command::Estop => Ok((State::Estop, homed)),
        Command::EstopReset => Ok((if s == State::Estop { State::Off } else { s }, homed)),
        Command::Power(on) => if on {
            if s == State::Off {
                Ok((if homed { State::Idle } else { State::On }, homed))
            } else {
                Err(cannot("power on"@, s))
            }
        } else if s == State::Running || s == State::Paused || s == State::Homing {
            Err("cannot power off while in motion"@)
        } else {
            Ok((if s == State::Estop { State::Estop } else { State::Off }, homed))
        },
        Command::Home => if s == State::On || s == State::Idle {
            Ok((State::Homing, homed))
        } else {
            Err(cannot("home"@, s))
        },
        Command::JogStart | Command::JogStep => if s == State::Idle || s == State::Jog {
            Ok((State::Jog, homed))
        } else {
            Err(cannot("jog"@, s))
        },
        Command::JogStop(left) => Ok((if s == State::Jog && !left { State::Idle } else { s }, homed)),
        Command::Mdi(motion) => if s == State::Idle {
            Ok((if motion { State::Mdi } else { s }, homed))
        } else {
            Err(cannot("MDI"@, s))
        },
        Command::Load => if s == State::Running || s == State::Paused {
            Err("cannot load a program while one is running"@)
        } else {
            Ok((s, homed))
        },
        Command::Run(staged) => if s != State::Idle {
            Err(cannot("run"@, s))
        } else if !staged {
            Err("no program loaded"@)
        } else {
            Ok((State::Running, homed))
        },
        Command::Pause => if s == State::Running {
            Ok((State::Paused, homed))
        } else {
            Err(cannot("pause"@, s))
        },
        Command::Resume => if s == State::Paused {
            Ok((State::Running, homed))
        } else {
            Err(cannot("resume"@, s))
        },
        Command::Stop => Ok((if s == State::Running || s == State::Paused || s == State::Mdi || s == State::Jog { State::Idle } else { s }, homed)),
        Command::HomingDone => if s == State::Homing { Ok((State::Idle, true)) } else { Ok((s, homed)) },
        Command::JogDone => if s == State::Jog { Ok((State::Idle, homed)) } else { Ok((s, homed)) },
        Command::MotionDone => if s == State::Running || s == State::Mdi { Ok((State::Idle, homed)) } else { Ok((s, homed)) },
    }
}

/// States that only a homed machine can be in; `On` means powered and not
/// homed.
pub open spec fn consistent(s: State, homed: bool) -> bool {
    &&& (s == State::Idle || s == State::Jog || s == State::Mdi || s == State::Running || s == State::Paused) ==> homed
    &&& s == State::On ==> !homed
}

/// The machine's state and whether it has been homed.
pub struct StateMachine {
    state: State,
    homed: bool,
}

impl StateMachine {
    pub closed spec fn view(&self) -> (State, bool) {
        (self.state, self.homed)
    }

    /// A machine starts in e-stop, not homed.
    pub fn new() -> (m: StateMachine)
        ensures
            m@ == (State::Estop, false),
    {
        StateMachine { state: State::Estop, homed: false }
    }

    pub fn state(&self) -> (s: State)
        ensures
            s == self@.0,
    {
        self.state
    }

    pub fn homed(&self) -> (h: bool)
        ensures
            h == self@.1,
    {
        self.homed
    }

    fn require(&self, allowed: bool, action: &str) -> (r: Result<(), MachineError>)
        ensures
            allowed ==> r is Ok,
            !allowed ==> (r matches Err(e) && e.0@ == cannot(action@, self.state)),
    {
        if allowed {
            Ok(())
        } else {
            let mut msg = String::from_str("cannot ");
            msg.append(action);
            msg.append(" while ");
            msg.append(self.state.as_str());
            Err(reject(msg))
        }
    }

    /// Apply a request or event; a refused request changes nothing.
    pub fn apply(&mut self, c: Command) -> (r: Result<(), MachineError>)
        ensures
            match step_spec(old(self)@.0, old(self)@.1, c) {
                Ok(next) => r is Ok && final(self)@ == next,
                Err(msg) => r matches Err(e) && e.0@ == msg && final(self)@ == old(self)@,
            },
    {
        let s = self.state;
        match c {
            Command::Estop => {
                self.state = State::Estop;
                Ok(())
            },
            Command::EstopReset => {
                if s == State::Estop {
                    self.state = State::Off;
                }
                Ok(())
            },
            Command::Power(on) => {
                if on {
                    self.require(s == State::Off, "power on")?;
                    self.state = if self.homed { State::Idle } else { State::On };
                    Ok(())
                } else if s == State::Running || s == State::Paused || s == State::Homing {
                    Err(reject(String::from_str("cannot power off while in motion")))
                } else {
                    if s != State::Estop {
                        self.state = State::Off;
                    }
                    Ok(())
                }
            },
            Command::Home => {
                self.require(s == State::On || s == State::Idle, "home")?;
                self.state = State::Homing;
                Ok(())
            },
            Command::JogStart | Command::JogStep => {
                self.require(s == State::Idle || s == State::Jog, "jog")?;
                self.state = State::Jog;
                Ok(())
            },
            Command::JogStop(left) => {
                if s == State::Jog && !left {
                    self.state = State::Idle;
                }
                Ok(())
            },
            Command::Mdi(motion) => {
                self.require(s == State::Idle, "MDI")?;
                if motion {
                    self.state = State::Mdi;
                }
                Ok(())
            },
            Command::Load => {
                if s == State::Running || s == State::Paused {
                    Err(reject(String::from_str("cannot load a program while one is running")))
                } else {
                    Ok(())
                }
            },
            Command::Run(staged) => {
                self.require(s == State::Idle, "run")?;
                if !staged {
                    return Err(reject(String::from_str("no program loaded")));
                }
                self.state = State::Running;
                Ok(())
            },
            Command::Pause => {
                self.require(s == State::Running, "pause")?;
                self.state = State::Paused;
                Ok(())
            },
            Command::Resume => {
                self.require(s == State::Paused, "resume")?;
                self.state = State::Running;
                Ok(())
            },
            Command::Stop => {
                if s == State::Running || s == State::Paused || s == State::Mdi || s == State::Jog {
                    self.state = State::Idle;
                }
                Ok(())
            },
            Command::HomingDone => {
                if s == State::Homing {
                    self.homed = true;
                    self.state = State::Idle;
                }
                Ok(())
            },
            Command::JogDone => {
                if s == State::Jog {
                    self.state = State::Idle;
                }
                Ok(())
            },
            Command::MotionDone => {
                if s == State::Running || s == State::Mdi {
                    self.state = State::Idle;
                }
                Ok(())
            },
        }
    }
}

} // verus!

verus! {

// ── laws of the state machine ─────────────────────────────────────────────

/// E-stop is honoured from every state and keeps whether the machine was
/// homed.
pub proof fn law_estop_from_anywhere(s: State, homed: bool)
    ensures
        step_spec(s, homed, Command::Estop) == Ok::<(State, bool), Seq<char>>((State::Estop, homed)),
{
}

/// No request or event takes the machine out of e-stop except a reset.
pub proof fn law_only_reset_leaves_estop(homed: bool, c: Command)
    requires
        c != Command::EstopReset,
    ensures
        step_spec(State::Estop, homed, c) matches Ok(n) ==> n.0 == State::Estop,
{
}

/// Every accepted request keeps the machine consistent: only a homed
/// machine is idle, jogging, running MDI or a program, and `On` means not
/// homed.
pub proof fn law_consistency_is_kept(s: State, homed: bool, c: Command)
    requires
        consistent(s, homed),
    ensures
        step_spec(s, homed, c) matches Ok(n) ==> consistent(n.0, n.1),
{
}

/// A fresh machine is consistent.
pub proof fn law_fresh_machine_is_consistent()
    ensures
        consistent(State::Estop, false),
{
}

/// Pausing a running program and resuming it returns to running.
pub proof fn law_pause_then_resume(homed: bool)
    ensures
        step_spec(State::Running, homed, Command::Pause) == Ok::<(State, bool), Seq<char>>((State::Paused, homed)),
        step_spec(State::Paused, homed, Command::Resume) == Ok::<(State, bool), Seq<char>>((State::Running, homed)),
{
}

/// A program runs only on an idle, homed machine with a program staged.
pub proof fn law_run_needs_idle_homed_machine(s: State, homed: bool, staged: bool)
    requires
        consistent(s, homed),
    ensures
        step_spec(s, homed, Command::Run(staged)) is Ok ==> s == State::Idle && homed && staged,
{
}

/// Stop is never refused and leaves no motion running.
pub proof fn law_stop_always_halts(s: State, homed: bool)
    ensures
        step_spec(s, homed, Command::Stop) matches Ok(n) && n.0 != State::Running && n.0 != State::Paused
            && n.0 != State::Mdi && n.0 != State::Jog,
{
}

/// Each request is accepted only from the states that allow it, and then
/// leads where the state diagram says: homing starts only from On or Idle,
/// power comes on only from Off (to Idle when homed, else On), jogs start
/// only from Idle or Jog, MDI only from Idle, a run only from Idle with a
/// program, pause only while running, resume only while paused.
pub proof fn law_requests_need_their_states(s: State, homed: bool)
    ensures
        step_spec(s, homed, Command::Home) is Ok <==> (s == State::On || s == State::Idle),
        step_spec(s, homed, Command::Home) matches Ok(n) ==> n == (State::Homing, homed),
        step_spec(s, homed, Command::Power(true)) is Ok <==> s == State::Off,
        step_spec(s, homed, Command::Power(true)) matches Ok(n) ==> n == (if homed { State::Idle } else { State::On }, homed),
        step_spec(s, homed, Command::Power(false)) is Err <==> (s == State::Running || s == State::Paused || s == State::Homing),
        step_spec(s, homed, Command::JogStart) is Ok <==> (s == State::Idle || s == State::Jog),
        step_spec(s, homed, Command::JogStep) is Ok <==> (s == State::Idle || s == State::Jog),
        step_spec(s, homed, Command::JogStart) matches Ok(n) ==> n.0 == State::Jog,
        step_spec(s, homed, Command::JogStep) matches Ok(n) ==> n.0 == State::Jog,
        forall|motion: bool| #[trigger] step_spec(s, homed, Command::Mdi(motion)) is Ok <==> s == State::Idle,
        forall|staged: bool| #[trigger] step_spec(s, homed, Command::Run(staged)) is Ok <==> (s == State::Idle && staged),
        forall|staged: bool| #[trigger] step_spec(s, homed, Command::Run(staged)) matches Ok(n) ==> n.0 == State::Running,
        step_spec(s, homed, Command::Pause) is Ok <==> s == State::Running,
        step_spec(s, homed, Command::Resume) is Ok <==> s == State::Paused,
        step_spec(s, homed, Command::Load) is Err <==> (s == State::Running || s == State::Paused),
        step_spec(s, homed, Command::EstopReset) == Ok::<(State, bool), Seq<char>>((if s == State::Estop { State::Off } else { s }, homed)),
{
}

/// Only the end of homing marks the machine homed, and nothing unhomes it.
pub proof fn law_homed_only_by_homing(s: State, homed: bool, c: Command)
    ensures
        step_spec(s, homed, c) matches Ok(n) ==> (n.1 == (homed || (c == Command::HomingDone && s == State::Homing))),
{
}

/// The refusal of a request the current state does not allow names the
/// request and the state.
pub proof fn law_refusals_name_the_state(s: State, homed: bool)
    ensures
        !(s == State::On || s == State::Idle) ==> step_spec(s, homed, Command::Home) == Err::<(State, bool), Seq<char>>("cannot home while "@ + state_name(s)),
        s != State::Off ==> step_spec(s, homed, Command::Power(true)) == Err::<(State, bool), Seq<char>>("cannot power on while "@ + state_name(s)),
        s != State::Running ==> step_spec(s, homed, Command::Pause) == Err::<(State, bool), Seq<char>>("cannot pause while "@ + state_name(s)),
        s != State::Paused ==> step_spec(s, homed, Command::Resume) == Err::<(State, bool), Seq<char>>("cannot resume while "@ + state_name(s)),
{
    reveal_strlit("cannot ");
    reveal_strlit(" while ");
    reveal_strlit("cannot home while ");
    reveal_strlit("home");
    reveal_strlit("cannot power on while ");
    reveal_strlit("power on");
    reveal_strlit("cannot pause while ");
    reveal_strlit("pause");
    reveal_strlit("cannot resume while ");
    reveal_strlit("resume");
    assert("cannot home while "@ =~= "cannot "@ + "home"@ + " while "@);
    assert("cannot power on while "@ =~= "cannot "@ + "power on"@ + " while "@);
    assert("cannot pause while "@ =~= "cannot "@ + "pause"@ + " while "@);
    assert("cannot resume while "@ =~= "cannot "@ + "resume"@ + " while "@);
}

/// The state a controller's flags stand for: e-stop wins, then drives
/// off; a paused program is Paused; a running one is Mdi in MDI mode and
/// Running otherwise; a machine that runs nothing is Idle once homed and
/// On before, whatever its mode.
pub proof fn law_reported_state(estop_on: bool, power_on: bool, paused: bool, running: bool, mdi_mode: bool, all_homed: bool)
    ensures
        (derived_state(estop_on, power_on, paused, running, mdi_mode, all_homed) == State::Estop) <==> estop_on,
        (derived_state(estop_on, power_on, paused, running, mdi_mode, all_homed) == State::Off) <==> (!estop_on && !power_on),
        (derived_state(estop_on, power_on, paused, running, mdi_mode, all_homed) == State::Paused) <==> (!estop_on && power_on && paused),
        (derived_state(estop_on, power_on, paused, running, mdi_mode, all_homed) == State::Mdi) <==> (!estop_on && power_on && !paused && running && mdi_mode),
        (derived_state(estop_on, power_on, paused, running, mdi_mode, all_homed) == State::Running) <==> (!estop_on && power_on && !paused && running && !mdi_mode),
        (derived_state(estop_on, power_on, paused, running, mdi_mode, all_homed) == State::Idle) <==> (!estop_on && power_on && !paused && !running && all_homed),
        (derived_state(estop_on, power_on, paused, running, mdi_mode, all_homed) == State::On) <==> (!estop_on && power_on && !paused && !running && !all_homed),
{
}

/// The state after a sequence of requests and events, or the first
/// refusal.
pub open spec fn steps_spec(s: State, homed: bool, cs: Seq<Command>) -> Result<(State, bool), Seq<char>>
    decreases cs.len(),
{
    if cs.len() == 0 {
        Ok((s, homed))
    } else {
        match step_spec(s, homed, cs[0]) {
            Ok(n) => steps_spec(n.0, n.1, cs.drop_first()),
            Err(e) => Err(e),
        }
    }
}

/// The recovery sequence works from anywhere: e-stop, reset, power on,
/// home and the end of homing leave the machine idle and homed, whatever
/// state it was in.
pub proof fn law_recovery_reaches_idle(s: State, homed: bool)
    ensures
        steps_spec(s, homed, seq![Command::Estop, Command::EstopReset, Command::Power(true), Command::Home, Command::HomingDone])
            == Ok::<(State, bool), Seq<char>>((State::Idle, true)),
{
    let cs = seq![Command::Estop, Command::EstopReset, Command::Power(true), Command::Home, Command::HomingDone];
    reveal_with_fuel(steps_spec, 6);
    assert(cs.drop_first() =~= seq![Command::EstopReset, Command::Power(true), Command::Home, Command::HomingDone]);
    assert(cs.drop_first().drop_first() =~= seq![Command::Power(true), Command::Home, Command::HomingDone]);
    assert(cs.drop_first().drop_first().drop_first() =~= seq![Command::Home, Command::HomingDone]);
    assert(cs.drop_first().drop_first().drop_first().drop_first() =~= seq![Command::HomingDone]);
    assert(cs.drop_first().drop_first().drop_first().drop_first().drop_first() =~= Seq::<Command>::empty());
}

// ── controller replies ────────────────────────────────────────────────────

/// State reported by a controller from its status flags.
pub open spec fn derived_state(estop_on: bool, power_on: bool, paused: bool, running: bool, mdi_mode: bool, all_homed: bool) -> State {
    if estop_on {
        State::Estop
    } else if !power_on {
        State::Off
    } else if paused {
        State::Paused
    } else if running {
        if mdi_mode { State::Mdi } else { State::Running }
    } else if !all_homed {
        State::On
    } else {
        State::Idle
    }
}

pub open spec fn contains_spec(hay: Seq<char>, needle: Seq<char>) -> bool {
    exists|i: int| 0 <= i && i + needle.len() <= hay.len() && #[trigger] hay.subrange(i, i + needle.len()) == needle
}

/// Whether `needle` occurs in `hay`.
pub fn contains(hay: &Vec<char>, needle: &[char]) -> (r: bool)
    ensures
        r == contains_spec(hay@, needle@),
{
    let n = needle.len();
    if n > hay.len() {
        return false;
    }
    let mut i: usize = 0;
    while i <= hay.len() - n
        invariant
            n == needle@.len(),
            n <= hay.len(),
            forall|k: int| 0 <= k < i ==> #[trigger] hay@.subrange(k, k + n) != needle@,
        decreases hay.len() - i,
    {
        let mut j: usize = 0;
        let mut same = true;
        while j < n
            invariant
                n == needle@.len(),
                i + n <= hay.len(),
                j <= n,
                same == (forall|m: int| 0 <= m < j ==> hay@[i + m] == needle@[m]),
            decreases n - j,
        {
            if hay[i + j] != needle[j] {
                same = false;
            }
            j = j + 1;
        }
        if same {
            assert(hay@.subrange(i as int, i + n) =~= needle@);
            return true;
        }
        proof {
            assert(hay@.subrange(i as int, i + n) != needle@) by {
                let m = choose|m: int| 0 <= m < n && hay@[i + m] != needle@[m];
                assert(hay@.subrange(i as int, i + n)[m] == hay@[i + m]);
            }
        }
        i = i + 1;
    }
    false
}

/// Unicode upper case of a string, as `str::to_uppercase` computes it.
pub uninterp spec fn uppercase_spec(s: Seq<char>) -> Seq<char>;

/// std's `str::to_uppercase`. Claimed: the result depends on the input
/// alone and is named `uppercase_spec`; Unicode's case mapping itself is
/// not spelled out.
#[verifier::external_body]
fn to_uppercase(s: &str) -> (r: String)
    ensures
        r@ == uppercase_spec(s@),
{
    s.to_uppercase()
}

/// Whitespace-separated words of `s` from position `i` on.
pub open spec fn words_from(s: Seq<char>, i: nat) -> Seq<Seq<char>>
    decreases s.len() - i,
{
    let j = skip_ws_from(s, i);
    if j >= s.len() || j < i {
        Seq::empty()
    } else {
        let e = run_end(s, j, |c: char| !is_ws(c));
        if e <= j || e > s.len() {
            Seq::empty()
        } else {
            seq![s.subrange(j as int, e as int)] + words_from(s, e)
        }
    }
}

/// Every word after the first is "yes" in any ASCII case.
pub open spec fn all_yes_spec(s: Seq<char>) -> bool {
    let w = words_from(s, 0);
    forall|k: int| 1 <= k < w.len() ==> matches_ignoring_case(#[trigger] w[k], "yes"@)
}

/// `matches_ignoring_case(s[a..e], "yes")`.
fn is_yes(s: &Vec<char>, a: usize, e: usize) -> (r: bool)
    requires
        a <= e <= s.len(),
    ensures
        r == matches_ignoring_case(s@.subrange(a as int, e as int), "yes"@),
{
    proof {
        reveal_strlit("yes");
    }
    let ghost sub = s@.subrange(a as int, e as int);
    if e - a != 3 {
        return false;
    }
    let r = to_ascii_lowercase(s[a]) == 'y' && to_ascii_lowercase(s[a + 1]) == 'e' && to_ascii_lowercase(s[a + 2]) == 's';
    assert(sub[0] == s@[a as int] && sub[1] == s@[a + 1] && sub[2] == s@[a + 2]);
    proof {
        if !r {
            if lower(s@[a as int]) != 'y' {
                assert(lower(sub[0]) != lower("yes"@[0]));
            } else if lower(s@[a + 1]) != 'e' {
                assert(lower(sub[1]) != lower("yes"@[1]));
            } else {
                assert(lower(sub[2]) != lower("yes"@[2]));
            }
        }
    }
    r
}

proof fn lemma_words_from_unfold(s: Seq<char>, i: nat)
    requires
        i <= s.len(),
    ensures
        skip_ws_from(s, i) < s.len() ==> {
            let j = skip_ws_from(s, i);
            let e = run_end(s, j, |c: char| !is_ws(c));
            &&& j < e <= s.len()
            &&& words_from(s, i) == seq![s.subrange(j as int, e as int)] + words_from(s, e)
        },
        skip_ws_from(s, i) >= s.len() ==> words_from(s, i) == Seq::<Seq<char>>::empty(),
{
    lemma_skip_ws_bounds(s, i);
    let j = skip_ws_from(s, i);
    if j < s.len() {
        lemma_run_end_bounds(s, j, |c: char| !is_ws(c));
    }
}

/// Whether every joint a `JOINT_HOMED YES NO …` reply lists is homed.
pub fn all_yes(reply: &str) -> (r: bool)
    ensures
        r == all_yes_spec(reply@),
{
    let s = chars_of(reply);
    let mut i: usize = 0;
    let mut first = true;
    let ghost mut k: nat = 0;
    let ghost w = words_from(s@, 0);
    while i < s.len()
        invariant
            i <= s.len(),
            s@ == reply@,
            w == words_from(s@, 0),
            k <= w.len(),
            first == (k == 0),
            w == w.take(k as int) + words_from(s@, i as nat),
            forall|m: int| 1 <= m < k ==> matches_ignoring_case(#[trigger] w[m], "yes"@),
        decreases s.len() - i,
    {
        proof {
            lemma_words_from_unfold(s@, i as nat);
        }
        let j = skip_ws(&s, i);
        if j >= s.len() {
            i = j;
        } else {
            let mut e = j;
            while e < s.len() && !crate::text::is_whitespace(s[e])
                invariant
                    j <= e <= s.len(),
                    run_end(s@, e as nat, |c: char| !is_ws(c)) == run_end(s@, j as nat, |c: char| !is_ws(c)),
                decreases s.len() - e,
            {
                e = e + 1;
            }
            proof {
                assert(w[k as int] == s@.subrange(j as int, e as int)) by {
                    assert((w.take(k as int) + words_from(s@, i as nat))[k as int] == words_from(s@, i as nat)[0]);
                }
                assert(w.take(k as int) + words_from(s@, i as nat) =~= w.take((k + 1) as int) + words_from(s@, e as nat));
            }
            if !first && !is_yes(&s, j, e) {
                return false;
            }
            first = false;
            proof {
                k = k + 1;
            }
            i = e;
        }
    }
    proof {
        lemma_words_from_unfold(s@, i as nat);
        assert(w.take(k as int) + Seq::<Seq<char>>::empty() =~= w.take(k as int));
        assert(w.len() == k);
    }
    true
}

/// The state a controller reports, from its `estop`, `machine`,
/// `program_status` and `mode` replies already in upper case and its
/// `joint_homed` reply, with whether every joint is homed.
pub fn state_of_replies(estop: &Vec<char>, machine: &Vec<char>, status: &Vec<char>, mode: &Vec<char>, homed: &str) -> (r: (State, bool))
    ensures
        r.1 == all_yes_spec(homed@),
        r.0 == derived_state(
            contains_spec(estop@, "ON"@),
            contains_spec(machine@, " ON"@),
            contains_spec(status@, "PAUSED"@),
            contains_spec(status@, "RUNNING"@),
            contains_spec(mode@, "MDI"@),
            all_yes_spec(homed@),
        ),
{
    proof {
        reveal_strlit("ON");
        reveal_strlit(" ON");
        reveal_strlit("PAUSED");
        reveal_strlit("RUNNING");
        reveal_strlit("MDI");
    }
    let estop_on = contains(estop, &['O', 'N']);
    assert(seq!['O', 'N'] =~= "ON"@);
    let power_on = contains(machine, &[' ', 'O', 'N']);
    assert(seq![' ', 'O', 'N'] =~= " ON"@);
    let paused = contains(status, &['P', 'A', 'U', 'S', 'E', 'D']);
    assert(seq!['P', 'A', 'U', 'S', 'E', 'D'] =~= "PAUSED"@);
    let running = contains(status, &['R', 'U', 'N', 'N', 'I', 'N', 'G']);
    assert(seq!['R', 'U', 'N', 'N', 'I', 'N', 'G'] =~= "RUNNING"@);
    let mdi = contains(mode, &['M', 'D', 'I']);
    assert(seq!['M', 'D', 'I'] =~= "MDI"@);
    let all_homed = all_yes(homed);
    let state = if estop_on {
        State::Estop
    } else if !power_on {
        State::Off
    } else if paused {
        State::Paused
    } else if running {
        if mdi { State::Mdi } else { State::Running }
    } else if !all_homed {
        State::On
    } else {
        State::Idle
    };
    (state, all_homed)
}

/// The state a controller reports through its `estop`, `machine`,
/// `program_status`, `mode` and `joint_homed` replies, with whether every
/// joint is homed; the first four are compared in upper case.
pub fn reply_state(estop: &str, machine: &str, status: &str, mode: &str, homed: &str) -> (r: (State, bool))
    ensures
        r.1 == all_yes_spec(homed@),
        r.0 == derived_state(
            contains_spec(uppercase_spec(estop@), "ON"@),
            contains_spec(uppercase_spec(machine@), " ON"@),
            contains_spec(uppercase_spec(status@), "PAUSED"@),
            contains_spec(uppercase_spec(status@), "RUNNING"@),
            contains_spec(uppercase_spec(mode@), "MDI"@),
            all_yes_spec(homed@),
        ),
{
    let e = chars_of(to_uppercase(estop).as_str());
    let m = chars_of(to_uppercase(machine).as_str());
    let st = chars_of(to_uppercase(status).as_str());
    let md = chars_of(to_uppercase(mode).as_str());
    state_of_replies(&e, &m, &st, &md, homed)
}

} // verus!

verus! {

/// What `str::parse::<usize>` accepts: an optional `+`, then one or more
/// ASCII digits whose value fits in a `usize`.
pub open spec fn parse_usize_spec(s: Seq<char>) -> Option<nat> {
    let d = unsigned_digits(s);
    if d.len() > 0 && all_digits(d) && digits_value(d) <= usize::MAX {
        Some(digits_value(d))
    } else {
        None
    }
}

proof fn lemma_digits_prefix(d: Seq<char>, i: int)
    requires
        0 <= i <= d.len(),
        forall|k: int| 0 <= k < d.len() ==> is_digit(#[trigger] d[k]),
    ensures
        digits_value(d.take(i)) <= digits_value(d),
    decreases d.len() - i,
{
    if i < d.len() {
        lemma_digits_prefix(d, i + 1);
        assert(d.take(i + 1).drop_last() =~= d.take(i));
    } else {
        assert(d.take(i) =~= d);
    }
}

/// `w` read as `str::parse::<usize>` would.
pub fn parse_usize(w: &Vec<char>) -> (r: Option<usize>)
    ensures
        match (r, parse_usize_spec(w@)) {
            (Some(x), Some(y)) => x == y,
            (None, None) => true,
            _ => false,
        },
{
    let start: usize = if w.len() > 0 && w[0] == '+' { 1 } else { 0 };
    let ghost d = unsigned_digits(w@);
    assert(d =~= w@.subrange(start as int, w@.len() as int));
    if start >= w.len() {
        return None;
    }
    let mut acc: usize = 0;
    let mut i = start;
    while i < w.len()
        invariant
            start <= i <= w.len(),
            d == unsigned_digits(w@),
            d.len() > 0,
            d =~= w@.subrange(start as int, w@.len() as int),
            acc == digits_value(d.take(i - start)),
            forall|k: int| 0 <= k < i - start ==> is_digit(#[trigger] d[k]),
        decreases w.len() - i,
    {
        let c = w[i];
        if !is_ascii_digit(c) {
            assert(d[i - start] == c);
            assert(!all_digits(d));
            return None;
        }
        let digit = ((c as u32) - ('0' as u32)) as usize;
        assert(d.take(i + 1 - start).drop_last() =~= d.take(i - start));
        let next = match acc.checked_mul(10) {
            Some(t) => t.checked_add(digit),
            None => None,
        };
        i = i + 1;
        match next {
            Some(v) => {
                acc = v;
            },
            None => {
                proof {
                    if all_digits(d) {
                        lemma_digits_prefix(d, i - start);
                    }
                }
                return None;
            },
        }
    }
    assert(d.take(i - start) =~= d);
    Some(acc)
}

/// End of the word that starts at `j`.
fn word_end(s: &Vec<char>, j: usize) -> (e: usize)
    requires
        j <= s.len(),
    ensures
        e == run_end(s@, j as nat, |c: char| !is_ws(c)),
        j <= e <= s.len(),
{
    proof {
        lemma_run_end_bounds(s@, j as nat, |c: char| !is_ws(c));
    }
    let mut e = j;
    while e < s.len() && !crate::text::is_whitespace(s[e])
        invariant
            j <= e <= s.len(),
            run_end(s@, e as nat, |c: char| !is_ws(c)) == run_end(s@, j as nat, |c: char| !is_ws(c)),
        decreases s.len() - e,
    {
        e = e + 1;
    }
    e
}

/// The number in the second word of a reply (`PROGRAM_LINE 12`), or 0 when
/// there is none.
pub open spec fn reply_line_spec(reply: Seq<char>) -> nat {
    let w = words_from(reply, 0);
    if w.len() >= 2 {
        match parse_usize_spec(w[1]) {
            Some(n) => n,
            None => 0,
        }
    } else {
        0
    }
}

pub fn reply_line(reply: &str) -> (n: usize)
    ensures
        n == reply_line_spec(reply@),
{
    let s = chars_of(reply);
    proof {
        lemma_words_from_unfold(s@, 0);
    }
    let j0 = skip_ws(&s, 0);
    if j0 >= s.len() {
        return 0;
    }
    let e0 = word_end(&s, j0);
    proof {
        lemma_words_from_unfold(s@, e0 as nat);
    }
    let j1 = skip_ws(&s, e0);
    if j1 >= s.len() {
        return 0;
    }
    let e1 = word_end(&s, j1);
    let w = slice_of(&s, j1, e1);
    proof {
        let ws = words_from(s@, 0);
        assert(ws[1] == w@);
    }
    match parse_usize(&w) {
        Some(n) => n,
        None => 0,
    }
}

} // verus!

verus! {

// ── laws of the names and events ──────────────────────────────────────────

/// Axes x, y, z are 0, 1, 2 and nothing else names an axis; the overrides
/// are exactly "feed", "rapid" and "spindle"; work systems 0–8 are G54 to
/// G59.3.
pub proof fn law_name_tables(c: char, k: Seq<char>)
    ensures
        axis_spec('x') == Some(0usize) && axis_spec('y') == Some(1usize) && axis_spec('z') == Some(2usize),
        axis_spec(c) is Some ==> (c == 'x' || c == 'y' || c == 'z'),
        override_spec("feed"@) == Some(OverrideKind::Feed),
        override_spec("rapid"@) == Some(OverrideKind::Rapid),
        override_spec("spindle"@) == Some(OverrideKind::Spindle),
        override_spec(k) is Some ==> (k == "feed"@ || k == "rapid"@ || k == "spindle"@),
        wcs_name_spec(0) == "G54"@ && wcs_name_spec(1) == "G55"@ && wcs_name_spec(2) == "G56"@,
        wcs_name_spec(3) == "G57"@ && wcs_name_spec(4) == "G58"@ && wcs_name_spec(5) == "G59"@,
        wcs_name_spec(6) == "G59.1"@ && wcs_name_spec(7) == "G59.2"@ && wcs_name_spec(8) == "G59.3"@,
{
    reveal_strlit("feed");
    reveal_strlit("rapid");
    reveal_strlit("spindle");
    assert("rapid"@.len() != "feed"@.len());
    assert("spindle"@.len() != "feed"@.len() && "spindle"@.len() != "rapid"@.len());
}

/// The ends of motion: homing done makes a homing machine idle and homed,
/// a jog that ran out or a finished program or MDI line makes the machine
/// idle; in any other state these events change nothing. Stopping a jog
/// axis while another moves keeps jogging. Stop halts running, paused, MDI
/// and jog to idle and leaves every other state alone.
pub proof fn law_motion_events(s: State, homed: bool, left: bool)
    ensures
        step_spec(s, homed, Command::HomingDone) == Ok::<(State, bool), Seq<char>>(if s == State::Homing { (State::Idle, true) } else { (s, homed) }),
        step_spec(s, homed, Command::JogDone) == Ok::<(State, bool), Seq<char>>(if s == State::Jog { (State::Idle, homed) } else { (s, homed) }),
        step_spec(s, homed, Command::MotionDone) == Ok::<(State, bool), Seq<char>>(
            if s == State::Running || s == State::Mdi { (State::Idle, homed) } else { (s, homed) }),
        step_spec(s, homed, Command::JogStop(left)) == Ok::<(State, bool), Seq<char>>(
            if s == State::Jog && !left { (State::Idle, homed) } else { (s, homed) }),
        step_spec(s, homed, Command::Stop) == Ok::<(State, bool), Seq<char>>(
            if s == State::Running || s == State::Paused || s == State::Mdi || s == State::Jog { (State::Idle, homed) } else { (s, homed) }),
        step_spec(s, homed, Command::Power(false)) matches Ok(n) ==> n.0 == (if s == State::Estop { State::Estop } else { State::Off }),
        step_spec(s, homed, Command::Load) matches Ok(n) ==> n == (s, homed),
        forall|motion: bool| #[trigger] step_spec(s, homed, Command::Mdi(motion)) matches Ok(n) ==> n.0 == (if motion { State::Mdi } else { State::Idle }),
{
}

/// A reply's line number is its second word read as a decimal number, 0
/// when there is none or it is not one.
pub proof fn law_reply_line(reply: Seq<char>)
    ensures
        words_from(reply, 0).len() < 2 ==> reply_line_spec(reply) == 0,
        words_from(reply, 0).len() >= 2 && parse_usize_spec(words_from(reply, 0)[1]) is None ==> reply_line_spec(reply) == 0,
        words_from(reply, 0).len() >= 2 ==> (parse_usize_spec(words_from(reply, 0)[1]) matches Some(n)
            ==> reply_line_spec(reply) == n && n == digits_value(unsigned_digits(words_from(reply, 0)[1]))),
{
}

} // verus!
