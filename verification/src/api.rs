//! Rules of the program library and the tool table, and the names of the
//! requests the control socket accepts.

use vstd::prelude::*;
use vstd::string::StringExecFns;
use crate::machine::{reject, MachineError};
use crate::text::{chars_eq, chars_of, debug_str, str_debug};

verus! {

pub open spec fn ends_with(s: Seq<char>, t: Seq<char>) -> bool {
    s.len() >= t.len() && s.subrange(s.len() - t.len(), s.len() as int) == t
}

fn ends_with_chars(s: &Vec<char>, t: &[char]) -> (r: bool)
    ensures
        r == ends_with(s@, t@),
{
    if s.len() < t.len() {
        return false;
    }
    let off = s.len() - t.len();
    let mut k: usize = 0;
    while k < t.len()
        invariant
            off + t.len() == s.len(),
            k <= t.len(),
            forall|j: int| 0 <= j < k ==> s@[off + j] == t@[j],
        decreases t.len() - k,
    {
        if s[off + k] != t[k] {
            assert(s@.subrange(off as int, s.len() as int)[k as int] == s@[off + k]);
            return false;
        }
        k = k + 1;
    }
    assert(s@.subrange(off as int, s.len() as int) =~= t@);
    true
}

/// A program file is named `*.ngc`, `*.nc` or `*.gcode`.
pub open spec fn is_program_name_spec(name: Seq<char>) -> bool {
    ends_with(name, ".ngc"@) || ends_with(name, ".nc"@) || ends_with(name, ".gcode"@)
}

pub fn is_program_name(name: &str) -> (r: bool)
    ensures
        r == is_program_name_spec(name@),
{
    proof {
        reveal_strlit(".ngc");
        reveal_strlit(".nc");
        reveal_strlit(".gcode");
    }
    let c = chars_of(name);
    let a = ends_with_chars(&c, &['.', 'n', 'g', 'c']);
    let b = ends_with_chars(&c, &['.', 'n', 'c']);
    let g = ends_with_chars(&c, &['.', 'g', 'c', 'o', 'd', 'e']);
    assert(seq!['.', 'n', 'g', 'c'] =~= ".ngc"@);
    assert(seq!['.', 'n', 'c'] =~= ".nc"@);
    assert(seq!['.', 'g', 'c', 'o', 'd', 'e'] =~= ".gcode"@);
    a || b || g
}

/// Tool `i` is the first entry of the table with its (nonzero) number.
pub open spec fn first_of(numbers: Seq<u16>, i: int) -> bool {
    &&& 0 <= i < numbers.len()
    &&& numbers[i] > 0
    &&& forall|j: int| 0 <= j < i ==> numbers[j] != numbers[i]
}

/// `order` lists exactly the first entry of every nonzero tool number,
/// by ascending number.
pub open spec fn is_tool_order(numbers: Seq<u16>, order: Seq<usize>) -> bool {
    &&& forall|k: int| 0 <= k < order.len() ==> first_of(numbers, #[trigger] order[k] as int)
    &&& forall|k: int, l: int| 0 <= k < l < order.len() ==> numbers[#[trigger] order[k] as int] < numbers[#[trigger] order[l] as int]
    &&& forall|i: int| first_of(numbers, i) ==> #[trigger] order.contains(i as usize)
}

fn is_first(numbers: &Vec<u16>, i: usize) -> (r: bool)
    requires
        i < numbers.len(),
    ensures
        r == first_of(numbers@, i as int),
{
    if numbers[i] == 0 {
        return false;
    }
    let mut j: usize = 0;
    while j < i
        invariant
            i < numbers.len(),
            j <= i,
            forall|m: int| 0 <= m < j ==> numbers@[m] != numbers@[i as int],
        decreases i - j,
    {
        if numbers[j] == numbers[i] {
            return false;
        }
        j = j + 1;
    }
    true
}

/// The tool table as saved: entries with number 0 dropped, sorted by
/// number, and of several entries with one number only the first kept.
/// Returns the kept entries' indices in table order.
pub fn tool_order(numbers: &Vec<u16>) -> (order: Vec<usize>)
    ensures
        is_tool_order(numbers@, order@),
{
    let mut order: Vec<usize> = Vec::new();
    let mut i: usize = 0;
    while i < numbers.len()
        invariant
            i <= numbers.len(),
            forall|k: int| 0 <= k < order.len() ==> first_of(numbers@, #[trigger] order@[k] as int) && order@[k] < i,
            forall|k: int, l: int| 0 <= k < l < order.len() ==> numbers@[#[trigger] order@[k] as int] < numbers@[#[trigger] order@[l] as int],
            forall|m: int| 0 <= m < i && first_of(numbers@, m) ==> #[trigger] order@.contains(m as usize),
        decreases numbers.len() - i,
    {
        if is_first(numbers, i) {
            let key = numbers[i];
            let mut p: usize = 0;
            while p < order.len() && numbers[order[p]] < key
                invariant
                    p <= order.len(),
                    i < numbers.len(),
                    key == numbers@[i as int],
                    forall|k: int| 0 <= k < order.len() ==> first_of(numbers@, #[trigger] order@[k] as int),
                    forall|k: int| 0 <= k < p ==> numbers@[#[trigger] order@[k] as int] < key,
                decreases order.len() - p,
            {
                p = p + 1;
            }
            let ghost old_order = order@;
            assert(forall|m: int| 0 <= m < i && first_of(numbers@, m) ==> #[trigger] old_order.contains(m as usize));
            proof {
                // the tools after p all have larger numbers than `key`
                if p < old_order.len() {
                    let o = old_order[p as int] as int;
                    assert(numbers@[o] != key) by {
                        if numbers@[o] == key {
                            // both are first occurrences of one number
                            assert(first_of(numbers@, o));
                            assert(o < i);
                        }
                    }
                }
            }
            order.insert(p, i);
            proof {
                assert forall|k: int, l: int| 0 <= k < l < order.len() implies numbers@[#[trigger] order@[k] as int] < numbers@[#[trigger] order@[l] as int] by {
                    if k < p && l == p {
                    } else if k == p && l > p {
                        assert(order@[l] == old_order[l - 1]);
                        if l - 1 > p {
                            assert(numbers@[old_order[p as int] as int] < numbers@[old_order[l - 1] as int]);
                        }
                    } else if k < p && l > p {
                        assert(order@[l] == old_order[l - 1]);
                    } else if k > p {
                        assert(order@[k] == old_order[k - 1]);
                        assert(order@[l] == old_order[l - 1]);
                    }
                }
                assert forall|m: int| 0 <= m < i + 1 && first_of(numbers@, m) implies #[trigger] order@.contains(m as usize) by {
                    if m == i {
                        assert(order@[p as int] == i);
                    } else {
                        assert(old_order.contains(m as usize));
                        let k = choose|k: int| 0 <= k < old_order.len() && old_order[k] == m as usize;
                        if k < p {
                            assert(order@[k] == m as usize);
                        } else {
                            assert(order@[k + 1] == m as usize);
                        }
                    }
                }
            }
        }
        i = i + 1;
    }
    order
}

} // verus!

verus! {

// ── operator requests ─────────────────────────────────────────────────────

/// The requests the control socket accepts, by their `cmd` name.
#[derive(Debug, Clone, Copy, PartialEq, Eq, Structural)]
pub enum RequestKind {
    /// E-stop.
    Estop,
    /// Reset the e-stop.
    EstopReset,
    /// Drives on or off.
    Power,
    /// Home the machine (or one axis).
    Home,
    /// Continuous jog.
    Jog,
    /// Step jog.
    JogStep,
    /// Run an MDI line.
    Mdi,
    /// Run the loaded program.
    Run,
    /// Pause the program.
    Pause,
    /// Resume the program.
    Resume,
    /// Stop motion.
    Stop,
    /// Single-block switch.
    SingleBlock,
    /// Optional-stop switch.
    OptionalStop,
    /// Block-delete switch (applies at the next load).
    BlockDelete,
    /// Select a work coordinate system.
    Wcs,
    /// Touch off an axis.
    TouchOff,
    /// Select a tool.
    Tool,
    /// Spindle on/off.
    Spindle,
    /// Coolant on/off.
    Coolant,
    /// Set an override.
    Override,
}

pub open spec fn request_spec(cmd: Seq<char>) -> Option<RequestKind> {
    if cmd == seq!['e', 's', 't', 'o', 'p'] {
        Some(RequestKind::Estop)
    } else if cmd == seq!['e', 's', 't', 'o', 'p', '_', 'r', 'e', 's', 'e', 't'] {
        Some(RequestKind::EstopReset)
    } else if cmd == seq!['p', 'o', 'w', 'e', 'r'] {
        Some(RequestKind::Power)
    } else if cmd == seq!['h', 'o', 'm', 'e'] {
        Some(RequestKind::Home)
    } else if cmd == seq!['j', 'o', 'g'] {
        Some(RequestKind::Jog)
    } else if cmd == seq!['j', 'o', 'g', '_', 's', 't', 'e', 'p'] {
        Some(RequestKind::JogStep)
    } else if cmd == seq!['m', 'd', 'i'] {
        Some(RequestKind::Mdi)
    } else if cmd == seq!['r', 'u', 'n'] {
        Some(RequestKind::Run)
    } else if cmd == seq!['p', 'a', 'u', 's', 'e'] {
        Some(RequestKind::Pause)
    } else if cmd == seq!['r', 'e', 's', 'u', 'm', 'e'] {
        Some(RequestKind::Resume)
    } else if cmd == seq!['s', 't', 'o', 'p'] {
        Some(RequestKind::Stop)
    } else if cmd == seq!['s', 'i', 'n', 'g', 'l', 'e', '_', 'b', 'l', 'o', 'c', 'k'] {
        Some(RequestKind::SingleBlock)
    } else if cmd == seq!['o', 'p', 't', 'i', 'o', 'n', 'a', 'l', '_', 's', 't', 'o', 'p'] {
        Some(RequestKind::OptionalStop)
    } else if cmd == seq!['b', 'l', 'o', 'c', 'k', '_', 'd', 'e', 'l', 'e', 't', 'e'] {
        Some(RequestKind::BlockDelete)
    } else if cmd == seq!['w', 'c', 's'] {
        Some(RequestKind::Wcs)
    } else if cmd == seq!['t', 'o', 'u', 'c', 'h', '_', 'o', 'f', 'f'] {
        Some(RequestKind::TouchOff)
    } else if cmd == seq!['t', 'o', 'o', 'l'] {
        Some(RequestKind::Tool)
    } else if cmd == seq!['s', 'p', 'i', 'n', 'd', 'l', 'e'] {
        Some(RequestKind::Spindle)
    } else if cmd == seq!['c', 'o', 'o', 'l', 'a', 'n', 't'] {
        Some(RequestKind::Coolant)
    } else if cmd == seq!['o', 'v', 'e', 'r', 'r', 'i', 'd', 'e'] {
        Some(RequestKind::Override)
    } else {
        None
    }
}

/// How `Debug` writes an optional string: `None` or `Some("…")`.
pub open spec fn option_debug(cmd: Option<Seq<char>>) -> Seq<char> {
    match cmd {
        None => "None"@,
        Some(s) => "Some("@ + str_debug(s) + ")"@,
    }
}

fn name_kind(c: &Vec<char>) -> (r: Option<RequestKind>)
    ensures
        r == request_spec(c@),
{
    if chars_eq(c, &['e', 's', 't', 'o', 'p']) {
        Some(RequestKind::Estop)
    } else if chars_eq(c, &['e', 's', 't', 'o', 'p', '_', 'r', 'e', 's', 'e', 't']) {
        Some(RequestKind::EstopReset)
    } else if chars_eq(c, &['p', 'o', 'w', 'e', 'r']) {
        Some(RequestKind::Power)
    } else if chars_eq(c, &['h', 'o', 'm', 'e']) {
        Some(RequestKind::Home)
    } else if chars_eq(c, &['j', 'o', 'g']) {
        Some(RequestKind::Jog)
    } else if chars_eq(c, &['j', 'o', 'g', '_', 's', 't', 'e', 'p']) {
        Some(RequestKind::JogStep)
    } else if chars_eq(c, &['m', 'd', 'i']) {
        Some(RequestKind::Mdi)
    } else if chars_eq(c, &['r', 'u', 'n']) {
        Some(RequestKind::Run)
    } else if chars_eq(c, &['p', 'a', 'u', 's', 'e']) {
        Some(RequestKind::Pause)
    } else if chars_eq(c, &['r', 'e', 's', 'u', 'm', 'e']) {
        Some(RequestKind::Resume)
    } else if chars_eq(c, &['s', 't', 'o', 'p']) {
        Some(RequestKind::Stop)
    } else if chars_eq(c, &['s', 'i', 'n', 'g', 'l', 'e', '_', 'b', 'l', 'o', 'c', 'k']) {
        Some(RequestKind::SingleBlock)
    } else if chars_eq(c, &['o', 'p', 't', 'i', 'o', 'n', 'a', 'l', '_', 's', 't', 'o', 'p']) {
        Some(RequestKind::OptionalStop)
    } else if chars_eq(c, &['b', 'l', 'o', 'c', 'k', '_', 'd', 'e', 'l', 'e', 't', 'e']) {
        Some(RequestKind::BlockDelete)
    } else if chars_eq(c, &['w', 'c', 's']) {
        Some(RequestKind::Wcs)
    } else if chars_eq(c, &['t', 'o', 'u', 'c', 'h', '_', 'o', 'f', 'f']) {
        Some(RequestKind::TouchOff)
    } else if chars_eq(c, &['t', 'o', 'o', 'l']) {
        Some(RequestKind::Tool)
    } else if chars_eq(c, &['s', 'p', 'i', 'n', 'd', 'l', 'e']) {
        Some(RequestKind::Spindle)
    } else if chars_eq(c, &['c', 'o', 'o', 'l', 'a', 'n', 't']) {
        Some(RequestKind::Coolant)
    } else if chars_eq(c, &['o', 'v', 'e', 'r', 'r', 'i', 'd', 'e']) {
        Some(RequestKind::Override)
    } else {
        None
    }
}

/// The request a control message names, or the rejection of an unknown
/// (or missing) command name.
pub fn request_kind(cmd: Option<&str>) -> (r: Result<RequestKind, MachineError>)
    ensures
        match cmd {
            Some(s) => match request_spec(s@) {
                Some(k) => r == Ok::<RequestKind, MachineError>(k),
                None => r matches Err(e) && e.0@ == "unknown command "@ + option_debug(Some(s@)),
            },
            None => r matches Err(e) && e.0@ == "unknown command "@ + option_debug(None),
        },
{
    match cmd {
        Some(s) => {
            let c = chars_of(s);
            match name_kind(&c) {
                Some(k) => Ok(k),
                None => {
                    let mut msg = String::from_str("unknown command Some(");
                    let d = debug_str(s);
                    msg.append(d.as_str());
                    msg.append(")");
                    proof {
                        reveal_strlit("unknown command Some(");
                        reveal_strlit("unknown command ");
                        reveal_strlit("Some(");
                        assert("unknown command Some("@ =~= "unknown command "@ + "Some("@);
                        assert(msg@ =~= "unknown command "@ + option_debug(Some(s@)));
                    }
                    Err(reject(msg))
                },
            }
        },
        None => {
            let msg = String::from_str("unknown command None");
            proof {
                reveal_strlit("unknown command None");
                reveal_strlit("unknown command ");
                reveal_strlit("None");
                assert(msg@ =~= "unknown command "@ + option_debug(None));
            }
            Err(reject(msg))
        },
    }
}

} // verus!

verus! {

// ── laws of the tool table ────────────────────────────────────────────────

proof fn lemma_first_keys_distinct(numbers: Seq<u16>, i: int, j: int)
    requires
        first_of(numbers, i),
        first_of(numbers, j),
        numbers[i] == numbers[j],
    ensures
        i == j,
{
}

proof fn lemma_orders_agree_below(numbers: Seq<u16>, o1: Seq<usize>, o2: Seq<usize>, k: int)
    requires
        is_tool_order(numbers, o1),
        is_tool_order(numbers, o2),
        0 <= k <= o1.len(),
        k <= o2.len(),
    ensures
        forall|j: int| 0 <= j < k ==> o1[j] == o2[j],
    decreases k,
{
    if k > 0 {
        lemma_orders_agree_below(numbers, o1, o2, k - 1);
        let a = o1[k - 1];
        let b = o2[k - 1];
        assert(first_of(numbers, a as int));
        assert(first_of(numbers, b as int));
        assert(o2.contains((a as int) as usize));
        assert(o1.contains((b as int) as usize));
        let p = choose|p: int| 0 <= p < o2.len() && o2[p] == a;
        let q = choose|q: int| 0 <= q < o1.len() && o1[q] == b;
        if p < k - 1 {
            assert(o1[p] == o2[p]);
            assert(numbers[o1[p] as int] < numbers[o1[k - 1] as int]);
        }
        if q < k - 1 {
            assert(o2[q] == o1[q]);
            assert(numbers[o2[q] as int] < numbers[o2[k - 1] as int]);
        }
        if p > k - 1 {
            assert(numbers[o2[k - 1] as int] < numbers[o2[p] as int]);
        }
        if q > k - 1 {
            assert(numbers[o1[k - 1] as int] < numbers[o1[q] as int]);
        }
        lemma_first_keys_distinct(numbers, a as int, b as int);
    }
}

/// A tool table has one saved order: any two orders that meet
/// `is_tool_order` for the same table are the same.
pub proof fn law_tool_order_unique(numbers: Seq<u16>, o1: Seq<usize>, o2: Seq<usize>)
    requires
        is_tool_order(numbers, o1),
        is_tool_order(numbers, o2),
    ensures
        o1 == o2,
{
    if o1.len() <= o2.len() {
        lemma_orders_agree_below(numbers, o1, o2, o1.len() as int);
        if o1.len() < o2.len() {
            let b = o2[o1.len() as int];
            assert(first_of(numbers, b as int));
            assert(o1.contains((b as int) as usize));
            let q = choose|q: int| 0 <= q < o1.len() && o1[q] == b;
            assert(o2[q] == o1[q]);
            assert(numbers[o2[q] as int] < numbers[o2[o1.len() as int] as int]);
        }
    } else {
        lemma_orders_agree_below(numbers, o1, o2, o2.len() as int);
        let a = o1[o2.len() as int];
        assert(first_of(numbers, a as int));
        assert(o2.contains((a as int) as usize));
        let p = choose|p: int| 0 <= p < o2.len() && o2[p] == a;
        assert(o1[p] == o2[p]);
        assert(numbers[o1[p] as int] < numbers[o1[o2.len() as int] as int]);
    }
    assert(o1 =~= o2);
}

proof fn lemma_keys_climb(numbers: Seq<u16>, order: Seq<usize>, k: int)
    requires
        is_tool_order(numbers, order),
        0 <= k < order.len(),
    ensures
        numbers[order[k] as int] >= k + 1,
    decreases k,
{
    assert(first_of(numbers, order[k] as int));
    if k > 0 {
        lemma_keys_climb(numbers, order, k - 1);
        assert(numbers[order[k - 1] as int] < numbers[order[k] as int]);
    }
}

/// Saving a saved tool table changes nothing: the table made of the kept
/// entries, in order, keeps every entry where it is.
pub proof fn law_saved_table_is_kept(numbers: Seq<u16>, order: Seq<usize>)
    requires
        is_tool_order(numbers, order),
    ensures
        is_tool_order(order.map_values(|i: usize| numbers[i as int]), Seq::new(order.len(), |k: int| k as usize)),
{
    let saved = order.map_values(|i: usize| numbers[i as int]);
    let id = Seq::new(order.len(), |k: int| k as usize);
    if order.len() > 0 {
        lemma_keys_climb(numbers, order, order.len() - 1);
    }
    assert(order.len() <= 0xffff);
    assert forall|k: int| 0 <= k < id.len() implies first_of(saved, #[trigger] id[k] as int) by {
        assert(first_of(numbers, order[k] as int));
        assert forall|j: int| 0 <= j < k implies saved[j] != saved[k] by {
            assert(numbers[order[j] as int] < numbers[order[k] as int]);
        }
    }
    assert forall|k: int, l: int| 0 <= k < l < id.len() implies saved[#[trigger] id[k] as int] < saved[#[trigger] id[l] as int] by {
        assert(id[k] as int == k && id[l] as int == l);
        assert(saved[k] == numbers[order[k] as int] && saved[l] == numbers[order[l] as int]);
        assert(numbers[order[k] as int] < numbers[order[l] as int]);
    }
    assert forall|i: int| first_of(saved, i) implies #[trigger] id.contains(i as usize) by {
        assert(0 <= i < id.len());
        assert(id[i] == i as usize);
    }
}

} // verus!


verus! {

// ── laws of the request names ─────────────────────────────────────────────

/// Each control command is named by exactly one word, as the protocol
/// lists them.
pub proof fn law_request_names(cmd: Seq<char>)
    ensures
        request_spec("estop"@) == Some(RequestKind::Estop),
        request_spec("estop_reset"@) == Some(RequestKind::EstopReset),
        request_spec("power"@) == Some(RequestKind::Power),
        request_spec("home"@) == Some(RequestKind::Home),
        request_spec("jog"@) == Some(RequestKind::Jog),
        request_spec("jog_step"@) == Some(RequestKind::JogStep),
        request_spec("mdi"@) == Some(RequestKind::Mdi),
        request_spec("run"@) == Some(RequestKind::Run),
        request_spec("pause"@) == Some(RequestKind::Pause),
        request_spec("resume"@) == Some(RequestKind::Resume),
        request_spec("stop"@) == Some(RequestKind::Stop),
        request_spec("single_block"@) == Some(RequestKind::SingleBlock),
        request_spec("optional_stop"@) == Some(RequestKind::OptionalStop),
        request_spec("block_delete"@) == Some(RequestKind::BlockDelete),
        request_spec("wcs"@) == Some(RequestKind::Wcs),
        request_spec("touch_off"@) == Some(RequestKind::TouchOff),
        request_spec("tool"@) == Some(RequestKind::Tool),
        request_spec("spindle"@) == Some(RequestKind::Spindle),
        request_spec("coolant"@) == Some(RequestKind::Coolant),
        request_spec("override"@) == Some(RequestKind::Override),
        request_spec(cmd) == Some(RequestKind::Estop) ==> cmd == "estop"@,
        request_spec(cmd) == Some(RequestKind::EstopReset) ==> cmd == "estop_reset"@,
        request_spec(cmd) == Some(RequestKind::Power) ==> cmd == "power"@,
        request_spec(cmd) == Some(RequestKind::Home) ==> cmd == "home"@,
        request_spec(cmd) == Some(RequestKind::Jog) ==> cmd == "jog"@,
        request_spec(cmd) == Some(RequestKind::JogStep) ==> cmd == "jog_step"@,
        request_spec(cmd) == Some(RequestKind::Mdi) ==> cmd == "mdi"@,
        request_spec(cmd) == Some(RequestKind::Run) ==> cmd == "run"@,
        request_spec(cmd) == Some(RequestKind::Pause) ==> cmd == "pause"@,
        request_spec(cmd) == Some(RequestKind::Resume) ==> cmd == "resume"@,
        request_spec(cmd) == Some(RequestKind::Stop) ==> cmd == "stop"@,
        request_spec(cmd) == Some(RequestKind::SingleBlock) ==> cmd == "single_block"@,
        request_spec(cmd) == Some(RequestKind::OptionalStop) ==> cmd == "optional_stop"@,
        request_spec(cmd) == Some(RequestKind::BlockDelete) ==> cmd == "block_delete"@,
        request_spec(cmd) == Some(RequestKind::Wcs) ==> cmd == "wcs"@,
        request_spec(cmd) == Some(RequestKind::TouchOff) ==> cmd == "touch_off"@,
        request_spec(cmd) == Some(RequestKind::Tool) ==> cmd == "tool"@,
        request_spec(cmd) == Some(RequestKind::Spindle) ==> cmd == "spindle"@,
        request_spec(cmd) == Some(RequestKind::Coolant) ==> cmd == "coolant"@,
        request_spec(cmd) == Some(RequestKind::Override) ==> cmd == "override"@,
{
    reveal_strlit("estop");
    assert("estop"@ =~= seq!['e', 's', 't', 'o', 'p']);
    reveal_strlit("estop_reset");
    assert("estop_reset"@ =~= seq!['e', 's', 't', 'o', 'p', '_', 'r', 'e', 's', 'e', 't']);
    reveal_strlit("power");
    assert("power"@ =~= seq!['p', 'o', 'w', 'e', 'r']);
    reveal_strlit("home");
    assert("home"@ =~= seq!['h', 'o', 'm', 'e']);
    reveal_strlit("jog");
    assert("jog"@ =~= seq!['j', 'o', 'g']);
    reveal_strlit("jog_step");
    assert("jog_step"@ =~= seq!['j', 'o', 'g', '_', 's', 't', 'e', 'p']);
    reveal_strlit("mdi");
    assert("mdi"@ =~= seq!['m', 'd', 'i']);
    reveal_strlit("run");
    assert("run"@ =~= seq!['r', 'u', 'n']);
    reveal_strlit("pause");
    assert("pause"@ =~= seq!['p', 'a', 'u', 's', 'e']);
    reveal_strlit("resume");
    assert("resume"@ =~= seq!['r', 'e', 's', 'u', 'm', 'e']);
    reveal_strlit("stop");
    assert("stop"@ =~= seq!['s', 't', 'o', 'p']);
    reveal_strlit("single_block");
    assert("single_block"@ =~= seq!['s', 'i', 'n', 'g', 'l', 'e', '_', 'b', 'l', 'o', 'c', 'k']);
    reveal_strlit("optional_stop");
    assert("optional_stop"@ =~= seq!['o', 'p', 't', 'i', 'o', 'n', 'a', 'l', '_', 's', 't', 'o', 'p']);
    reveal_strlit("block_delete");
    assert("block_delete"@ =~= seq!['b', 'l', 'o', 'c', 'k', '_', 'd', 'e', 'l', 'e', 't', 'e']);
    reveal_strlit("wcs");
    assert("wcs"@ =~= seq!['w', 'c', 's']);
    reveal_strlit("touch_off");
    assert("touch_off"@ =~= seq!['t', 'o', 'u', 'c', 'h', '_', 'o', 'f', 'f']);
    reveal_strlit("tool");
    assert("tool"@ =~= seq!['t', 'o', 'o', 'l']);
    reveal_strlit("spindle");
    assert("spindle"@ =~= seq!['s', 'p', 'i', 'n', 'd', 'l', 'e']);
    reveal_strlit("coolant");
    assert("coolant"@ =~= seq!['c', 'o', 'o', 'l', 'a', 'n', 't']);
    reveal_strlit("override");
    assert("override"@ =~= seq!['o', 'v', 'e', 'r', 'r', 'i', 'd', 'e']);
}

} // verus!

verus! {

/// Program files end in `.ngc`, `.nc` or `.gcode`, whatever comes before;
/// a name ending in any other character than `c` or `e` is no program.
pub proof fn law_program_names(stem: Seq<char>, name: Seq<char>)
    ensures
        is_program_name_spec(stem + ".ngc"@),
        is_program_name_spec(stem + ".nc"@),
        is_program_name_spec(stem + ".gcode"@),
        name.len() == 0 || (name.last() != 'c' && name.last() != 'e') ==> !is_program_name_spec(name),
{
    reveal_strlit(".ngc");
    reveal_strlit(".nc");
    reveal_strlit(".gcode");
    assert((stem + ".ngc"@).subrange(stem.len() as int, stem.len() as int + 4) =~= ".ngc"@);
    assert((stem + ".nc"@).subrange(stem.len() as int, stem.len() as int + 3) =~= ".nc"@);
    assert((stem + ".gcode"@).subrange(stem.len() as int, stem.len() as int + 6) =~= ".gcode"@);
    if name.len() > 0 && name.last() != 'c' && name.last() != 'e' {
        if name.len() >= 4 {
            assert(name.subrange(name.len() - 4, name.len() as int)[3] == name.last());
        }
        if name.len() >= 3 {
            assert(name.subrange(name.len() - 3, name.len() as int)[2] == name.last());
        }
        if name.len() >= 6 {
            assert(name.subrange(name.len() - 6, name.len() as int)[5] == name.last());
        }
    }
}

} // verus!
