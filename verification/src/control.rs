//! O-word control flow of the interpreter: subroutine table, calls and
//! returns, `if`/`elseif`/`else`, `while`, `repeat`, and the executed-line
//! budget that stops runaway loops.
//!
//! The executor walks the program line by line and hands the caller every
//! line that needs arithmetic: parameter assignments, motion words, branch
//! conditions, repeat counts and call arguments. The caller evaluates them
//! and reports the outcome back; the executor decides where execution goes
//! next.

use vstd::prelude::*;
use crate::gcode::{
    effective, effective_spec, err, find_o, find_plain, find_skipping, keyword_spec,
    lemma_find_plain_range, o_line, o_parts, o_parts_spec, o_word_at,
    rfind_o, rfind_spec, same_chars, GCodeError, Keyword, Target,
};
use crate::text::{join2, join3, string_of};
use crate::gcode::OWord;
use vstd::string::StringExecFns;

verus! {

/// Executed-line budget — stops runaway `while` loops.
pub const EXECUTION_BUDGET: usize = 2_000_000;

/// Deepest subroutine nesting.
pub const MAX_CALL_DEPTH: usize = 64;

pub struct SubDef {
    pub id: Vec<char>,
    pub start: usize,
    pub end: usize,
}

pub struct RepeatFrame {
    pub id: Vec<char>,
    pub pc: usize,
    pub remaining: i64,
}

/// Subroutine table: id → (line of `sub`, line of `endsub`); a later
/// definition of an id replaces an earlier one.
pub open spec fn subs_map(s: Seq<SubDef>) -> Map<Seq<char>, (nat, nat)>
    decreases s.len(),
{
    if s.len() == 0 {
        Map::empty()
    } else {
        let d = s.last();
        subs_map(s.drop_last()).insert(d.id@, (d.start as nat, d.end as nat))
    }
}

pub open spec fn repeats_view(s: Seq<RepeatFrame>) -> Seq<(Seq<char>, nat, int)> {
    s.map_values(|r: RepeatFrame| (r.id@, r.pc as nat, r.remaining as int))
}

pub open spec fn calls_view(s: Seq<usize>) -> Seq<nat> {
    s.map_values(|c: usize| c as nat)
}

/// The subroutine table of lines `[0, n)`, or the first `sub` without its
/// `endsub` as (line, message).
pub open spec fn scan_spec(lines: Seq<Vec<char>>, bd: bool, n: nat) -> Result<Map<Seq<char>, (nat, nat)>, (nat, Seq<char>)>
    decreases n,
{
    if n == 0 {
        Ok(Map::empty())
    } else {
        match scan_spec(lines, bd, (n - 1) as nat) {
            Err(e) => Err(e),
            Ok(m) => {
                let i = (n - 1) as nat;
                match o_line(lines, bd, i as int) {
                    Some(p) => if keyword_spec(p.1) == Keyword::Sub {
                        match find_skipping(lines, bd, i + 1, p.0, Target::EndSub) {
                            Some(end) => Ok(m.insert(p.0, (i, end))),
                            None => Err((i + 1, "o"@ + p.0 + " sub without endsub"@)),
                        }
                    } else {
                        Ok(m)
                    },
                    None => Ok(m),
                }
            },
        }
    }
}

/// What decides a branch: `if`, an `elseif` reached while seeking, or `while`.
#[derive(Debug, Clone, Copy, PartialEq, Eq, Structural)]
pub enum BranchKind {
    If,
    ElseIf,
    While,
}

/// A pending branch decision, handed out with its condition text.
pub struct Branch {
    kind: BranchKind,
    id: Vec<char>,
    line: usize,
    at: usize,
}

/// A pending `repeat`, handed out with its count expression.
pub struct RepeatStart {
    id: Vec<char>,
    line: usize,
    at: usize,
}

/// A pending `call`, handed out with its argument text.
pub struct CallStart {
    line: usize,
    start: usize,
    at: usize,
}

impl Branch {
    #[verifier::type_invariant]
    spec fn bounded(self) -> bool {
        self.at < usize::MAX
    }

    pub closed spec fn view(self) -> (BranchKind, Seq<char>, nat, nat) {
        (self.kind, self.id@, self.line as nat, self.at as nat)
    }
}

impl RepeatStart {
    #[verifier::type_invariant]
    spec fn bounded(self) -> bool {
        self.at < usize::MAX
    }

    pub closed spec fn view(self) -> (Seq<char>, nat, nat) {
        (self.id@, self.line as nat, self.at as nat)
    }
}

impl CallStart {
    #[verifier::type_invariant]
    spec fn bounded(self) -> bool {
        self.at < usize::MAX && self.start < usize::MAX
    }

    pub closed spec fn view(self) -> (nat, nat, nat) {
        (self.line as nat, self.start as nat, self.at as nat)
    }
}

/// What the caller is asked to do next.
pub enum Step {
    /// The program ran off its last line.
    Done,
    /// A `#…=…` assignment line.
    Assign { line: usize, text: Vec<char> },
    /// A line of words (G/M/X… with their values).
    Words { line: usize, text: Vec<char> },
    /// A branch condition: evaluate `text` (errors belong to `line`) and
    /// report whether it is nonzero through `Executor::decide`.
    Condition { line: usize, text: Vec<char>, branch: Branch },
    /// A repeat count: evaluate and round `text`, report it through
    /// `Executor::repeat_count`.
    Count { line: usize, text: Vec<char>, repeat: RepeatStart },
    /// A subroutine call: evaluate the arguments in `args`, then enter the
    /// call through `Executor::enter_call`.
    Call { line: usize, args: Vec<char>, call: CallStart },
    /// Returned from a subroutine: drop its local parameters.
    Return,
}

/// The meaning of a `Step`, or a failure with its (line, message).
pub enum StepView {
    Done,
    Assign(nat, Seq<char>),
    Words(nat, Seq<char>),
    Condition(nat, Seq<char>, (BranchKind, Seq<char>, nat, nat)),
    Count(nat, Seq<char>, (Seq<char>, nat, nat)),
    Call(nat, Seq<char>, (nat, nat, nat)),
    Return,
    Fail(nat, Seq<char>),
}

impl Step {
    pub open spec fn view(self) -> StepView {
        match self {
            Step::Done => StepView::Done,
            Step::Assign { line, text } => StepView::Assign(line as nat, text@),
            Step::Words { line, text } => StepView::Words(line as nat, text@),
            Step::Condition { line, text, branch } => StepView::Condition(line as nat, text@, branch.view()),
            Step::Count { line, text, repeat } => StepView::Count(line as nat, text@, repeat.view()),
            Step::Call { line, args, call } => StepView::Call(line as nat, args@, call.view()),
            Step::Return => StepView::Return,
        }
    }
}

/// Position of the executor between steps.
pub struct Model {
    pub pc: nat,
    pub budget: nat,
    pub calls: Seq<nat>,
    pub repeats: Seq<(Seq<char>, nat, int)>,
}

/// Outcome of one O-word line.
pub enum Effect {
    Continue(Model),
    Yield(StepView, Model),
}

pub open spec fn budget_message() -> Seq<char> {
    "execution budget exceeded — endless loop?"@
}

/// What the O-word `p` on line `m.pc` does (the line's budget already spent).
pub open spec fn o_effect(
    lines: Seq<Vec<char>>,
    bd: bool,
    subs: Map<Seq<char>, (nat, nat)>,
    m: Model,
    p: (Seq<char>, Seq<char>, Seq<char>),
) -> Effect {
    let pc = m.pc;
    let line = pc + 1;
    let id = p.0;
    match keyword_spec(p.1) {
        Keyword::Sub => Effect::Continue(Model { pc: subs[id].1 + 1, ..m }),
        Keyword::EndSub | Keyword::Return => if m.calls.len() == 0 {
            Effect::Yield(StepView::Fail(line, "return outside a subroutine"@), m)
        } else {
            Effect::Yield(StepView::Return, Model { pc: m.calls.last(), calls: m.calls.drop_last(), ..m })
        },
        Keyword::Call => if !subs.contains_key(id) {
            Effect::Yield(StepView::Fail(line, "call to unknown sub o"@ + id), m)
        } else {
            Effect::Yield(StepView::Call(line, p.2, (line, subs[id].0, pc)), m)
        },
        Keyword::If => Effect::Yield(StepView::Condition(line, p.2, (BranchKind::If, id, line, pc)), m),
        Keyword::ElseIf | Keyword::Else => match find_plain(lines, bd, pc + 1, id, Target::EndIf) {
            None => Effect::Yield(StepView::Fail(line, "o"@ + id + " without endif"@), m),
            Some(at) => Effect::Continue(Model { pc: at + 1, ..m }),
        },
        Keyword::EndIf => Effect::Continue(Model { pc: pc + 1, ..m }),
        Keyword::While => Effect::Yield(StepView::Condition(line, p.2, (BranchKind::While, id, line, pc)), m),
        Keyword::EndWhile => match rfind_spec(lines, bd, pc, id, Keyword::While) {
            None => Effect::Yield(StepView::Fail(line, "o"@ + id + " endwhile without while"@), m),
            Some(at) => Effect::Continue(Model { pc: at, ..m }),
        },
        Keyword::Repeat => if m.repeats.len() > 0 && m.repeats.last().0 == id && m.repeats.last().1 == pc {
            Effect::Continue(Model { pc: pc + 1, ..m })
        } else {
            Effect::Yield(StepView::Count(line, p.2, (id, line, pc)), m)
        },
        Keyword::EndRepeat => if m.repeats.len() == 0 {
            Effect::Yield(StepView::Fail(line, "endrepeat without repeat"@), m)
        } else {
            let r = m.repeats.last();
            if r.0 != id {
                Effect::Yield(StepView::Fail(line, "endrepeat o"@ + id + " does not match o"@ + r.0), m)
            } else if r.2 - 1 > 0 {
                Effect::Continue(Model { pc: r.1, repeats: m.repeats.update(m.repeats.len() - 1, (r.0, r.1, r.2 - 1)), ..m })
            } else {
                Effect::Continue(Model { pc: pc + 1, repeats: m.repeats.drop_last(), ..m })
            }
        },
        Keyword::Other => Effect::Yield(StepView::Fail(line, "unsupported O-word \""@ + p.1 + "\""@), m),
    }
}

/// Run from `m` until a line needs the caller, the program ends, or an
/// error stops it; every line visited spends one unit of budget.
pub open spec fn run_spec(lines: Seq<Vec<char>>, bd: bool, subs: Map<Seq<char>, (nat, nat)>, m: Model) -> (StepView, Model)
    decreases m.budget,
{
    if m.pc >= lines.len() {
        (StepView::Done, m)
    } else if m.budget == 0 {
        (StepView::Fail(m.pc + 1, budget_message()), m)
    } else {
        let m1 = Model { budget: (m.budget - 1) as nat, ..m };
        let line = m.pc + 1;
        match effective_spec(lines[m.pc as int]@, bd) {
            None => run_spec(lines, bd, subs, Model { pc: m.pc + 1, ..m1 }),
            Some(t) => match o_parts_spec(t) {
                Some(p) => match o_effect(lines, bd, subs, m1, p) {
                    Effect::Continue(m2) => if m2.budget < m.budget {
                        run_spec(lines, bd, subs, m2)
                    } else {
                        (StepView::Done, m2)
                    },
                    Effect::Yield(v, m2) => (v, m2),
                },
                None => if t[0] == '#' {
                    (StepView::Assign(line, t), Model { pc: m.pc + 1, ..m1 })
                } else {
                    (StepView::Words(line, t), Model { pc: m.pc + 1, ..m1 })
                },
            },
        }
    }
}

/// The subroutine table `subs` is the scan of `lines`, and every subroutine
/// lies within the program.
#[verifier::opaque]
pub open spec fn table_ok(lines: Seq<Vec<char>>, bd: bool, subs: Seq<SubDef>) -> bool {
    &&& scan_spec(lines, bd, lines.len() as nat) == Ok::<_, (nat, Seq<char>)>(subs_map(subs))
    &&& subs_within(subs, lines.len() as nat)
}

/// The O-word control state of one program run.
pub struct Executor {
    lines: Vec<Vec<char>>,
    block_delete: bool,
    pc: usize,
    budget: usize,
    subs: Vec<SubDef>,
    calls: Vec<usize>,
    repeats: Vec<RepeatFrame>,
}

impl Executor {
    /// The subroutine table is the scan of the program, repeat counters are
    /// positive, and every subroutine lies within the program.
    pub closed spec fn wf(self) -> bool {
        &&& table_ok(self.lines@, self.block_delete, self.subs@)
        &&& forall|i: int| 0 <= i < self.repeats.len() ==> #[trigger] self.repeats@[i].remaining >= 1
    }

    pub closed spec fn lines(self) -> Seq<Vec<char>> {
        self.lines@
    }

    pub closed spec fn block_delete(self) -> bool {
        self.block_delete
    }

    pub closed spec fn subs(self) -> Map<Seq<char>, (nat, nat)> {
        subs_map(self.subs@)
    }

    pub closed spec fn model(self) -> Model {
        Model {
            pc: self.pc as nat,
            budget: self.budget as nat,
            calls: calls_view(self.calls@),
            repeats: repeats_view(self.repeats@),
        }
    }
}

} // verus!

verus! {

/// Index of the last definition of `id`, or -1.
pub open spec fn last_def(s: Seq<SubDef>, id: Seq<char>) -> int
    decreases s.len(),
{
    if s.len() == 0 {
        -1
    } else if s.last().id@ == id {
        s.len() - 1
    } else {
        last_def(s.drop_last(), id)
    }
}

proof fn lemma_last_def(s: Seq<SubDef>, id: Seq<char>)
    ensures
        -1 <= last_def(s, id) < s.len(),
        last_def(s, id) >= 0 ==> {
            let k = last_def(s, id);
            &&& s[k].id@ == id
            &&& forall|j: int| k < j < s.len() ==> s[j].id@ != id
            &&& subs_map(s).contains_key(id)
            &&& subs_map(s)[id] == (s[k].start as nat, s[k].end as nat)
        },
        last_def(s, id) == -1 ==> !subs_map(s).contains_key(id) && forall|j: int| 0 <= j < s.len() ==> s[j].id@ != id,
    decreases s.len(),
{
    if s.len() > 0 {
        let t = s.drop_last();
        lemma_last_def(t, id);
        if s.last().id@ != id {
            assert forall|j: int| last_def(s, id) < j < s.len() implies s[j].id@ != id by {
                if j < s.len() - 1 {
                    assert(s[j] == t[j]);
                }
            }
        }
    }
}

/// Index of the definition of subroutine `id` that the table keeps.
fn lookup_sub(subs: &Vec<SubDef>, id: &Vec<char>) -> (r: Option<usize>)
    ensures
        r matches Some(k) ==> (k < subs.len() && subs_map(subs@).contains_key(id@)
            && subs_map(subs@)[id@] == (subs@[k as int].start as nat, subs@[k as int].end as nat)),
        r is None ==> !subs_map(subs@).contains_key(id@),
{
    let mut i = subs.len();
    while i > 0
        invariant
            i <= subs.len(),
            forall|j: int| i <= j < subs.len() ==> subs@[j].id@ != id@,
        decreases i,
    {
        let j = i - 1;
        if same_chars(&subs[j].id, id) {
            proof {
                lemma_last_def(subs@, id@);
                let k = last_def(subs@, id@);
                if k < j {
                    assert(subs@[j as int].id@ != id@);
                } else if k > j {
                    assert(subs@[k].id@ != id@);
                }
                assert(k == j);
            }
            return Some(j);
        }
        i = j;
    }
    proof {
        lemma_last_def(subs@, id@);
        let k = last_def(subs@, id@);
        if k >= 0 {
            assert(subs@[k].id@ != id@);
        }
    }
    None
}

proof fn lemma_scan_err_stays(lines: Seq<Vec<char>>, bd: bool, n: nat, k: nat)
    requires
        k <= n,
        scan_spec(lines, bd, k) is Err,
    ensures
        scan_spec(lines, bd, n) == scan_spec(lines, bd, k),
    decreases n - k,
{
    if k < n {
        lemma_scan_err_stays(lines, bd, (n - 1) as nat, k);
    }
}

proof fn lemma_scan_ok_prefix(lines: Seq<Vec<char>>, bd: bool, n: nat, k: nat)
    requires
        k <= n,
        scan_spec(lines, bd, n) is Ok,
    ensures
        scan_spec(lines, bd, k) is Ok,
    decreases n - k,
{
    if k < n {
        lemma_scan_ok_prefix(lines, bd, (n - 1) as nat, k);
    }
}

proof fn lemma_scan_keeps_keys(lines: Seq<Vec<char>>, bd: bool, n: nat, k: nat, id: Seq<char>)
    requires
        k <= n,
        scan_spec(lines, bd, n) is Ok,
        scan_spec(lines, bd, k) matches Ok(m) && m.contains_key(id),
    ensures
        scan_spec(lines, bd, n) matches Ok(m) && m.contains_key(id),
    decreases n - k,
{
    if k < n {
        lemma_scan_ok_prefix(lines, bd, n, (n - 1) as nat);
        lemma_scan_keeps_keys(lines, bd, (n - 1) as nat, k, id);
    }
}

/// Every `sub` line of a scanned program is in its subroutine table.
proof fn lemma_scan_has_sub(lines: Seq<Vec<char>>, bd: bool, n: nat, i: nat)
    requires
        i < n,
        scan_spec(lines, bd, n) is Ok,
        o_line(lines, bd, i as int) matches Some(p) && keyword_spec(p.1) == Keyword::Sub,
    ensures
        scan_spec(lines, bd, n) matches Ok(m) && m.contains_key((o_line(lines, bd, i as int)->0).0),
{
    lemma_scan_ok_prefix(lines, bd, n, i + 1);
    lemma_scan_keeps_keys(lines, bd, n, i + 1, (o_line(lines, bd, i as int)->0).0);
}


pub open spec fn subs_within(s: Seq<SubDef>, n: nat) -> bool {
    forall|i: int| 0 <= i < s.len() ==> #[trigger] s[i].start < s[i].end < n
}

/// Record the subroutine defined on line `i`, if any.
fn scan_line(lines: &Vec<Vec<char>>, bd: bool, i: usize, subs: &mut Vec<SubDef>) -> (r: Result<(), GCodeError>)
    requires
        i < lines.len(),
        scan_spec(lines@, bd, i as nat) == Ok::<_, (nat, Seq<char>)>(subs_map(old(subs)@)),
        subs_within(old(subs)@, lines.len() as nat),
    ensures
        match r {
            Ok(()) => scan_spec(lines@, bd, (i + 1) as nat) == Ok::<_, (nat, Seq<char>)>(subs_map(final(subs)@))
                && subs_within(final(subs)@, lines.len() as nat),
            Err(e) => scan_spec(lines@, bd, (i + 1) as nat) == Err::<Map<Seq<char>, (nat, nat)>, _>((e.line as nat, e.message@)),
        },
{
    match o_word_at(lines, bd, i) {
        Some(w) => {
            if w.keyword == Keyword::Sub {
                match find_o(lines, bd, i + 1, &w.id, Target::EndSub, true) {
                    Some(end) => {
                        let ghost before = subs@;
                        let ghost idv = w.id@;
                        assert(i < end && end < lines.len());
                        assert(find_skipping(lines@, bd, (i + 1) as nat, idv, Target::EndSub) == Some(end as nat));
                        assert(scan_spec(lines@, bd, (i + 1) as nat) == Ok::<_, (nat, Seq<char>)>(
                            subs_map(before).insert(idv, (i as nat, end as nat)),
                        ));
                        subs.push(SubDef { id: w.id, start: i, end });
                        assert(subs@.drop_last() =~= before);
                        assert(subs_map(subs@) == subs_map(before).insert(idv, (i as nat, end as nat)));
                        assert forall|k: int| 0 <= k < subs.len() implies #[trigger] subs@[k].start < subs@[k].end < lines.len() by {
                            if k < subs.len() - 1 {
                                assert(subs@[k] == before[k]);
                            }
                        }
                        Ok(())
                    },
                    None => {
                        let msg = join3("o", &w.id, " sub without endsub");
                        Err(err(i + 1, msg))
                    },
                }
            } else {
                Ok(())
            }
        },
        None => Ok(()),
    }
}

impl Executor {
    /// Index the subroutines of a program (its lines, after `str::lines`);
    /// fails on a `sub` without its `endsub`.
    pub fn new(lines: Vec<Vec<char>>, block_delete: bool) -> (r: Result<Executor, GCodeError>)
        ensures
            match (r, scan_spec(lines@, block_delete, lines.len() as nat)) {
                (Ok(e), Ok(m)) => e.wf() && e.lines() == lines@ && e.block_delete() == block_delete && e.subs() == m
                    && e.model() == (Model { pc: 0, budget: EXECUTION_BUDGET as nat, calls: Seq::empty(), repeats: Seq::empty() }),
                (Err(e), Err(f)) => e.line == f.0 && e.message@ == f.1,
                _ => false,
            },
    {
        let mut subs: Vec<SubDef> = Vec::new();
        let mut i: usize = 0;
        while i < lines.len()
            invariant
                i <= lines.len(),
                scan_spec(lines@, block_delete, i as nat) == Ok::<_, (nat, Seq<char>)>(subs_map(subs@)),
                subs_within(subs@, lines.len() as nat),
            decreases lines.len() - i,
        {
            match scan_line(&lines, block_delete, i, &mut subs) {
                Ok(()) => {},
                Err(e) => {
                    proof {
                        lemma_scan_err_stays(lines@, block_delete, lines.len() as nat, (i + 1) as nat);
                    }
                    return Err(e);
                },
            }
            i = i + 1;
        }
        let calls: Vec<usize> = Vec::new();
        let repeats: Vec<RepeatFrame> = Vec::new();
        proof {
            assert(calls_view(calls@) =~= Seq::<nat>::empty());
            assert(repeats_view(repeats@) =~= Seq::<(Seq<char>, nat, int)>::empty());
        }
        proof {
            reveal(table_ok);
        }
        Ok(Executor { lines, block_delete, pc: 0, budget: EXECUTION_BUDGET, subs, calls, repeats })
    }
}

} // verus!

verus! {

/// Where a branch decision sends execution: on to the next condition to
/// evaluate (an `elseif` found while seeking), or to a line.
pub open spec fn decide_spec(
    lines: Seq<Vec<char>>,
    bd: bool,
    m: Model,
    b: (BranchKind, Seq<char>, nat, nat),
    nonzero: bool,
) -> Result<(Option<(Seq<char>, (BranchKind, Seq<char>, nat, nat))>, Model), (nat, Seq<char>)> {
    let (kind, id, line, at) = b;
    if nonzero {
        Ok((None, Model { pc: at + 1, ..m }))
    } else if kind == BranchKind::While {
        match find_plain(lines, bd, at + 1, id, Target::EndWhile) {
            None => Err((line, "o"@ + id + " while without endwhile"@)),
            Some(x) => Ok((None, Model { pc: x + 1, ..m })),
        }
    } else {
        match find_plain(lines, bd, at + 1, id, Target::Branch) {
            None => Err((line, "o"@ + id + " if without endif"@)),
            Some(x) => match o_line(lines, bd, x as int) {
                Some(p) => if keyword_spec(p.1) == Keyword::ElseIf {
                    Ok((Some((p.2, (BranchKind::ElseIf, id, line, x))), m))
                } else {
                    Ok((None, Model { pc: x + 1, ..m }))
                },
                None => Ok((None, m)),
            },
        }
    }
}

/// Where a repeat count sends execution.
pub open spec fn repeat_spec(lines: Seq<Vec<char>>, bd: bool, m: Model, r: (Seq<char>, nat, nat), n: int) -> Result<Model, (nat, Seq<char>)> {
    let (id, line, at) = r;
    if n >= 1 {
        Ok(Model { pc: at + 1, repeats: m.repeats.push((id, at, n)), ..m })
    } else {
        match find_plain(lines, bd, at + 1, id, Target::EndRepeat) {
            None => Err((line, "o"@ + id + " repeat without endrepeat"@)),
            Some(x) => Ok(Model { pc: x + 1, ..m }),
        }
    }
}

/// Entering a subroutine: the line after the call is remembered and
/// execution continues after the `sub` line.
pub open spec fn call_spec(m: Model, c: (nat, nat, nat)) -> Result<Model, (nat, Seq<char>)> {
    let (line, start, at) = c;
    if m.calls.len() >= MAX_CALL_DEPTH {
        Err((line, "subroutine call depth exceeded"@))
    } else {
        Ok(Model { pc: start + 1, calls: m.calls.push(at + 1), ..m })
    }
}

impl Executor {
    /// Whether `other` runs the same program with the same subroutines.
    pub open spec fn same_program(self, other: Executor) -> bool {
        &&& self.lines() == other.lines()
        &&& self.block_delete() == other.block_delete()
        &&& self.subs() == other.subs()
    }

    /// Run to the next line that needs the caller.
    #[verifier::rlimit(80)]
    pub fn next_step(&mut self) -> (r: Result<Step, GCodeError>)
        requires
            old(self).wf(),
        ensures
            final(self).wf(),
            final(self).same_program(*old(self)),
            ({
                let (v, m) = run_spec(old(self).lines(), old(self).block_delete(), old(self).subs(), old(self).model());
                match r {
                    Ok(s) => s.view() == v && final(self).model() == m,
                    Err(e) => v == StepView::Fail(e.line as nat, e.message@),
                }
            }),
    {
        let ghost lines = self.lines@;
        let ghost bd = self.block_delete;
        let ghost subs = subs_map(self.subs@);
        let ghost target = run_spec(lines, bd, subs, self.model());
        loop
            invariant
                self.wf(),
                self.lines@ == lines,
                self.block_delete == bd,
                subs_map(self.subs@) == subs,
                self.same_program(*old(self)),
                run_spec(lines, bd, subs, self.model()) == target,
                target == run_spec(old(self).lines(), old(self).block_delete(), old(self).subs(), old(self).model()),
            decreases self.budget,
        {
            let ghost m0 = self.model();
            if self.pc >= self.lines.len() {
                return Ok(Step::Done);
            }
            if self.budget == 0 {
                return Err(err(self.pc + 1, String::from_str("execution budget exceeded — endless loop?")));
            }
            self.budget = self.budget - 1;
            assert(self.wf());
            let pc = self.pc;
            let line = pc + 1;
            let ghost m1 = self.model();
            match effective(&self.lines[pc], self.block_delete) {
                None => {
                    self.pc = pc + 1;
                },
                Some(t) => {
                    match o_parts(&t) {
                        None => {
                            self.pc = pc + 1;
                            if t[0] == '#' {
                                return Ok(Step::Assign { line, text: t });
                            } else {
                                return Ok(Step::Words { line, text: t });
                            }
                        },
                        Some(w) => {
                            let ghost p = o_parts_spec(t@)->0;
                            assert(run_spec(lines, bd, subs, m0) == match o_effect(lines, bd, subs, m1, p) {
                                Effect::Continue(m2) => if m2.budget < m0.budget {
                                    run_spec(lines, bd, subs, m2)
                                } else {
                                    (StepView::Done, m2)
                                },
                                Effect::Yield(v, m2) => (v, m2),
                            });
                            match self.o_step(w) {
                                Err(e) => {
                                    return Err(e);
                                },
                                Ok(Some(step)) => {
                                    return Ok(step);
                                },
                                Ok(None) => {},
                            }
                        },
                    }
                },
            }
        }
    }
}


impl Executor {
    /// Carry out the O-word `w` of line `pc` (its budget already spent).
    #[verifier::rlimit(60)]
    fn o_step(&mut self, w: OWord) -> (r: Result<Option<Step>, GCodeError>)
        requires
            old(self).wf(),
            old(self).pc < old(self).lines.len(),
            o_line(old(self).lines@, old(self).block_delete, old(self).pc as int) matches Some(p) && w.is(p),
        ensures
            final(self).wf(),
            final(self).same_program(*old(self)),
            ({
                let p = o_line(old(self).lines@, old(self).block_delete, old(self).pc as int)->0;
                match o_effect(old(self).lines(), old(self).block_delete(), old(self).subs(), old(self).model(), p) {
                    Effect::Continue(m2) => r == Ok::<Option<Step>, GCodeError>(None) && final(self).model() == m2,
                    Effect::Yield(v, m2) => match r {
                        Ok(Some(s)) => s.view() == v && final(self).model() == m2,
                        Ok(None) => false,
                        Err(e) => v == StepView::Fail(e.line as nat, e.message@),
                    },
                }
            }),
    {
        let pc = self.pc;
        let line = pc + 1;
        let ghost lines = self.lines@;
        let ghost bd = self.block_delete;
            match w.keyword {
                Keyword::Sub => {
                    proof {
                        reveal(table_ok);
                        lemma_scan_has_sub(lines, bd, lines.len() as nat, pc as nat);
                    }
                    match lookup_sub(&self.subs, &w.id) {
                        Some(k) => {
                            proof {
                                reveal(table_ok);
                            }
                            let end = self.subs[k].end;
                            self.pc = end + 1;
                        },
                        None => {
                            return Ok(None);
                        },
                    }
                },
                Keyword::EndSub | Keyword::Return => {
                    let ghost calls0 = self.calls@;
                    match self.calls.pop() {
                        None => {
                            return Err(err(line, String::from_str("return outside a subroutine")));
                        },
                        Some(back) => {
                            self.pc = back;
                            proof {
                                assert(calls_view(self.calls@) =~= calls_view(calls0).drop_last());
                            }
                            return Ok(Some(Step::Return));
                        },
                    }
                },
                Keyword::Call => {
                    match lookup_sub(&self.subs, &w.id) {
                        None => {
                            let msg = join2("call to unknown sub o", &w.id);
                            assert(msg@ =~= "call to unknown sub o"@ + w.id@);
                            return Err(err(line, msg));
                        },
                        Some(k) => {
                            proof {
                                reveal(table_ok);
                            }
                            let start = self.subs[k].start;
                            let call = CallStart { line, start, at: pc };
                            return Ok(Some(Step::Call { line, args: w.rest, call }));
                        },
                    }
                },
                Keyword::If => {
                    let branch = Branch { kind: BranchKind::If, id: w.id, line, at: pc };
                    return Ok(Some(Step::Condition { line, text: w.rest, branch }));
                },
                Keyword::ElseIf | Keyword::Else => {
                    match find_o(&self.lines, self.block_delete, pc + 1, &w.id, Target::EndIf, false) {
                        None => {
                            let msg = join3("o", &w.id, " without endif");
                            return Err(err(line, msg));
                        },
                        Some(at) => {
                            self.pc = at + 1;
                        },
                    }
                },
                Keyword::EndIf => {
                    self.pc = pc + 1;
                },
                Keyword::While => {
                    let branch = Branch { kind: BranchKind::While, id: w.id, line, at: pc };
                    return Ok(Some(Step::Condition { line, text: w.rest, branch }));
                },
                Keyword::EndWhile => {
                    match rfind_o(&self.lines, self.block_delete, pc, &w.id, Keyword::While) {
                        None => {
                            let msg = join3("o", &w.id, " endwhile without while");
                            return Err(err(line, msg));
                        },
                        Some(at) => {
                            self.pc = at;
                        },
                    }
                },
                Keyword::Repeat => {
                    let n = self.repeats.len();
                    if n > 0 && same_chars(&self.repeats[n - 1].id, &w.id) && self.repeats[n - 1].pc == pc {
                        self.pc = pc + 1;
                    } else {
                        let repeat = RepeatStart { id: w.id, line, at: pc };
                        return Ok(Some(Step::Count { line, text: w.rest, repeat }));
                    }
                },
                Keyword::EndRepeat => {
                    let n = self.repeats.len();
                    if n == 0 {
                        return Err(err(line, String::from_str("endrepeat without repeat")));
                    }
                    if !same_chars(&self.repeats[n - 1].id, &w.id) {
                        let mut msg = join3("endrepeat o", &w.id, " does not match o");
                        let rid = string_of(&self.repeats[n - 1].id);
                        msg.append(rid.as_str());
                        return Err(err(line, msg));
                    }
                    let ghost reps0 = self.repeats@;
                    let remaining = self.repeats[n - 1].remaining;
                    let back = self.repeats[n - 1].pc;
                    let frame = self.repeats.pop().unwrap();
                    if remaining - 1 > 0 {
                        self.repeats.push(RepeatFrame { id: frame.id, pc: frame.pc, remaining: remaining - 1 });
                        self.pc = back;
                        proof {
                            assert(repeats_view(self.repeats@) =~= repeats_view(reps0).update(n - 1, (reps0[n - 1].id@, back as nat, remaining - 1)));
                        }
                    } else {
                        self.pc = pc + 1;
                        proof {
                            assert(repeats_view(self.repeats@) =~= repeats_view(reps0).drop_last());
                        }
                    }
                },
                Keyword::Other => {
                    let msg = join3("unsupported O-word \"", &w.word, "\"");
                    return Err(err(line, msg));
                },
            }
        Ok(None)
    }
}


impl Executor {
    /// Report the value of a branch condition handed out by `next_step`
    /// (or by a previous `decide`): nonzero takes the branch. Returns the
    /// next `elseif` condition to evaluate, if seeking reached one.
    pub fn decide(&mut self, branch: Branch, nonzero: bool) -> (r: Result<Option<(Vec<char>, Branch)>, GCodeError>)
        requires
            old(self).wf(),
        ensures
            final(self).wf(),
            final(self).same_program(*old(self)),
            match (r, decide_spec(old(self).lines(), old(self).block_delete(), old(self).model(), branch.view(), nonzero)) {
                (Ok(None), Ok((None, m))) => final(self).model() == m,
                (Ok(Some(next)), Ok((Some(n), m))) => next.0@ == n.0 && next.1.view() == n.1 && final(self).model() == m,
                (Err(e), Err(f)) => e.line == f.0 && e.message@ == f.1,
                _ => false,
            },
    {
        proof {
            use_type_invariant(&branch);
        }
        let at = branch.at;
        if nonzero {
            self.pc = at + 1;
            return Ok(None);
        }
        if branch.kind == BranchKind::While {
            match find_o(&self.lines, self.block_delete, at + 1, &branch.id, Target::EndWhile, false) {
                None => {
                    let msg = join3("o", &branch.id, " while without endwhile");
                    Err(err(branch.line, msg))
                },
                Some(x) => {
                    self.pc = x + 1;
                    Ok(None)
                },
            }
        } else {
            match find_o(&self.lines, self.block_delete, at + 1, &branch.id, Target::Branch, false) {
                None => {
                    let msg = join3("o", &branch.id, " if without endif");
                    Err(err(branch.line, msg))
                },
                Some(x) => {
                    proof {
                        lemma_find_plain_range(self.lines@, self.block_delete, (at + 1) as nat, branch.id@, Target::Branch);
                    }
                    match o_word_at(&self.lines, self.block_delete, x) {
                        Some(w2) => {
                            if w2.keyword == Keyword::ElseIf {
                                let next = Branch { kind: BranchKind::ElseIf, id: branch.id, line: branch.line, at: x };
                                Ok(Some((w2.rest, next)))
                            } else {
                                self.pc = x + 1;
                                Ok(None)
                            }
                        },
                        None => Ok(None),
                    }
                },
            }
        }
    }

    /// Report the rounded count of a `repeat` handed out by `next_step`.
    pub fn repeat_count(&mut self, repeat: RepeatStart, n: i64) -> (r: Result<(), GCodeError>)
        requires
            old(self).wf(),
        ensures
            final(self).wf(),
            final(self).same_program(*old(self)),
            match (r, repeat_spec(old(self).lines(), old(self).block_delete(), old(self).model(), repeat.view(), n as int)) {
                (Ok(()), Ok(m)) => final(self).model() == m,
                (Err(e), Err(f)) => e.line == f.0 && e.message@ == f.1,
                _ => false,
            },
    {
        proof {
            use_type_invariant(&repeat);
        }
        let at = repeat.at;
        if n >= 1 {
            let ghost reps0 = self.repeats@;
            let ghost idv = repeat.id@;
            self.repeats.push(RepeatFrame { id: repeat.id, pc: at, remaining: n });
            self.pc = at + 1;
            proof {
                assert(repeats_view(self.repeats@) =~= repeats_view(reps0).push((idv, at as nat, n as int)));
                assert forall|i: int| 0 <= i < self.repeats.len() implies #[trigger] self.repeats@[i].remaining >= 1 by {
                    if i < reps0.len() {
                        assert(self.repeats@[i] == reps0[i]);
                    }
                }
            }
            Ok(())
        } else {
            match find_o(&self.lines, self.block_delete, at + 1, &repeat.id, Target::EndRepeat, false) {
                None => {
                    let msg = join3("o", &repeat.id, " repeat without endrepeat");
                    Err(err(repeat.line, msg))
                },
                Some(x) => {
                    self.pc = x + 1;
                    Ok(())
                },
            }
        }
    }

    /// Enter the subroutine of a `call` handed out by `next_step`, once its
    /// arguments are evaluated.
    pub fn enter_call(&mut self, call: CallStart) -> (r: Result<(), GCodeError>)
        requires
            old(self).wf(),
        ensures
            final(self).wf(),
            final(self).same_program(*old(self)),
            match (r, call_spec(old(self).model(), call.view())) {
                (Ok(()), Ok(m)) => final(self).model() == m,
                (Err(e), Err(f)) => e.line == f.0 && e.message@ == f.1,
                _ => false,
            },
    {
        proof {
            use_type_invariant(&call);
        }
        if self.calls.len() >= MAX_CALL_DEPTH {
            return Err(err(call.line, String::from_str("subroutine call depth exceeded")));
        }
        let ghost calls0 = self.calls@;
        self.calls.push(call.at + 1);
        self.pc = call.start + 1;
        proof {
            assert(calls_view(self.calls@) =~= calls_view(calls0).push((call.at + 1) as nat));
        }
        Ok(())
    }

    /// Line index of the next line to run.
    pub fn pc(&self) -> (r: usize)
        ensures
            r == self.model().pc,
    {
        self.pc
    }
}

} // verus!

verus! {

// ── laws of the control flow ──────────────────────────────────────────────

proof fn lemma_o_effect_frame(lines: Seq<Vec<char>>, bd: bool, subs: Map<Seq<char>, (nat, nat)>, m: Model, p: (Seq<char>, Seq<char>, Seq<char>))
    ensures
        match o_effect(lines, bd, subs, m, p) {
            Effect::Continue(m2) => m2.budget == m.budget && m2.calls == m.calls,
            Effect::Yield(v, m2) => m2.budget == m.budget
                && (v is Return ==> m.calls.len() > 0 && m2.pc == m.calls.last() && m2.calls == m.calls.drop_last())
                && (!(v is Return) ==> m2.calls == m.calls),
        },
{
}

/// Every line the executor hands out has cost one unit of the execution
/// budget, and nothing refunds it: a program runs at most
/// `EXECUTION_BUDGET` lines before it ends or is stopped as an endless loop.
pub proof fn law_steps_spend_budget(lines: Seq<Vec<char>>, bd: bool, subs: Map<Seq<char>, (nat, nat)>, m: Model)
    ensures
        run_spec(lines, bd, subs, m).1.budget <= m.budget,
        !(run_spec(lines, bd, subs, m).0 is Done) && !(run_spec(lines, bd, subs, m).0 is Fail)
            ==> run_spec(lines, bd, subs, m).1.budget < m.budget,
        m.pc < lines.len() && m.budget == 0 ==> run_spec(lines, bd, subs, m).0 == StepView::Fail(m.pc + 1, budget_message()),
    decreases m.budget,
{
    if m.pc < lines.len() && m.budget > 0 {
        let m1 = Model { budget: (m.budget - 1) as nat, ..m };
        match effective_spec(lines[m.pc as int]@, bd) {
            None => {
                law_steps_spend_budget(lines, bd, subs, Model { pc: m.pc + 1, ..m1 });
            },
            Some(t) => match o_parts_spec(t) {
                Some(p) => {
                    lemma_o_effect_frame(lines, bd, subs, m1, p);
                    match o_effect(lines, bd, subs, m1, p) {
                        Effect::Continue(m2) => {
                            law_steps_spend_budget(lines, bd, subs, m2);
                        },
                        Effect::Yield(v, m2) => {},
                    }
                },
                None => {},
            },
        }
    }
}

/// Branch decisions, repeat counts and calls spend no budget.
pub proof fn law_decisions_spend_nothing(lines: Seq<Vec<char>>, bd: bool, m: Model, b: (BranchKind, Seq<char>, nat, nat), nonzero: bool, r: (Seq<char>, nat, nat), n: int, c: (nat, nat, nat))
    ensures
        decide_spec(lines, bd, m, b, nonzero) matches Ok(x) ==> x.1.budget == m.budget,
        repeat_spec(lines, bd, m, r, n) matches Ok(x) ==> x.budget == m.budget,
        call_spec(m, c) matches Ok(x) ==> x.budget == m.budget,
{
}

/// Until a subroutine returns, the call stack stays as it is; a return pops
/// the innermost call and resumes at the line it remembered.
pub proof fn law_calls_kept_until_return(lines: Seq<Vec<char>>, bd: bool, subs: Map<Seq<char>, (nat, nat)>, m: Model)
    ensures
        run_spec(lines, bd, subs, m).0 is Return ==> m.calls.len() > 0 && run_spec(lines, bd, subs, m).1.pc == m.calls.last()
            && run_spec(lines, bd, subs, m).1.calls == m.calls.drop_last(),
        !(run_spec(lines, bd, subs, m).0 is Return) ==> run_spec(lines, bd, subs, m).1.calls == m.calls,
    decreases m.budget,
{
    if m.pc < lines.len() && m.budget > 0 {
        let m1 = Model { budget: (m.budget - 1) as nat, ..m };
        match effective_spec(lines[m.pc as int]@, bd) {
            None => {
                law_calls_kept_until_return(lines, bd, subs, Model { pc: m.pc + 1, ..m1 });
            },
            Some(t) => match o_parts_spec(t) {
                Some(p) => {
                    lemma_o_effect_frame(lines, bd, subs, m1, p);
                    match o_effect(lines, bd, subs, m1, p) {
                        Effect::Continue(m2) => {
                            law_calls_kept_until_return(lines, bd, subs, m2);
                        },
                        Effect::Yield(v, m2) => {},
                    }
                },
                None => {},
            },
        }
    }
}

/// A subroutine returns to the line after its call, with the caller's
/// call stack.
pub proof fn law_return_resumes_after_call(lines: Seq<Vec<char>>, bd: bool, subs: Map<Seq<char>, (nat, nat)>, m: Model, c: (nat, nat, nat), later: Model)
    requires
        call_spec(m, c) is Ok,
        later.calls == (call_spec(m, c)->Ok_0).calls,
    ensures
        run_spec(lines, bd, subs, later).0 is Return ==> run_spec(lines, bd, subs, later).1.pc == c.2 + 1
            && run_spec(lines, bd, subs, later).1.calls == m.calls,
{
    law_calls_kept_until_return(lines, bd, subs, later);
    assert(m.calls.push(c.2 + 1).drop_last() =~= m.calls);
}

} // verus!

verus! {

proof fn lemma_rfind_found(lines: Seq<Vec<char>>, bd: bool, before: nat, id: Seq<char>, k: Keyword)
    requires
        rfind_spec(lines, bd, before, id, k) is Some,
    ensures
        ({
            let a = rfind_spec(lines, bd, before, id, k)->Some_0;
            &&& a < before
            &&& o_line(lines, bd, a as int) is Some
            &&& o_line(lines, bd, a as int)->Some_0.0 == id
            &&& keyword_spec(o_line(lines, bd, a as int)->Some_0.1) == k
        }),
    decreases before,
{
    if before > 0 {
        let i = (before - 1) as nat;
        match o_line(lines, bd, i as int) {
            Some(p) => {
                if !(p.0 == id && keyword_spec(p.1) == k) {
                    lemma_rfind_found(lines, bd, i, id, k);
                }
            },
            None => {
                lemma_rfind_found(lines, bd, i, id, k);
            },
        }
    }
}

/// Reaching `endwhile` goes back to its `while` and asks for the
/// condition again (two lines of budget).
pub proof fn law_endwhile_asks_again(lines: Seq<Vec<char>>, bd: bool, subs: Map<Seq<char>, (nat, nat)>, m: Model, id: Seq<char>)
    requires
        m.pc < lines.len(),
        m.budget >= 2,
        o_line(lines, bd, m.pc as int) matches Some(p) && p.0 == id && keyword_spec(p.1) == Keyword::EndWhile,
        rfind_spec(lines, bd, m.pc, id, Keyword::While) is Some,
    ensures
        ({
            let a = rfind_spec(lines, bd, m.pc, id, Keyword::While)->Some_0;
            let cond = o_line(lines, bd, a as int)->Some_0.2;
            run_spec(lines, bd, subs, m) == (
                StepView::Condition(a + 1, cond, (BranchKind::While, id, a + 1, a)),
                Model { pc: a, budget: (m.budget - 2) as nat, ..m },
            )
        }),
{
    lemma_rfind_found(lines, bd, m.pc, id, Keyword::While);
    let a = rfind_spec(lines, bd, m.pc, id, Keyword::While)->Some_0;
    let m1 = Model { budget: (m.budget - 1) as nat, ..m };
    let m2 = Model { pc: a, ..m1 };
    assert(run_spec(lines, bd, subs, m) == run_spec(lines, bd, subs, m2));
    assert(run_spec(lines, bd, subs, m2) == (
        StepView::Condition(a + 1, o_line(lines, bd, a as int)->Some_0.2, (BranchKind::While, id, a + 1, a)),
        Model { budget: (m2.budget - 1) as nat, ..m2 },
    ));
}

/// Reaching `endrepeat` with `n` passes left: while more than one is left
/// execution goes back to the first line of the body with one fewer (two
/// lines of budget); after the last pass it goes on past `endrepeat` and
/// the repeat is dropped.
pub proof fn law_endrepeat_loops_back(lines: Seq<Vec<char>>, bd: bool, subs: Map<Seq<char>, (nat, nat)>, m: Model, id: Seq<char>, a: nat, n: int)
    requires
        m.pc < lines.len(),
        m.budget >= 2,
        o_line(lines, bd, m.pc as int) matches Some(p) && p.0 == id && keyword_spec(p.1) == Keyword::EndRepeat,
        m.repeats.len() > 0,
        m.repeats.last() == (id, a, n),
        a < lines.len(),
        o_line(lines, bd, a as int) matches Some(q) && q.0 == id && keyword_spec(q.1) == Keyword::Repeat,
    ensures
        n > 1 ==> run_spec(lines, bd, subs, m) == run_spec(lines, bd, subs, Model {
            pc: a + 1,
            budget: (m.budget - 2) as nat,
            repeats: m.repeats.update(m.repeats.len() - 1, (id, a, n - 1)),
            ..m
        }),
        n <= 1 ==> run_spec(lines, bd, subs, m) == run_spec(lines, bd, subs, Model {
            pc: m.pc + 1,
            budget: (m.budget - 1) as nat,
            repeats: m.repeats.drop_last(),
            ..m
        }),
{
    let m1 = Model { budget: (m.budget - 1) as nat, ..m };
    if n > 1 {
        let reps = m.repeats.update(m.repeats.len() - 1, (id, a, n - 1));
        let m2 = Model { pc: a, repeats: reps, ..m1 };
        assert(run_spec(lines, bd, subs, m) == run_spec(lines, bd, subs, m2));
        assert(reps.last() == (id, a, n - 1));
        let m3 = Model { budget: (m2.budget - 1) as nat, ..m2 };
        assert(run_spec(lines, bd, subs, m2) == run_spec(lines, bd, subs, Model { pc: a + 1, ..m3 }));
    }
}

} // verus!

verus! {

/// Where a branch decision sends execution. A true condition enters the
/// body right after the `if`/`elseif`/`while` line. A false `if` or
/// `elseif` goes to the first `elseif`/`else`/`endif` of its block: an
/// `else` or `endif` there is passed, so execution continues on the line
/// after it (the first line of the `else` body), and an `elseif` there has
/// its own condition asked next. A false `while` continues after its
/// `endwhile`. None of this spends budget or touches the call stack.
pub proof fn law_branch_targets(lines: Seq<Vec<char>>, bd: bool, m: Model, b: (BranchKind, Seq<char>, nat, nat), nonzero: bool)
    ensures
        nonzero ==> decide_spec(lines, bd, m, b, nonzero) == Ok::<_, (nat, Seq<char>)>((None::<(Seq<char>, (BranchKind, Seq<char>, nat, nat))>, Model { pc: b.3 + 1, ..m })),
        !nonzero && b.0 != BranchKind::While ==> match find_plain(lines, bd, b.3 + 1, b.1, Target::Branch) {
            None => decide_spec(lines, bd, m, b, nonzero) is Err,
            Some(x) => {
                let p = o_line(lines, bd, x as int)->Some_0;
                &&& o_line(lines, bd, x as int) is Some
                &&& p.0 == b.1
                &&& (keyword_spec(p.1) == Keyword::Else || keyword_spec(p.1) == Keyword::EndIf) ==>
                    decide_spec(lines, bd, m, b, nonzero) == Ok::<_, (nat, Seq<char>)>((None::<(Seq<char>, (BranchKind, Seq<char>, nat, nat))>, Model { pc: x + 1, ..m }))
                &&& keyword_spec(p.1) == Keyword::ElseIf ==>
                    decide_spec(lines, bd, m, b, nonzero) == Ok::<_, (nat, Seq<char>)>((Some((p.2, (BranchKind::ElseIf, b.1, b.2, x))), m))
            },
        },
        !nonzero && b.0 == BranchKind::While ==> match find_plain(lines, bd, b.3 + 1, b.1, Target::EndWhile) {
            None => decide_spec(lines, bd, m, b, nonzero) is Err,
            Some(x) => decide_spec(lines, bd, m, b, nonzero) == Ok::<_, (nat, Seq<char>)>((None::<(Seq<char>, (BranchKind, Seq<char>, nat, nat))>, Model { pc: x + 1, ..m })),
        },
        decide_spec(lines, bd, m, b, nonzero) matches Ok(r) ==> r.1.budget == m.budget && r.1.calls == m.calls && r.1.repeats == m.repeats,
{
    lemma_find_plain_range(lines, bd, b.3 + 1, b.1, Target::Branch);
}

} // verus!

verus! {

/// What the executor does at a line (one unit of budget spent on it).
/// Skipped lines are passed over; an assignment or a line of words is
/// handed out with its 1-based line number and execution moves to the next
/// line. Of the O-words: a `sub` definition is jumped over to the line
/// after its `endsub`; `if` and `while` ask for their condition; `call`
/// asks for its arguments when the subroutine exists, and fails naming it
/// otherwise; an `else`/`elseif` reached from a taken branch goes past the
/// `endif`; `endif` is passed; `return`/`endsub` outside a subroutine
/// fails; `repeat` asks for its count unless its own loop is coming round;
/// an unknown keyword fails.
pub proof fn law_line_effects(lines: Seq<Vec<char>>, bd: bool, subs: Map<Seq<char>, (nat, nat)>, m: Model)
    requires
        m.pc < lines.len(),
        m.budget >= 1,
    ensures
        ({
            let next = Model { pc: m.pc + 1, budget: (m.budget - 1) as nat, ..m };
            let spent = Model { budget: (m.budget - 1) as nat, ..m };
            let line = m.pc + 1;
            let r = run_spec(lines, bd, subs, m);
            match effective_spec(lines[m.pc as int]@, bd) {
                None => r == run_spec(lines, bd, subs, next),
                Some(t) => match o_parts_spec(t) {
                    None => if t[0] == '#' {
                        r == (StepView::Assign(line, t), next)
                    } else {
                        r == (StepView::Words(line, t), next)
                    },
                    Some(p) => {
                        let id = p.0;
                        let k = keyword_spec(p.1);
                        &&& k == Keyword::Sub && subs.contains_key(id) ==> r == run_spec(lines, bd, subs, Model { pc: subs[id].1 + 1, ..spent })
                        &&& k == Keyword::If ==> r == (StepView::Condition(line, p.2, (BranchKind::If, id, line, m.pc)), spent)
                        &&& k == Keyword::While ==> r == (StepView::Condition(line, p.2, (BranchKind::While, id, line, m.pc)), spent)
                        &&& k == Keyword::Call && subs.contains_key(id) ==> r == (StepView::Call(line, p.2, (line, subs[id].0, m.pc)), spent)
                        &&& k == Keyword::Call && !subs.contains_key(id) ==> r.0 == StepView::Fail(line, "call to unknown sub o"@ + id)
                        &&& (k == Keyword::Else || k == Keyword::ElseIf) ==> match find_plain(lines, bd, m.pc + 1, id, Target::EndIf) {
                            Some(at) => r == run_spec(lines, bd, subs, Model { pc: at + 1, ..spent }),
                            None => r.0 == StepView::Fail(line, "o"@ + id + " without endif"@),
                        }
                        &&& k == Keyword::EndIf ==> r == run_spec(lines, bd, subs, next)
                        &&& (k == Keyword::Return || k == Keyword::EndSub) && m.calls.len() == 0 ==> r.0 == StepView::Fail(line, "return outside a subroutine"@)
                        &&& (k == Keyword::Return || k == Keyword::EndSub) && m.calls.len() > 0 ==> r == (StepView::Return, Model { pc: m.calls.last(), calls: m.calls.drop_last(), ..spent })
                        &&& k == Keyword::Repeat && !(m.repeats.len() > 0 && m.repeats.last().0 == id && m.repeats.last().1 == m.pc) ==> r == (StepView::Count(line, p.2, (id, line, m.pc)), spent)
                        &&& k == Keyword::Repeat && m.repeats.len() > 0 && m.repeats.last().0 == id && m.repeats.last().1 == m.pc ==> r == run_spec(lines, bd, subs, next)
                        &&& k == Keyword::EndRepeat && m.repeats.len() == 0 ==> r.0 == StepView::Fail(line, "endrepeat without repeat"@)
                        &&& k == Keyword::EndRepeat && m.repeats.len() > 0 && m.repeats.last().0 != id ==> r.0 == StepView::Fail(line, "endrepeat o"@ + id + " does not match o"@ + m.repeats.last().0)
                        &&& k == Keyword::Other ==> r.0 == StepView::Fail(line, "unsupported O-word \""@ + p.1 + "\""@)
                    },
                },
            }
        }),
{
}

/// The program ends after its last line, and a program that has spent
/// its budget stops with the budget error at the line it reached.
pub proof fn law_end_and_budget(lines: Seq<Vec<char>>, bd: bool, subs: Map<Seq<char>, (nat, nat)>, m: Model)
    ensures
        m.pc >= lines.len() ==> run_spec(lines, bd, subs, m) == (StepView::Done, m),
        m.pc < lines.len() && m.budget == 0 ==> run_spec(lines, bd, subs, m) == (StepView::Fail(m.pc + 1, "execution budget exceeded — endless loop?"@), m),
{
}

/// A repeat count of one or more enters the body with a new repeat frame
/// holding the count; a smaller count skips past the matching `endrepeat`.
/// Entering a call remembers the line after it and continues after the
/// `sub` line, unless the calls are already 64 deep.
pub proof fn law_counts_and_calls(lines: Seq<Vec<char>>, bd: bool, m: Model, r: (Seq<char>, nat, nat), n: int, c: (nat, nat, nat))
    ensures
        n >= 1 ==> repeat_spec(lines, bd, m, r, n) == Ok::<Model, (nat, Seq<char>)>(Model { pc: r.2 + 1, repeats: m.repeats.push((r.0, r.2, n)), ..m }),
        n < 1 ==> match find_plain(lines, bd, r.2 + 1, r.0, Target::EndRepeat) {
            Some(x) => repeat_spec(lines, bd, m, r, n) == Ok::<Model, (nat, Seq<char>)>(Model { pc: x + 1, ..m }),
            None => repeat_spec(lines, bd, m, r, n) == Err::<Model, (nat, Seq<char>)>((r.1, "o"@ + r.0 + " repeat without endrepeat"@)),
        },
        m.calls.len() < 64 ==> call_spec(m, c) == Ok::<Model, (nat, Seq<char>)>(Model { pc: c.1 + 1, calls: m.calls.push(c.2 + 1), ..m }),
        m.calls.len() >= 64 ==> call_spec(m, c) == Err::<Model, (nat, Seq<char>)>((c.0, "subroutine call depth exceeded"@)),
{
}

} // verus!

verus! {

/// The subroutine table of a program: each entry of id `id` is a `sub` line
/// of that id and a later `endsub` line of that id, and every `sub` line
/// has an entry (the last definition of an id wins). A `sub` with no
/// `endsub` is refused at its own line.
pub proof fn law_subroutine_table(lines: Seq<Vec<char>>, bd: bool, n: nat, id: Seq<char>)
    requires
        n <= lines.len(),
    ensures
        scan_spec(lines, bd, n) matches Ok(m) ==> (m.contains_key(id) ==> {
            let (a, e) = m[id];
            &&& a < e < lines.len()
            &&& a < n
            &&& (o_line(lines, bd, a as int) matches Some(p) && p.0 == id && keyword_spec(p.1) == Keyword::Sub)
            &&& (o_line(lines, bd, e as int) matches Some(q) && q.0 == id && keyword_spec(q.1) == Keyword::EndSub)
        }),
        scan_spec(lines, bd, n) matches Ok(m) ==> forall|j: int| 0 <= j < n && #[trigger] o_line(lines, bd, j) is Some
            && keyword_spec(o_line(lines, bd, j)->Some_0.1) == Keyword::Sub ==> m.contains_key(o_line(lines, bd, j)->Some_0.0),
        scan_spec(lines, bd, n) matches Err(e) ==> 1 <= e.0 <= n && (o_line(lines, bd, e.0 - 1) matches Some(p) && keyword_spec(p.1) == Keyword::Sub
            && e.1 == "o"@ + p.0 + " sub without endsub"@),
    decreases n,
{
    if n > 0 {
        law_subroutine_table(lines, bd, (n - 1) as nat, id);
        let i = (n - 1) as nat;
        match o_line(lines, bd, i as int) {
            Some(p) => {
                crate::gcode::lemma_find_skipping_range(lines, bd, i + 1, p.0, Target::EndSub);
            },
            None => {},
        }
    }
}

} // verus!
