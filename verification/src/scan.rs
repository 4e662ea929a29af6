//! Digitizing: the rules of the scan session (one open at a time, held
//! while a grid scan probes into it) and the plan of the G-code that
//! reproduces a scanned part (contour or raster). Coordinates are written
//! out by the caller; this module decides which moves the program makes and
//! in what order.

use std::sync::atomic::{AtomicBool, AtomicUsize};
use vstd::prelude::*;
use vstd::string::StringExecFns;
use crate::text::{chars_of, debug_str, str_debug, string_of, trim, trim_chars};

verus! {

#[derive(Debug, Clone, Copy, PartialEq, Eq, Structural)]
pub enum ScanMode {
    /// Operator-driven: jog to the surface, capture point by point.
    Manual,
    /// Probe-driven raster over a region with adaptive refinement.
    Grid,
}

/// Progress of a running grid scan, shared with the telemetry stream.
#[derive(Default)]
pub struct JobProgress {
    pub active: AtomicBool,
    pub done: AtomicUsize,
    pub total: AtomicUsize,
    pub cancel: AtomicBool,
}

/// One line of a reproduction program; indices are into the scan's points.
#[derive(Debug, Clone, Copy, PartialEq, Eq, Structural)]
pub enum ExportLine {
    /// `(Helix digitize - <name> - <n> points)`
    Header,
    /// `G21 G90 G17`
    Setup,
    /// `G0 Z<safe>`
    SafeZ,
    /// `G0 X Y` of a point.
    Rapid(usize),
    /// `G1 Z F<feed>` down to a point.
    Plunge(usize),
    /// `G1 X Y Z` to a point.
    Feed(usize),
    /// `G1 X Z` to a point along a raster row.
    FeedXZ(usize),
    /// `M2`
    End,
}

/// How a scan is exported.
#[derive(Debug, Clone, Copy, PartialEq, Eq, Structural)]
pub enum ExportMode {
    /// Replays the trace as one polyline.
    Contour,
    /// Mills the captured rows serpentine (grid scans only).
    Raster,
}

pub open spec fn export_mode_spec(mode: Seq<char>) -> Option<ExportMode> {
    if mode == "contour"@ {
        Some(ExportMode::Contour)
    } else if mode == "raster"@ {
        Some(ExportMode::Raster)
    } else {
        None
    }
}

pub open spec fn sum(rows: Seq<usize>) -> nat
    decreases rows.len(),
{
    if rows.len() == 0 {
        0
    } else {
        sum(rows.drop_last()) + rows.last() as nat
    }
}

/// Contour: rapid over the first point, plunge, then feed through the rest.
pub open spec fn contour_lines(kept: Seq<usize>) -> Seq<ExportLine> {
    seq![ExportLine::Rapid(kept[0]), ExportLine::Plunge(kept[0])] + kept.drop_first().map_values(|i: usize| ExportLine::Feed(i))
}

/// The moves of one raster row of `len` points starting at point `start`.
pub open spec fn row_lines(start: nat, len: nat) -> Seq<ExportLine> {
    if len == 0 {
        Seq::empty()
    } else {
        seq![ExportLine::SafeZ, ExportLine::Rapid(start as usize), ExportLine::Plunge(start as usize)]
            + Seq::new((len - 1) as nat, |k: int| ExportLine::FeedXZ((start + 1 + k) as usize))
    }
}

/// The rows in order; row `k` starts after the points of the rows before it.
pub open spec fn raster_lines(rows: Seq<usize>) -> Seq<ExportLine>
    decreases rows.len(),
{
    if rows.len() == 0 {
        Seq::empty()
    } else {
        raster_lines(rows.drop_last()) + row_lines(sum(rows.drop_last()), rows.last() as nat)
    }
}

/// The lines of the reproduction program, or why there is none.
pub open spec fn export_spec(n_points: nat, mode: Seq<char>, scan_mode: ScanMode, rows: Seq<usize>, kept: Seq<usize>) -> Result<Seq<ExportLine>, Seq<char>> {
    if n_points == 0 {
        Err("scan has no points"@)
    } else {
        let head = seq![ExportLine::Header, ExportLine::Setup, ExportLine::SafeZ];
        let tail = seq![ExportLine::SafeZ, ExportLine::End];
        match export_mode_spec(mode) {
            Some(ExportMode::Contour) => Ok(head + contour_lines(kept) + tail),
            Some(ExportMode::Raster) => if scan_mode != ScanMode::Grid || rows.len() == 0 {
                Err("raster export needs a grid scan"@)
            } else {
                Ok(head + raster_lines(rows) + tail)
            },
            None => Err("unknown export mode "@ + str_debug(mode)),
        }
    }
}

proof fn lemma_sum_prefix(rows: Seq<usize>, i: int)
    requires
        0 <= i < rows.len(),
    ensures
        sum(rows.take(i + 1)) == sum(rows.take(i)) + rows[i],
{
    assert(rows.take(i + 1).drop_last() =~= rows.take(i));
}

proof fn lemma_sum_grows(rows: Seq<usize>, i: int)
    requires
        0 <= i <= rows.len(),
    ensures
        sum(rows.take(i)) <= sum(rows),
    decreases rows.len() - i,
{
    if i < rows.len() {
        lemma_sum_grows(rows, i + 1);
        lemma_sum_prefix(rows, i);
    } else {
        assert(rows.take(i) =~= rows);
    }
}

/// Plan the program that reproduces a scan of `n_points` points: `kept`
/// are the points of the trace without repeats (for contours), `rows` the
/// row lengths of a grid scan.
pub fn export_plan(n_points: usize, mode: &str, scan_mode: ScanMode, rows: &Vec<usize>, kept: &Vec<usize>) -> (r: Result<Vec<ExportLine>, String>)
    requires
        n_points > 0 && export_mode_spec(mode@) == Some(ExportMode::Contour) ==> kept@.len() > 0,
        n_points > 0 && export_mode_spec(mode@) == Some(ExportMode::Raster) && scan_mode == ScanMode::Grid ==> sum(rows@) <= n_points,
    ensures
        match (r, export_spec(n_points as nat, mode@, scan_mode, rows@, kept@)) {
            (Ok(v), Ok(w)) => v@ == w,
            (Err(e), Err(f)) => e@ == f,
            _ => false,
        },
{
    if n_points == 0 {
        return Err(String::from_str("scan has no points"));
    }
    let m = chars_of(mode);
    proof {
        reveal_strlit("contour");
        reveal_strlit("raster");
    }
    let is_contour = crate::text::chars_eq(&m, &['c', 'o', 'n', 't', 'o', 'u', 'r']);
    let is_raster = crate::text::chars_eq(&m, &['r', 'a', 's', 't', 'e', 'r']);
    proof {
        if mode@ == "contour"@ {
            assert(m@ =~= seq!['c', 'o', 'n', 't', 'o', 'u', 'r']);
        }
        if mode@ == "raster"@ {
            assert(m@ =~= seq!['r', 'a', 's', 't', 'e', 'r']);
        }
        if is_contour {
            assert(mode@ =~= "contour"@);
        }
        if is_raster {
            assert(mode@ =~= "raster"@);
        }
    }
    if !is_contour && !is_raster {
        let mut msg = String::from_str("unknown export mode ");
        let d = debug_str(mode);
        msg.append(d.as_str());
        return Err(msg);
    }
    if is_raster && (scan_mode != ScanMode::Grid || rows.len() == 0) {
        return Err(String::from_str("raster export needs a grid scan"));
    }
    let mut out: Vec<ExportLine> = Vec::new();
    out.push(ExportLine::Header);
    out.push(ExportLine::Setup);
    out.push(ExportLine::SafeZ);
    let ghost head = out@;
    assert(head =~= seq![ExportLine::Header, ExportLine::Setup, ExportLine::SafeZ]);
    if is_contour {
        out.push(ExportLine::Rapid(kept[0]));
        out.push(ExportLine::Plunge(kept[0]));
        let mut k: usize = 1;
        while k < kept.len()
            invariant
                1 <= k <= kept.len(),
                out@ == head + seq![ExportLine::Rapid(kept@[0]), ExportLine::Plunge(kept@[0])]
                    + kept@.drop_first().take(k - 1).map_values(|i: usize| ExportLine::Feed(i)),
            decreases kept.len() - k,
        {
            out.push(ExportLine::Feed(kept[k]));
            assert(kept@.drop_first().take(k as int) =~= kept@.drop_first().take(k - 1).push(kept@[k as int]));
            k = k + 1;
        }
        assert(kept@.drop_first().take(k - 1) =~= kept@.drop_first());
        assert(out@ =~= head + contour_lines(kept@));
    } else {
        let mut idx: usize = 0;
        let mut j: usize = 0;
        proof {
            assert(rows@.take(0) =~= Seq::<usize>::empty());
            assert(raster_lines(rows@.take(0)) =~= Seq::<ExportLine>::empty());
        }
        while j < rows.len()
            invariant
                j <= rows.len(),
                sum(rows@) <= n_points,
                idx == sum(rows@.take(j as int)),
                out@ == head + raster_lines(rows@.take(j as int)),
            decreases rows.len() - j,
        {
            proof {
                lemma_sum_prefix(rows@, j as int);
                lemma_sum_grows(rows@, (j + 1) as int);
                assert(rows@.take(j + 1).drop_last() =~= rows@.take(j as int));
            }
            let len = rows[j];
            let ghost before = out@;
            if len > 0 {
                out.push(ExportLine::SafeZ);
                out.push(ExportLine::Rapid(idx));
                out.push(ExportLine::Plunge(idx));
                let mut q: usize = 1;
                while q < len
                    invariant
                        1 <= q <= len,
                        idx + len <= n_points,
                        out@ == before + seq![ExportLine::SafeZ, ExportLine::Rapid(idx), ExportLine::Plunge(idx)]
                            + Seq::new((q - 1) as nat, |k: int| ExportLine::FeedXZ((idx + 1 + k) as usize)),
                    decreases len - q,
                {
                    out.push(ExportLine::FeedXZ(idx + q));
                    assert(Seq::new(q as nat, |k: int| ExportLine::FeedXZ((idx + 1 + k) as usize)) =~= Seq::new((q - 1) as nat, |k: int| ExportLine::FeedXZ((idx + 1 + k) as usize)).push(ExportLine::FeedXZ((idx + q) as usize)));
                    q = q + 1;
                }
            }
            assert(out@ =~= before + row_lines(idx as nat, len as nat));
            idx = idx + len;
            j = j + 1;
        }
        assert(rows@.take(j as int) =~= rows@);
    }
    out.push(ExportLine::SafeZ);
    out.push(ExportLine::End);
    Ok(out)
}

/// The name of a new scan session: the request trimmed; refused when
/// empty or holding a path separator.
pub open spec fn scan_name_spec(raw: Seq<char>) -> Option<Seq<char>> {
    let t = trim(raw);
    if t.len() == 0 || t.contains('/') || t.contains('\\') {
        None
    } else {
        Some(t)
    }
}

pub fn scan_name(raw: &str) -> (r: Result<String, String>)
    ensures
        match (r, scan_name_spec(raw@)) {
            (Ok(n), Some(m)) => n@ == m,
            (Err(e), None) => e@ == "bad scan name"@,
            _ => false,
        },
{
    let c = chars_of(raw);
    let t = trim_chars(&c);
    let mut k: usize = 0;
    while k < t.len()
        invariant
            k <= t.len(),
            t@ == trim(raw@),
            forall|j: int| 0 <= j < k ==> t@[j] != '/' && t@[j] != '\\',
        decreases t.len() - k,
    {
        if t[k] == '/' || t[k] == '\\' {
            assert(t@.contains('/') || t@.contains('\\')) by {
                if t@[k as int] == '/' {
                    assert(t@.contains('/'));
                } else {
                    assert(t@.contains('\\'));
                }
            }
            return Err(String::from_str("bad scan name"));
        }
        k = k + 1;
    }
    if t.len() == 0 {
        return Err(String::from_str("bad scan name"));
    }
    Ok(string_of(&t))
}

} // verus!

verus! {

// ── laws of the export plan ───────────────────────────────────────────────

/// The point a line of the program cuts at; rapids and setup lines cut
/// nothing.
pub open spec fn cut_point(l: ExportLine) -> Option<usize> {
    match l {
        ExportLine::Plunge(i) => Some(i),
        ExportLine::Feed(i) => Some(i),
        ExportLine::FeedXZ(i) => Some(i),
        _ => None,
    }
}

/// The points a program cuts at, in order.
pub open spec fn cut_points(lines: Seq<ExportLine>) -> Seq<usize>
    decreases lines.len(),
{
    if lines.len() == 0 {
        Seq::empty()
    } else {
        match cut_point(lines.last()) {
            Some(i) => cut_points(lines.drop_last()).push(i),
            None => cut_points(lines.drop_last()),
        }
    }
}

proof fn lemma_cut_points_concat(a: Seq<ExportLine>, b: Seq<ExportLine>)
    ensures
        cut_points(a + b) == cut_points(a) + cut_points(b),
    decreases b.len(),
{
    if b.len() == 0 {
        assert(a + b =~= a);
        assert(cut_points(a) + cut_points(b) =~= cut_points(a));
    } else {
        lemma_cut_points_concat(a, b.drop_last());
        assert((a + b).drop_last() =~= a + b.drop_last());
        assert((a + b).last() == b.last());
        match cut_point(b.last()) {
            Some(i) => {
                assert(cut_points(a) + cut_points(b) =~= (cut_points(a) + cut_points(b.drop_last())).push(i));
            },
            None => {},
        }
    }
}

proof fn lemma_cut_points_feeds(start: nat, n: nat)
    ensures
        cut_points(Seq::new(n, |k: int| ExportLine::FeedXZ((start + k) as usize))) == Seq::new(n, |k: int| (start + k) as usize),
    decreases n,
{
    let s = Seq::new(n, |k: int| ExportLine::FeedXZ((start + k) as usize));
    if n > 0 {
        lemma_cut_points_feeds(start, (n - 1) as nat);
        assert(s.drop_last() =~= Seq::new((n - 1) as nat, |k: int| ExportLine::FeedXZ((start + k) as usize)));
        assert(Seq::new(n, |k: int| (start + k) as usize) =~= Seq::new((n - 1) as nat, |k: int| (start + k) as usize).push((start + n - 1) as usize));
    } else {
        assert(Seq::new(n, |k: int| (start + k) as usize) =~= Seq::<usize>::empty());
    }
}

proof fn lemma_cut_points_feed_map(kept: Seq<usize>)
    ensures
        cut_points(kept.map_values(|i: usize| ExportLine::Feed(i))) == kept,
    decreases kept.len(),
{
    let s = kept.map_values(|i: usize| ExportLine::Feed(i));
    if kept.len() > 0 {
        lemma_cut_points_feed_map(kept.drop_last());
        assert(s.drop_last() =~= kept.drop_last().map_values(|i: usize| ExportLine::Feed(i)));
        assert(kept =~= kept.drop_last().push(kept.last()));
    } else {
        assert(kept =~= Seq::<usize>::empty());
    }
}

proof fn lemma_row_cuts(start: nat, len: nat)
    ensures
        cut_points(row_lines(start, len)) == Seq::new(len, |k: int| (start + k) as usize),
{
    if len > 0 {
        let head = seq![ExportLine::SafeZ, ExportLine::Rapid(start as usize), ExportLine::Plunge(start as usize)];
        let feeds = Seq::new((len - 1) as nat, |k: int| ExportLine::FeedXZ((start + 1 + k) as usize));
        lemma_cut_points_concat(head, feeds);
        assert(feeds =~= Seq::new((len - 1) as nat, |k: int| ExportLine::FeedXZ(((start + 1) + k) as usize)));
        lemma_cut_points_feeds(start + 1, (len - 1) as nat);
        assert(cut_points(head) =~= seq![start as usize]) by {
            reveal_with_fuel(cut_points, 4);
            assert(head.drop_last() =~= seq![ExportLine::SafeZ, ExportLine::Rapid(start as usize)]);
            assert(head.drop_last().drop_last() =~= seq![ExportLine::SafeZ]);
            assert(head.drop_last().drop_last().drop_last() =~= Seq::<ExportLine>::empty());
        }
        assert(seq![start as usize] + Seq::new((len - 1) as nat, |k: int| ((start + 1) + k) as usize) =~= Seq::new(len, |k: int| (start + k) as usize));
    } else {
        assert(Seq::new(len, |k: int| (start + k) as usize) =~= Seq::<usize>::empty());
    }
}

proof fn lemma_raster_cuts(rows: Seq<usize>)
    ensures
        cut_points(raster_lines(rows)) == Seq::new(sum(rows), |k: int| k as usize),
    decreases rows.len(),
{
    if rows.len() == 0 {
        assert(Seq::new(sum(rows), |k: int| k as usize) =~= Seq::<usize>::empty());
    } else {
        let before = rows.drop_last();
        lemma_raster_cuts(before);
        lemma_cut_points_concat(raster_lines(before), row_lines(sum(before), rows.last() as nat));
        lemma_row_cuts(sum(before), rows.last() as nat);
        assert(Seq::new(sum(before), |k: int| k as usize) + Seq::new(rows.last() as nat, |k: int| (sum(before) + k) as usize)
            =~= Seq::new(sum(rows), |k: int| k as usize));
    }
}

/// The reproduction program cuts at the scan's points in capture order: a
/// contour at every kept point of the trace, a raster at every point of
/// every row, each exactly once.
pub proof fn law_export_cuts_every_point_in_order(n_points: nat, mode: Seq<char>, scan_mode: ScanMode, rows: Seq<usize>, kept: Seq<usize>)
    requires
        export_spec(n_points, mode, scan_mode, rows, kept) is Ok,
        export_mode_spec(mode) == Some(ExportMode::Contour) ==> kept.len() > 0,
    ensures
        export_mode_spec(mode) == Some(ExportMode::Contour) ==> cut_points(export_spec(n_points, mode, scan_mode, rows, kept)->Ok_0) == kept,
        export_mode_spec(mode) == Some(ExportMode::Raster) ==> cut_points(export_spec(n_points, mode, scan_mode, rows, kept)->Ok_0) == Seq::new(sum(rows), |k: int| k as usize),
{
    let head = seq![ExportLine::Header, ExportLine::Setup, ExportLine::SafeZ];
    let tail = seq![ExportLine::SafeZ, ExportLine::End];
    assert(cut_points(head) =~= Seq::<usize>::empty()) by {
        reveal_with_fuel(cut_points, 4);
        assert(head.drop_last() =~= seq![ExportLine::Header, ExportLine::Setup]);
        assert(head.drop_last().drop_last() =~= seq![ExportLine::Header]);
        assert(head.drop_last().drop_last().drop_last() =~= Seq::<ExportLine>::empty());
    }
    assert(cut_points(tail) =~= Seq::<usize>::empty()) by {
        reveal_with_fuel(cut_points, 3);
        assert(tail.drop_last() =~= seq![ExportLine::SafeZ]);
        assert(tail.drop_last().drop_last() =~= Seq::<ExportLine>::empty());
    }
    match export_mode_spec(mode) {
        Some(ExportMode::Contour) => {
            let first = seq![ExportLine::Rapid(kept[0]), ExportLine::Plunge(kept[0])];
            let rest = kept.drop_first().map_values(|i: usize| ExportLine::Feed(i));
            lemma_cut_points_concat(head, first + rest);
            lemma_cut_points_concat(first, rest);
            lemma_cut_points_concat(head + (first + rest), tail);
            lemma_cut_points_feed_map(kept.drop_first());
            assert(cut_points(first) =~= seq![kept[0]]) by {
                reveal_with_fuel(cut_points, 3);
                assert(first.drop_last() =~= seq![ExportLine::Rapid(kept[0])]);
                assert(first.drop_last().drop_last() =~= Seq::<ExportLine>::empty());
            }
            assert(head + contour_lines(kept) + tail =~= head + (first + rest) + tail);
            assert(seq![kept[0]] + kept.drop_first() =~= kept);
            assert(Seq::<usize>::empty() + (seq![kept[0]] + kept.drop_first()) + Seq::<usize>::empty() =~= kept);
        },
        Some(ExportMode::Raster) => {
            lemma_cut_points_concat(head, raster_lines(rows));
            lemma_cut_points_concat(head + raster_lines(rows), tail);
            lemma_raster_cuts(rows);
            assert(Seq::<usize>::empty() + Seq::new(sum(rows), |k: int| k as usize) + Seq::<usize>::empty() =~= Seq::new(sum(rows), |k: int| k as usize));
        },
        None => {},
    }
}

} // verus!

verus! {

// ── the scan session ──────────────────────────────────────────────────────

/// What the digitizing requests depend on: whether a session is open, how
/// many points it holds, and whether a grid scan is probing into it.
#[derive(Debug, Clone, Copy, PartialEq, Eq, Structural)]
pub struct SessionState {
    pub open: bool,
    pub points: usize,
    pub grid_running: bool,
}

/// A request on the scan session.
#[derive(Debug, Clone, Copy, PartialEq, Eq, Structural)]
pub enum SessionRequest {
    /// Open a new (manual) session.
    Open,
    /// Capture the current position; false when it did not move since the
    /// last capture.
    Capture(bool),
    /// Drop the last captured point.
    Undo,
    /// Close the session and keep it.
    Finish,
    /// Close the session and throw it away.
    Discard,
    /// Start probing a grid into the session.
    StartGrid,
}

/// Why a session request is refused.
#[derive(Debug, Clone, Copy, PartialEq, Eq, Structural)]
pub enum SessionRefusal {
    AlreadyOpen,
    NoSession,
    GridRunning,
    GridAlreadyRunning,
    NoPoints,
}

pub open spec fn refusal_text(r: SessionRefusal) -> Seq<char> {
    match r {
        SessionRefusal::AlreadyOpen => "a scan session is already open"@,
        SessionRefusal::NoSession => "no open scan session"@,
        SessionRefusal::GridRunning => "grid scan still running"@,
        SessionRefusal::GridAlreadyRunning => "a grid scan is already running"@,
        SessionRefusal::NoPoints => "scan has no points"@,
    }
}

impl SessionRefusal {
    /// The reason shown to the operator.
    pub fn message(self) -> (r: &'static str)
        ensures
            r@ == refusal_text(self),
    {
        match self {
            SessionRefusal::AlreadyOpen => "a scan session is already open",
            SessionRefusal::NoSession => "no open scan session",
            SessionRefusal::GridRunning => "grid scan still running",
            SessionRefusal::GridAlreadyRunning => "a grid scan is already running",
            SessionRefusal::NoPoints => "scan has no points",
        }
    }

    /// A conflict with the session's state; the one other refusal is a
    /// session that cannot be kept because it is empty.
    pub fn is_conflict(self) -> (r: bool)
        ensures
            r == (self != SessionRefusal::NoPoints),
    {
        !matches!(self, SessionRefusal::NoPoints)
    }
}

/// The session after a request, and whether the request is refused. A
/// refused request changes nothing, except finishing an empty session,
/// which closes it without keeping it.
pub open spec fn session_spec(s: SessionState, req: SessionRequest) -> (SessionState, Option<SessionRefusal>) {
    match req {
        SessionRequest::Open => if s.open {
            (s, Some(SessionRefusal::AlreadyOpen))
        } else {
            (SessionState { open: true, points: 0, ..s }, None)
        },
        SessionRequest::Capture(moved) => if !s.open {
            (s, Some(SessionRefusal::NoSession))
        } else if moved && s.points < usize::MAX {
            (SessionState { points: (s.points + 1) as usize, ..s }, None)
        } else {
            (s, None)
        },
        SessionRequest::Undo => if !s.open {
            (s, Some(SessionRefusal::NoSession))
        } else {
            (SessionState { points: if s.points > 0 { (s.points - 1) as usize } else { 0 }, ..s }, None)
        },
        SessionRequest::Finish => if s.grid_running {
            (s, Some(SessionRefusal::GridRunning))
        } else if !s.open {
            (s, Some(SessionRefusal::NoSession))
        } else if s.points == 0 {
            (SessionState { open: false, ..s }, Some(SessionRefusal::NoPoints))
        } else {
            (SessionState { open: false, points: 0, ..s }, None)
        },
        SessionRequest::Discard => if s.grid_running {
            (s, Some(SessionRefusal::GridRunning))
        } else {
            (SessionState { open: false, points: 0, ..s }, None)
        },
        SessionRequest::StartGrid => if !s.open {
            (s, Some(SessionRefusal::NoSession))
        } else if s.grid_running {
            (s, Some(SessionRefusal::GridAlreadyRunning))
        } else {
            (SessionState { grid_running: true, ..s }, None)
        },
    }
}

/// Decide a session request: the session after it, and the refusal, if
/// any.
pub fn session_step(s: SessionState, req: SessionRequest) -> (r: (SessionState, Option<SessionRefusal>))
    ensures
        r == session_spec(s, req),
{
    match req {
        SessionRequest::Open => if s.open {
            (s, Some(SessionRefusal::AlreadyOpen))
        } else {
            (SessionState { open: true, points: 0, ..s }, None)
        },
        SessionRequest::Capture(moved) => if !s.open {
            (s, Some(SessionRefusal::NoSession))
        } else if moved && s.points < usize::MAX {
            (SessionState { points: s.points + 1, ..s }, None)
        } else {
            (s, None)
        },
        SessionRequest::Undo => if !s.open {
            (s, Some(SessionRefusal::NoSession))
        } else {
            (SessionState { points: if s.points > 0 { s.points - 1 } else { 0 }, ..s }, None)
        },
        SessionRequest::Finish => if s.grid_running {
            (s, Some(SessionRefusal::GridRunning))
        } else if !s.open {
            (s, Some(SessionRefusal::NoSession))
        } else if s.points == 0 {
            (SessionState { open: false, ..s }, Some(SessionRefusal::NoPoints))
        } else {
            (SessionState { open: false, points: 0, ..s }, None)
        },
        SessionRequest::Discard => if s.grid_running {
            (s, Some(SessionRefusal::GridRunning))
        } else {
            (SessionState { open: false, points: 0, ..s }, None)
        },
        SessionRequest::StartGrid => if !s.open {
            (s, Some(SessionRefusal::NoSession))
        } else if s.grid_running {
            (s, Some(SessionRefusal::GridAlreadyRunning))
        } else {
            (SessionState { grid_running: true, ..s }, None)
        },
    }
}

/// One session at a time: opening succeeds exactly when none is open.
pub proof fn law_one_session_at_a_time(s: SessionState)
    ensures
        session_spec(s, SessionRequest::Open).1 is None <==> !s.open,
        session_spec(s, SessionRequest::Open).0.open,
{
}

/// While a grid scan probes into the session it can be neither finished
/// nor discarded, and a second grid scan cannot start.
pub proof fn law_running_grid_holds_the_session(s: SessionState)
    requires
        s.grid_running,
    ensures
        session_spec(s, SessionRequest::Finish) == (s, Some(SessionRefusal::GridRunning)),
        session_spec(s, SessionRequest::Discard) == (s, Some(SessionRefusal::GridRunning)),
        session_spec(s, SessionRequest::StartGrid).1 is Some,
{
}

/// Finishing never leaves the session open (unless a grid scan holds it),
/// and keeps it only when it has points.
pub proof fn law_finish_closes(s: SessionState)
    requires
        !s.grid_running,
        s.open,
    ensures
        !session_spec(s, SessionRequest::Finish).0.open,
        session_spec(s, SessionRequest::Finish).1 is None <==> s.points > 0,
{
}

} // verus!

verus! {

/// When an export is refused, and the frame of every export: a scan with no
/// points has none; the mode is "contour" or "raster" (anything else is
/// refused, quoted); a raster needs a grid scan with rows. An accepted
/// program opens with the header, units/plane setup and a move to the safe
/// height, and closes with a move to the safe height and `M2`.
pub proof fn law_export_frame(n_points: nat, mode: Seq<char>, scan_mode: ScanMode, rows: Seq<usize>, kept: Seq<usize>)
    ensures
        export_mode_spec("contour"@) == Some(ExportMode::Contour),
        export_mode_spec("raster"@) == Some(ExportMode::Raster),
        export_mode_spec(mode) is Some ==> (mode == "contour"@ || mode == "raster"@),
        n_points == 0 ==> export_spec(n_points, mode, scan_mode, rows, kept) == Err::<Seq<ExportLine>, Seq<char>>("scan has no points"@),
        n_points > 0 && export_mode_spec(mode) is None ==> export_spec(n_points, mode, scan_mode, rows, kept) == Err::<Seq<ExportLine>, Seq<char>>("unknown export mode "@ + str_debug(mode)),
        n_points > 0 && mode == "raster"@ ==> (export_spec(n_points, mode, scan_mode, rows, kept) is Err <==> (scan_mode != ScanMode::Grid || rows.len() == 0)),
        n_points > 0 && mode == "contour"@ ==> export_spec(n_points, mode, scan_mode, rows, kept) is Ok,
        export_spec(n_points, mode, scan_mode, rows, kept) matches Ok(l) ==> (l.len() >= 5
            && l[0] == ExportLine::Header && l[1] == ExportLine::Setup && l[2] == ExportLine::SafeZ
            && l[l.len() - 2] == ExportLine::SafeZ && l[l.len() - 1] == ExportLine::End),
{
    reveal_strlit("contour");
    reveal_strlit("raster");
    assert("contour"@.len() != "raster"@.len());
}

/// Captures and undos: a capture that moved adds one point, one that did
/// not adds none; an undo removes the last point if there is one; both
/// need an open session and keep it open.
pub proof fn law_capture_and_undo(s: SessionState, moved: bool)
    requires
        s.points < usize::MAX,
    ensures
        s.open ==> session_spec(s, SessionRequest::Capture(moved)) == ((SessionState { points: (if moved { s.points + 1 } else { s.points as int }) as usize, ..s }), None::<SessionRefusal>),
        s.open ==> session_spec(s, SessionRequest::Undo) == ((SessionState { points: (if s.points > 0 { s.points - 1 } else { 0 }) as usize, ..s }), None::<SessionRefusal>),
        !s.open ==> session_spec(s, SessionRequest::Capture(moved)) == (s, Some(SessionRefusal::NoSession)),
        !s.open ==> session_spec(s, SessionRequest::Undo) == (s, Some(SessionRefusal::NoSession)),
        session_spec(s, SessionRequest::StartGrid).1 is None <==> (s.open && !s.grid_running),
        session_spec(s, SessionRequest::StartGrid).1 is None ==> session_spec(s, SessionRequest::StartGrid).0 == (SessionState { grid_running: true, ..s }),
        session_spec(s, SessionRequest::Open).1 is None ==> session_spec(s, SessionRequest::Open).0 == (SessionState { open: true, points: 0, ..s }),
        !s.grid_running ==> !session_spec(s, SessionRequest::Discard).0.open && session_spec(s, SessionRequest::Discard).1 is None,
{
}

/// A scan name is the request without surrounding whitespace; it is never
/// empty and never holds a path separator, and a name that is neither is
/// accepted.
pub proof fn law_scan_names(raw: Seq<char>)
    ensures
        scan_name_spec(raw) matches Some(n) ==> n == trim(raw) && n.len() > 0 && !n.contains('/') && !n.contains('\\'),
        (trim(raw).len() > 0 && !trim(raw).contains('/') && !trim(raw).contains('\\')) ==> scan_name_spec(raw) == Some(trim(raw)),
{
}

} // verus!

verus! {

/// Lines where every rapid to a point is followed by the plunge at it.
pub open spec fn rapids_then_plunge(l: Seq<ExportLine>) -> bool {
    forall|k: int| 0 <= k < l.len() ==> (#[trigger] l[k] matches ExportLine::Rapid(i) ==> k + 1 < l.len() && l[k + 1] == ExportLine::Plunge(i))
}

proof fn lemma_row_shape(start: nat, len: nat)
    ensures
        rapids_then_plunge(row_lines(start, len)),
        forall|k: int| 0 <= k < row_lines(start, len).len() ==> !(#[trigger] row_lines(start, len)[k] is Feed),
{
}

proof fn lemma_concat_shape(a: Seq<ExportLine>, b: Seq<ExportLine>)
    requires
        rapids_then_plunge(a),
        rapids_then_plunge(b),
        forall|k: int| 0 <= k < a.len() ==> !(#[trigger] a[k] is Feed),
        forall|k: int| 0 <= k < b.len() ==> !(#[trigger] b[k] is Feed),
    ensures
        rapids_then_plunge(a + b),
        forall|k: int| 0 <= k < (a + b).len() ==> !(#[trigger] (a + b)[k] is Feed),
{
    let c = a + b;
    assert forall|k: int| 0 <= k < c.len() implies (#[trigger] c[k] matches ExportLine::Rapid(i) ==> k + 1 < c.len() && c[k + 1] == ExportLine::Plunge(i)) by {
        if k < a.len() {
            assert(c[k] == a[k]);
            if k + 1 < a.len() {
                assert(c[k + 1] == a[k + 1]);
            }
        } else {
            assert(c[k] == b[k - a.len()]);
            if b[k - a.len()] is Rapid {
                assert(k + 1 - a.len() < b.len());
                assert(c[k + 1] == b[k + 1 - a.len()]);
            }
        }
    }
    assert forall|k: int| 0 <= k < c.len() implies !(#[trigger] c[k] is Feed) by {
        if k < a.len() {
            assert(c[k] == a[k]);
        } else {
            assert(c[k] == b[k - a.len()]);
        }
    }
}

proof fn lemma_raster_shape(rows: Seq<usize>)
    ensures
        rapids_then_plunge(raster_lines(rows)),
        forall|k: int| 0 <= k < raster_lines(rows).len() ==> !(#[trigger] raster_lines(rows)[k] is Feed),
    decreases rows.len(),
{
    if rows.len() > 0 {
        lemma_raster_shape(rows.drop_last());
        lemma_row_shape(sum(rows.drop_last()), rows.last() as nat);
        lemma_concat_shape(raster_lines(rows.drop_last()), row_lines(sum(rows.drop_last()), rows.last() as nat));
    }
}

/// The moves of the two export modes: a contour feeds through its points
/// in X, Y and Z and never makes a row move; a raster moves along rows in
/// X and Z only and never makes a contour move. In both, every rapid to a
/// point is followed by the plunge at that point.
pub proof fn law_export_moves(n_points: nat, mode: Seq<char>, scan_mode: ScanMode, rows: Seq<usize>, kept: Seq<usize>)
    requires
        export_spec(n_points, mode, scan_mode, rows, kept) is Ok,
        export_mode_spec(mode) == Some(ExportMode::Contour) ==> kept.len() > 0,
    ensures
        rapids_then_plunge(export_spec(n_points, mode, scan_mode, rows, kept)->Ok_0),
        export_mode_spec(mode) == Some(ExportMode::Contour) ==> forall|k: int| 0 <= k < export_spec(n_points, mode, scan_mode, rows, kept)->Ok_0.len()
            ==> !(#[trigger] export_spec(n_points, mode, scan_mode, rows, kept)->Ok_0[k] is FeedXZ),
        export_mode_spec(mode) == Some(ExportMode::Raster) ==> forall|k: int| 0 <= k < export_spec(n_points, mode, scan_mode, rows, kept)->Ok_0.len()
            ==> !(#[trigger] export_spec(n_points, mode, scan_mode, rows, kept)->Ok_0[k] is Feed),
{
    let head = seq![ExportLine::Header, ExportLine::Setup, ExportLine::SafeZ];
    let tail = seq![ExportLine::SafeZ, ExportLine::End];
    let l = export_spec(n_points, mode, scan_mode, rows, kept)->Ok_0;
    let body = if export_mode_spec(mode) == Some(ExportMode::Contour) { contour_lines(kept) } else { raster_lines(rows) };
    if export_mode_spec(mode) == Some(ExportMode::Raster) {
        lemma_raster_shape(rows);
    }
    assert(l == head + body + tail);
    assert forall|k: int| 0 <= k < l.len() implies (#[trigger] l[k] matches ExportLine::Rapid(i) ==> k + 1 < l.len() && l[k + 1] == ExportLine::Plunge(i)) by {
        if 3 <= k < 3 + body.len() {
            assert(l[k] == body[k - 3]);
            if k + 1 < 3 + body.len() {
                assert(l[k + 1] == body[k + 1 - 3]);
            }
            if export_mode_spec(mode) == Some(ExportMode::Contour) {
                if k - 3 >= 2 {
                    assert(body[k - 3] == ExportLine::Feed(kept.drop_first()[k - 5]));
                }
            }
        } else if k >= 3 + body.len() {
            assert(l[k] == tail[k - 3 - body.len()]);
        } else {
            assert(l[k] == head[k]);
        }
    }
    assert forall|k: int| 0 <= k < l.len() implies (export_mode_spec(mode) == Some(ExportMode::Contour) ==> !(#[trigger] l[k] is FeedXZ))
        && (export_mode_spec(mode) == Some(ExportMode::Raster) ==> !(l[k] is Feed)) by {
        if 3 <= k < 3 + body.len() {
            assert(l[k] == body[k - 3]);
            if export_mode_spec(mode) == Some(ExportMode::Contour) && k - 3 >= 2 {
                assert(body[k - 3] == ExportLine::Feed(kept.drop_first()[k - 5]));
            }
        } else if k >= 3 + body.len() {
            assert(l[k] == tail[k - 3 - body.len()]);
        } else {
            assert(l[k] == head[k]);
        }
    }
}

} // verus!
