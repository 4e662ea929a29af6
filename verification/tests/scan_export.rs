use helix::scan::{
    export_plan, scan_name, session_step, ExportLine, JobProgress, ScanMode, SessionRefusal, SessionRequest, SessionState,
};
use std::sync::atomic::Ordering;

use ExportLine::{End, Feed, FeedXZ, Header, Plunge, Rapid, SafeZ, Setup};

#[test]
fn contour_replays_the_kept_points() {
    // three points captured, the second a repeat of the first
    let plan = export_plan(3, "contour", ScanMode::Manual, &vec![], &vec![0, 2]).unwrap();
    assert_eq!(plan, vec![Header, Setup, SafeZ, Rapid(0), Plunge(0), Feed(2), SafeZ, End]);
    // exactly one feed move between points
    assert_eq!(plan.iter().filter(|l| matches!(l, Feed(_))).count(), 1);
}

#[test]
fn single_point_contour_only_plunges() {
    let plan = export_plan(1, "contour", ScanMode::Grid, &vec![1], &vec![0]).unwrap();
    assert_eq!(plan, vec![Header, Setup, SafeZ, Rapid(0), Plunge(0), SafeZ, End]);
}

#[test]
fn raster_follows_rows() {
    let plan = export_plan(4, "raster", ScanMode::Grid, &vec![2, 2], &vec![0, 1, 2, 3]).unwrap();
    assert_eq!(
        plan,
        vec![
            Header, Setup, SafeZ,
            SafeZ, Rapid(0), Plunge(0), FeedXZ(1),
            SafeZ, Rapid(2), Plunge(2), FeedXZ(3),
            SafeZ, End,
        ]
    );
}

#[test]
fn raster_skips_empty_rows() {
    let plan = export_plan(3, "raster", ScanMode::Grid, &vec![0, 3, 0], &vec![0]).unwrap();
    assert_eq!(plan, vec![Header, Setup, SafeZ, SafeZ, Rapid(0), Plunge(0), FeedXZ(1), FeedXZ(2), SafeZ, End]);
}

#[test]
fn raster_rejects_manual_scans() {
    let e = export_plan(1, "raster", ScanMode::Manual, &vec![], &vec![0]).unwrap_err();
    assert_eq!(e, "raster export needs a grid scan");
    let e = export_plan(1, "raster", ScanMode::Grid, &vec![], &vec![0]).unwrap_err();
    assert_eq!(e, "raster export needs a grid scan");
}

#[test]
fn export_errors() {
    assert_eq!(export_plan(0, "contour", ScanMode::Manual, &vec![], &vec![]).unwrap_err(), "scan has no points");
    assert_eq!(export_plan(0, "bogus", ScanMode::Manual, &vec![], &vec![]).unwrap_err(), "scan has no points");
    assert_eq!(export_plan(2, "spiral", ScanMode::Grid, &vec![2], &vec![0]).unwrap_err(), "unknown export mode \"spiral\"");
    assert_eq!(export_plan(2, "Contour", ScanMode::Grid, &vec![2], &vec![0]).unwrap_err(), "unknown export mode \"Contour\"");
}

#[test]
fn scan_names() {
    assert_eq!(scan_name("  boss ").unwrap(), "boss");
    assert_eq!(scan_name("a b").unwrap(), "a b");
    assert_eq!(scan_name("   ").unwrap_err(), "bad scan name");
    assert_eq!(scan_name("").unwrap_err(), "bad scan name");
    assert_eq!(scan_name("a/b").unwrap_err(), "bad scan name");
    assert_eq!(scan_name("a\\b").unwrap_err(), "bad scan name");
}

#[test]
fn job_progress_starts_idle() {
    let job = JobProgress::default();
    assert!(!job.active.load(Ordering::Relaxed));
    assert_eq!(job.done.load(Ordering::Relaxed), 0);
    assert_eq!(job.total.load(Ordering::Relaxed), 0);
    assert!(!job.cancel.load(Ordering::Relaxed));
    assert_ne!(ScanMode::Manual, ScanMode::Grid);
}

/// The points a plan cuts at, in order.
fn cut_points(plan: &[ExportLine]) -> Vec<usize> {
    plan.iter()
        .filter_map(|l| match l {
            Plunge(i) | Feed(i) | FeedXZ(i) => Some(*i),
            _ => None,
        })
        .collect()
}

#[test]
fn export_cuts_every_point_once_in_order() {
    let plan = export_plan(7, "raster", ScanMode::Grid, &vec![3, 0, 4], &vec![0]).unwrap();
    assert_eq!(cut_points(&plan), (0..7).collect::<Vec<usize>>());
    let plan = export_plan(5, "contour", ScanMode::Manual, &vec![], &vec![0, 2, 3]).unwrap();
    assert_eq!(cut_points(&plan), vec![0, 2, 3]);
}

fn st(open: bool, points: usize, grid_running: bool) -> SessionState {
    SessionState { open, points, grid_running }
}

#[test]
fn session_opens_once() {
    assert_eq!(session_step(st(false, 0, false), SessionRequest::Open), (st(true, 0, false), None));
    assert_eq!(session_step(st(true, 3, false), SessionRequest::Open), (st(true, 3, false), Some(SessionRefusal::AlreadyOpen)));
}

#[test]
fn session_captures_and_undoes() {
    assert_eq!(session_step(st(true, 3, false), SessionRequest::Capture(true)), (st(true, 4, false), None));
    assert_eq!(session_step(st(true, 3, false), SessionRequest::Capture(false)), (st(true, 3, false), None));
    assert_eq!(session_step(st(false, 0, false), SessionRequest::Capture(true)).1, Some(SessionRefusal::NoSession));
    assert_eq!(session_step(st(true, 3, false), SessionRequest::Undo), (st(true, 2, false), None));
    assert_eq!(session_step(st(true, 0, false), SessionRequest::Undo), (st(true, 0, false), None));
    assert_eq!(session_step(st(false, 0, false), SessionRequest::Undo).1, Some(SessionRefusal::NoSession));
}

#[test]
fn session_finish_and_discard() {
    assert_eq!(session_step(st(true, 2, false), SessionRequest::Finish), (st(false, 0, false), None));
    // an empty session is closed, and refused
    assert_eq!(session_step(st(true, 0, false), SessionRequest::Finish), (st(false, 0, false), Some(SessionRefusal::NoPoints)));
    assert_eq!(session_step(st(false, 0, false), SessionRequest::Finish).1, Some(SessionRefusal::NoSession));
    assert_eq!(session_step(st(true, 2, true), SessionRequest::Finish), (st(true, 2, true), Some(SessionRefusal::GridRunning)));
    assert_eq!(session_step(st(true, 2, true), SessionRequest::Discard), (st(true, 2, true), Some(SessionRefusal::GridRunning)));
    assert_eq!(session_step(st(true, 2, false), SessionRequest::Discard), (st(false, 0, false), None));
    assert_eq!(session_step(st(false, 0, false), SessionRequest::Discard), (st(false, 0, false), None));
}

#[test]
fn session_grid_start() {
    assert_eq!(session_step(st(true, 0, false), SessionRequest::StartGrid), (st(true, 0, true), None));
    assert_eq!(session_step(st(true, 0, true), SessionRequest::StartGrid).1, Some(SessionRefusal::GridAlreadyRunning));
    assert_eq!(session_step(st(false, 0, false), SessionRequest::StartGrid).1, Some(SessionRefusal::NoSession));
}

#[test]
fn session_refusal_texts() {
    assert_eq!(SessionRefusal::AlreadyOpen.message(), "a scan session is already open");
    assert_eq!(SessionRefusal::NoSession.message(), "no open scan session");
    assert_eq!(SessionRefusal::GridRunning.message(), "grid scan still running");
    assert_eq!(SessionRefusal::GridAlreadyRunning.message(), "a grid scan is already running");
    assert_eq!(SessionRefusal::NoPoints.message(), "scan has no points");
    assert!(SessionRefusal::NoSession.is_conflict());
    assert!(!SessionRefusal::NoPoints.is_conflict());
}
