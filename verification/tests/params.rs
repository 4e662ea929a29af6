use helix::params::Params;

#[test]
fn locals_shadow_inside_a_frame() {
    let mut p: Params<f64> = Params::new();
    p.set("5", 12.0);
    p.set("_name", 3.0);
    assert_eq!(p.get("5"), Some(12.0));
    assert_eq!(p.get("_name"), Some(3.0));
    assert!(!p.in_subroutine());
    p.push_frame(vec![100.0]);
    assert!(p.in_subroutine());
    assert_eq!(p.get("1"), Some(100.0));
    p.set("1", 101.0);
    assert_eq!(p.get("1"), Some(101.0));
    // #5 is local inside the frame, so it reads unset there
    assert_eq!(p.get("5"), None);
    assert_eq!(p.get("_name"), Some(3.0));
    p.pop_frame();
    assert_eq!(p.get("1"), None); // local vanished with the frame
    assert_eq!(p.get("5"), Some(12.0));
}

#[test]
fn numbered_above_thirty_stay_global() {
    let mut p: Params<i32> = Params::new();
    p.push_frame(vec![]);
    p.set("31", 7);
    p.set("depth", 1);
    p.set("_total", 2);
    p.pop_frame();
    assert_eq!(p.get("31"), Some(7));
    assert_eq!(p.get("depth"), None);
    assert_eq!(p.get("_total"), Some(2));
    assert!(p.is_set("_total"));
    assert!(!p.is_set("depth"));
}

#[test]
fn arguments_are_numbered_from_one() {
    let mut p: Params<u8> = Params::new();
    p.push_frame(vec![10, 20, 30]);
    assert_eq!(p.get("1"), Some(10));
    assert_eq!(p.get("2"), Some(20));
    assert_eq!(p.get("3"), Some(30));
    assert_eq!(p.get("4"), None);
    // nested frames see only their own arguments
    p.push_frame(vec![99]);
    assert_eq!(p.get("1"), Some(99));
    assert_eq!(p.get("2"), None);
    p.pop_frame();
    assert_eq!(p.get("2"), Some(20));
    p.pop_frame();
    p.pop_frame(); // no frame left: nothing happens
    assert_eq!(p.get("1"), None);
}

#[test]
fn writes_replace_earlier_values() {
    let mut p: Params<f64> = Params::new();
    p.set("_x", 1.0);
    p.set("_x", 2.0);
    p.set("_y", 3.0);
    assert_eq!(p.get("_x"), Some(2.0));
    assert_eq!(p.get("_y"), Some(3.0));
}

#[test]
fn parameters_and_scoping() {
    let mut p: Params<f64> = Params::new();
    p.set("5", 12.0);
    p.set("_name", 3.0);
    // `[#5 + #<_name>]` reads both parameters
    assert_eq!(p.get("5").unwrap_or(0.0) + p.get("_name").unwrap_or(0.0), 15.0);
    // locals shadow inside a frame
    p.push_frame(vec![100.0]);
    assert_eq!(p.get("1").unwrap_or(0.0), 100.0);
    p.set("1", 101.0);
    p.pop_frame();
    assert_eq!(p.get("1").unwrap_or(0.0), 0.0); // local vanished with the frame
    assert_eq!(p.get("5").unwrap_or(0.0), 12.0); // >30 stays global
}
