use matsux_term::files::{path_less, scan_decision, scan_depth_ok, sort_paths, ScanStep, MAX_SCAN_DEPTH};

#[test]
fn scan_decisions() {
    assert!(scan_decision(".git", true, None) == ScanStep::Skip);
    assert!(scan_decision(".hidden.rs", false, Some("rs")) == ScanStep::Skip);
    assert!(scan_decision(".env", false, None) == ScanStep::Skip);
    assert!(scan_decision(".env", true, None) == ScanStep::Descend);
    assert!(scan_decision("target", true, None) == ScanStep::Skip);
    assert!(scan_decision("node_modules", true, None) == ScanStep::Skip);
    assert!(scan_decision("src", true, None) == ScanStep::Descend);
    assert!(scan_decision("main.rs", false, Some("rs")) == ScanStep::Keep);
    assert!(scan_decision("notes.md", false, Some("md")) == ScanStep::Keep);
    assert!(scan_decision("image.png", false, Some("png")) == ScanStep::Skip);
    assert!(scan_decision("Makefile", false, None) == ScanStep::Skip);
    assert_eq!(MAX_SCAN_DEPTH, 6);
}

#[test]
fn path_order_matches_std() {
    let paths = vec!["b.rs", "a/b.rs", "a.b", "a", "a/a", "ab", "Z", "å", "a-b/c"];
    for x in &paths {
        for y in &paths {
            let want = std::path::Path::new(x) < std::path::Path::new(y);
            assert_eq!(path_less(x, y), want, "{x} < {y}");
        }
    }
    let v: Vec<String> = paths.iter().map(|p| p.to_string()).collect();
    let sorted = sort_paths(&v);
    let mut want: Vec<std::path::PathBuf> = paths.iter().map(std::path::PathBuf::from).collect();
    want.sort();
    let want: Vec<String> = want.iter().map(|p| p.display().to_string()).collect();
    assert_eq!(sorted, want);
}

#[test]
fn scan_stops_below_six_levels() {
    assert!(scan_depth_ok(0));
    assert!(scan_depth_ok(6));
    assert!(!scan_depth_ok(7));
}
