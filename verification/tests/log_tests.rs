use matsux_term::activity_log::{
    epoch_seconds, files_column, fmt_time, markdown_header, markdown_row, now_secs, push_capped,
    summary_for_context, summary_line, LogEntry, MAX_ENTRIES,
};

fn entry(ts: u64, goal: &str, files: &[&str], result: &str) -> LogEntry {
    LogEntry::new(ts, goal, files.iter().map(|f| f.to_string()).collect(), result)
}

#[test]
fn time_formatting() {
    assert_eq!(fmt_time(0), "dag 0 00:00:00 UTC");
    assert_eq!(fmt_time(90061), "dag 1 01:01:01 UTC");
    assert_eq!(fmt_time(86399), "dag 0 23:59:59 UTC");
    assert_eq!(fmt_time(1_700_000_000), "dag 19675 22:13:20 UTC");
}

#[test]
fn clock_reads_after_epoch() {
    assert!(now_secs() > 1_600_000_000);
}

#[test]
fn files_column_names_files() {
    assert_eq!(files_column(&Vec::new()), "–");
    let files = vec!["/home/u/a.rs".to_string(), "src/b.py".to_string(), "/".to_string()];
    assert_eq!(files_column(&files), "a.rs, b.py, /");
}

#[test]
fn markdown_rows() {
    assert_eq!(
        markdown_header(),
        "# matsux-log\n\n| Tid | Mål | Filer | Resultat |\n|-----|-----|-------|----------|\n"
    );
    let e = entry(61, "skriv hello", &["/x/hello.rs"], "ok");
    assert_eq!(markdown_row(&e), "| dag 0 00:01:01 UTC | skriv hello | hello.rs | ok |\n");
    let long = "x".repeat(70);
    let e2 = entry(0, &long, &[], "fel: nej");
    assert_eq!(
        markdown_row(&e2),
        format!("| dag 0 00:00:00 UTC | {} | – | fel: nej |\n", "x".repeat(60))
    );
}

#[test]
fn capped_log_keeps_newest() {
    let mut v = Vec::new();
    for i in 0..(MAX_ENTRIES as u64 + 3) {
        push_capped(&mut v, entry(i, "g", &[], "ok"));
    }
    assert_eq!(v.len(), MAX_ENTRIES);
    assert_eq!(v[0].timestamp, 3);
    assert_eq!(v[MAX_ENTRIES - 1].timestamp, MAX_ENTRIES as u64 + 2);
}

#[test]
fn summary_of_recent_entries() {
    assert_eq!(summary_for_context(&Vec::new(), 5), "");
    let v = vec![
        entry(1, "första", &["a.rs"], "ok"),
        entry(2, "andra", &[], "fel: x"),
        entry(3, "tredje", &["/p/q/b.rs", "c.md"], "ok"),
    ];
    assert_eq!(summary_line(&v[1]), "- **andra** → filer: – (fel: x)\n");
    assert_eq!(
        summary_for_context(&v, 2),
        "### matsux-log (senaste aktiviteter)\n\n- **andra** → filer: – (fel: x)\n- **tredje** → filer: b.rs, c.md (ok)\n\n"
    );
    assert_eq!(
        summary_for_context(&v, 10),
        "### matsux-log (senaste aktiviteter)\n\n- **första** → filer: a.rs (ok)\n- **andra** → filer: – (fel: x)\n- **tredje** → filer: b.rs, c.md (ok)\n\n"
    );
    assert_eq!(summary_for_context(&v, 0), "### matsux-log (senaste aktiviteter)\n\n\n");
}

#[test]
fn clock_readings_before_the_epoch_give_zero() {
    assert_eq!(epoch_seconds(Some(1_700_000_000)), 1_700_000_000);
    assert_eq!(epoch_seconds(None), 0);
}
