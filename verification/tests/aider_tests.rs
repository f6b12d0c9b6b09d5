use matsux_term::aider::{
    build_context, resolve_edit_path, shown_context_path, rust_source, stem_of, AiderAction, AiderEvent, AiderJob,
    AiderPhase, AiderRequest, CompileOutcome, ContextFile,
};
use matsux_term::app_state::AppMsg;

fn texts(ms: &[AppMsg]) -> Vec<String> {
    ms.iter()
        .map(|m| match m {
            AppMsg::ChatAppend { role, text } => format!("chat {role}: {text}"),
            AppMsg::StatusSet(s) => format!("status: {s}"),
            AppMsg::DiffSet(d) => format!("diff: {d}"),
            AppMsg::GitLogSet(l) => format!("log: {}", l.join("|")),
            AppMsg::Error(e) => format!("error: {e}"),
            AppMsg::CargoRunning(b) => format!("running: {b}"),
            AppMsg::ToolchainsLoaded(l) => format!("toolchains: {}", l.join("|")),
        })
        .collect()
}

fn request(key: &str) -> AiderRequest {
    AiderRequest {
        goal: "skriv hello world".to_string(),
        context_files: vec!["/r/a.rs".to_string()],
        repo_path: "/r".to_string(),
        model: "m".to_string(),
        api_key: key.to_string(),
        base_url: "http://x".to_string(),
    }
}

#[test]
fn edit_paths() {
    assert_eq!(resolve_edit_path("/r", "src/main.rs"), "/r/src/main.rs");
    assert_eq!(resolve_edit_path("/r", "/etc/passwd"), "/r/passwd");
    assert_eq!(resolve_edit_path("/r", "/"), "/");
    assert!(rust_source("/r/src/main.rs"));
    assert!(!rust_source("/r/main.rs.bak"));
    assert!(!rust_source("/r/.rs"));
    assert!(!rust_source("/r/rs"));
    assert_eq!(stem_of("/r/src/main.rs"), "main");
    assert_eq!(stem_of("/r/a.tar.gz"), "a.tar");
    assert_eq!(stem_of("/r/.bashrc"), ".bashrc");
    assert_eq!(stem_of("/"), "");
}

#[test]
fn context_text() {
    let fs = vec![
        ContextFile { rel: "a.rs".to_string(), content: "fn a() {}".to_string() },
        ContextFile { rel: "b.md".to_string(), content: "# B".to_string() },
    ];
    assert_eq!(build_context(&fs), "### a.rs\n```\nfn a() {}\n```\n\n### b.md\n```\n# B\n```\n\n");
    assert_eq!(build_context(&Vec::new()), "");
}

#[test]
fn missing_key_stops() {
    let (mut job, msgs, a) = AiderJob::start(request(""));
    assert_eq!(texts(&msgs), vec!["status: Läser kontext…"]);
    assert!(matches!(a, AiderAction::ReadContext));
    let (m, a) = job.step(AiderEvent::ContextRead(Vec::new()));
    assert_eq!(
        texts(&m),
        vec!["error: API-nyckel saknas.\nÖppna ⚙ API-inställningar i sidofältet och ange din nyckel."]
    );
    assert!(matches!(a, AiderAction::Stop));
}

#[test]
fn full_workflow() {
    let (mut job, _, _) = AiderJob::start(request("sk"));
    let (m, a) = job.step(AiderEvent::ContextRead(vec![ContextFile { rel: "a.rs".to_string(), content: "x".to_string() }]));
    assert_eq!(texts(&m), vec!["status: Väntar på AI…"]);
    match a {
        AiderAction::AskModel(u) => assert_eq!(u, "skriv hello world\n\n### a.rs\n```\nx\n```\n\n"),
        _ => panic!("expected AskModel"),
    }
    let (m, a) = job.step(AiderEvent::Reply(Ok("svar".to_string())));
    assert_eq!(texts(&m), vec!["chat ai: svar"]);
    assert!(matches!(a, AiderAction::ParseEdits(ref r) if r == "svar"));
    let (m, a) = job.step(AiderEvent::EditsParsed(Ok(vec!["hello.rs".to_string(), "/tmp/notes.md".to_string(), "lib.rs".to_string()])));
    assert_eq!(texts(&m), vec!["status: Applicerar 3 edit(s)…"]);
    match a {
        AiderAction::ApplyEdits(p) => assert_eq!(p, vec!["/r/hello.rs", "/r/notes.md", "/r/lib.rs"]),
        _ => panic!("expected ApplyEdits"),
    }
    let (m, a) = job.step(AiderEvent::Applied(Ok(())));
    assert_eq!(texts(&m), vec!["chat sys: ✅ Applicerade 3 edit(s)", "status: Kompilerar /r/hello.rs…"]);
    match a {
        AiderAction::Compile { source, output } => {
            assert_eq!(source, "/r/hello.rs");
            assert_eq!(output, "/r/hello");
        }
        _ => panic!("expected Compile"),
    }
    let (m, a) = job.step(AiderEvent::Compiled(CompileOutcome::Built));
    assert_eq!(texts(&m), vec!["chat sys: ✅ Kompilerad → /r/hello", "status: Kompilerar /r/lib.rs…"]);
    assert!(matches!(a, AiderAction::Compile { .. }));
    let (m, a) = job.step(AiderEvent::Compiled(CompileOutcome::Failed("bad".to_string())));
    assert_eq!(texts(&m), vec!["chat sys: ❌ Kompileringsfel:\nbad"]);
    assert!(matches!(a, AiderAction::OpenRepo));
    let (m, a) = job.step(AiderEvent::RepoOpened(true));
    assert!(m.is_empty());
    match a {
        AiderAction::Commit { message, files } => {
            assert_eq!(message, "matsux: skriv hello world");
            assert_eq!(files.len(), 3);
        }
        _ => panic!("expected Commit"),
    }
    let (m, a) = job.step(AiderEvent::Committed(Ok("0123456789abcdef".to_string())));
    assert_eq!(texts(&m), vec!["chat sys: ✅ git commit 01234567"]);
    assert!(matches!(a, AiderAction::ReadDiff(ref s) if s == "0123456789abcdef"));
    let (m, a) = job.step(AiderEvent::DiffRead(Some("+x".to_string())));
    assert_eq!(texts(&m), vec!["diff: +x"]);
    assert!(matches!(a, AiderAction::ReadLog(10)));
    let (m, a) = job.step(AiderEvent::LogRead(Some(vec![("0123456789".to_string(), "msg".to_string()), ("ab".to_string(), "kort".to_string())])));
    assert_eq!(texts(&m), vec!["log: 01234567 msg|ab kort", "status: Klar ✓"]);
    assert!(matches!(a, AiderAction::Stop));
    assert!(job.phase == AiderPhase::Done);
}

#[test]
fn workflow_endings() {
    let (mut job, _, _) = AiderJob::start(request("sk"));
    job.step(AiderEvent::ContextRead(Vec::new()));
    let (m, a) = job.step(AiderEvent::Reply(Err("timeout".to_string())));
    assert_eq!(texts(&m), vec!["error: timeout"]);
    assert!(matches!(a, AiderAction::Stop));

    let (mut job, _, _) = AiderJob::start(request("sk"));
    let (_, a) = job.step(AiderEvent::ContextRead(Vec::new()));
    assert!(matches!(a, AiderAction::AskModel(ref u) if u == "skriv hello world"));
    job.step(AiderEvent::Reply(Ok("x".to_string())));
    let (m, _) = job.step(AiderEvent::EditsParsed(Ok(Vec::new())));
    assert_eq!(texts(&m), vec!["status: Klar ✓ (inga kodfiler ändrades)"]);

    let (mut job, _, _) = AiderJob::start(request("sk"));
    job.step(AiderEvent::ContextRead(Vec::new()));
    job.step(AiderEvent::Reply(Ok("x".to_string())));
    let (m, a) = job.step(AiderEvent::EditsParsed(Err("no edits".to_string())));
    assert!(m.is_empty() && matches!(a, AiderAction::Stop));

    let (mut job, _, _) = AiderJob::start(request("sk"));
    job.step(AiderEvent::ContextRead(Vec::new()));
    job.step(AiderEvent::Reply(Ok("x".to_string())));
    job.step(AiderEvent::EditsParsed(Ok(vec!["a.md".to_string()])));
    let (m, a) = job.step(AiderEvent::Applied(Ok(())));
    assert_eq!(texts(&m), vec!["chat sys: ✅ Applicerade 1 edit(s)"]);
    assert!(matches!(a, AiderAction::OpenRepo));
    let (m, _) = job.step(AiderEvent::RepoOpened(false));
    assert_eq!(texts(&m), vec!["status: Klar ✓"]);

    let (mut job, _, _) = AiderJob::start(request("sk"));
    job.step(AiderEvent::ContextRead(Vec::new()));
    job.step(AiderEvent::Reply(Ok("x".to_string())));
    job.step(AiderEvent::EditsParsed(Ok(vec!["a.md".to_string()])));
    let (m, _) = job.step(AiderEvent::Applied(Err("disk full".to_string())));
    assert_eq!(texts(&m), vec!["error: disk full"]);

    let (mut job, _, _) = AiderJob::start(request("sk"));
    job.step(AiderEvent::ContextRead(Vec::new()));
    job.step(AiderEvent::Reply(Ok("x".to_string())));
    job.step(AiderEvent::EditsParsed(Ok(vec!["a.md".to_string()])));
    job.step(AiderEvent::Applied(Ok(())));
    job.step(AiderEvent::RepoOpened(true));
    let (m, _) = job.step(AiderEvent::Committed(Err("nothing".to_string())));
    assert_eq!(texts(&m), vec!["chat sys: ⚠  git commit misslyckades: nothing", "status: Klar ✓"]);

    let (mut job, _, _) = AiderJob::start(request("sk"));
    let (m, a) = job.step(AiderEvent::RepoOpened(true));
    assert!(m.is_empty() && matches!(a, AiderAction::Stop));
}

#[test]
fn compile_outcomes_and_long_goals() {
    let mut req = request("sk");
    req.goal = "å".repeat(40);
    let (mut job, _, _) = AiderJob::start(req);
    job.step(AiderEvent::ContextRead(Vec::new()));
    job.step(AiderEvent::Reply(Ok("x".to_string())));
    job.step(AiderEvent::EditsParsed(Ok(vec!["m.rs".to_string()])));
    job.step(AiderEvent::Applied(Ok(())));
    let (m, _) = job.step(AiderEvent::Compiled(CompileOutcome::NotStarted("no rustc".to_string())));
    assert_eq!(texts(&m), vec!["chat sys: ❌ Kunde inte starta rustc: no rustc"]);
    let (_, a) = job.step(AiderEvent::RepoOpened(true));
    match a {
        AiderAction::Commit { message, .. } => assert_eq!(message, format!("matsux: {}", "å".repeat(36))),
        _ => panic!("expected Commit"),
    }
}

#[test]
fn context_paths_are_shown_relative_to_the_repository() {
    let f = ContextFile::read("/r/src/a.rs", "/r", "x".to_string());
    assert_eq!(f.rel, "src/a.rs");
    assert_eq!(f.content, "x");
    assert_eq!(ContextFile::read("/r//src/b.rs", "/r/", String::new()).rel, "src/b.rs");
    assert_eq!(ContextFile::read("/other/c.rs", "/r", String::new()).rel, "/other/c.rs");
    assert_eq!(ContextFile::read("/rr/c.rs", "/r", String::new()).rel, "/rr/c.rs");
    assert_eq!(shown_context_path(Some("a.rs".to_string()), "/r/a.rs"), "a.rs");
    assert_eq!(shown_context_path(None, "/x/a.rs"), "/x/a.rs");
}
