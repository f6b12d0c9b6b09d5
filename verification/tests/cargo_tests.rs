use matsux_term::app_state::AppMsg;
use matsux_term::cargo::{
    cargo_command_text, cargo_commands, colorize_cargo_line, parse_toolchain_channel,
    parse_toolchain_list, toolchain_file_content, CargoAction, CargoEvent, CargoPhase, CargoRun,
};

fn texts(ms: &[AppMsg]) -> Vec<String> {
    ms.iter()
        .map(|m| match m {
            AppMsg::ChatAppend { role, text } => format!("chat {role}: {text}"),
            AppMsg::StatusSet(s) => format!("status: {s}"),
            AppMsg::DiffSet(d) => format!("diff: {d}"),
            AppMsg::GitLogSet(l) => format!("log: {}", l.join("|")),
            AppMsg::Error(e) => format!("error: {e}"),
            AppMsg::CargoRunning(b) => format!("running: {b}"),
            AppMsg::ToolchainsLoaded(l) => format!("toolchains: {}", l.join("|")),
        })
        .collect()
}

#[test]
fn toolchain_file_round_trip() {
    let c = toolchain_file_content("1.94.0");
    assert_eq!(
        c,
        "[toolchain]\nchannel = \"1.94.0\"\ncomponents = [\"rustfmt\", \"clippy\"]\ntargets = [\"x86_64-unknown-linux-gnu\"]\n"
    );
    assert_eq!(parse_toolchain_channel(&c), Some("1.94.0".to_string()));
    assert_eq!(parse_toolchain_channel(&toolchain_file_content("nightly-2024-01-01")), Some("nightly-2024-01-01".to_string()));
}

#[test]
fn toolchain_channel_lines() {
    assert_eq!(parse_toolchain_channel(""), None);
    assert_eq!(parse_toolchain_channel("[toolchain]\n"), None);
    assert_eq!(parse_toolchain_channel("  channel   =   'x'  \n"), Some("'x'".to_string()));
    assert_eq!(parse_toolchain_channel("channel\nchannel=\"beta\"\r\n"), Some("beta".to_string()));
    assert_eq!(parse_toolchain_channel("channels = \"a=b\"\n"), Some("a=b".to_string()));
    assert_eq!(parse_toolchain_channel("# channel = x\n"), None);
}

#[test]
fn rustup_toolchain_list() {
    let out = "stable-x86_64-unknown-linux-gnu (default)\n1.94.0-x86_64-unknown-linux-gnu\n\n   \n-x86_64-unknown-linux-gnu\nnightly\n";
    assert_eq!(parse_toolchain_list(out), vec!["stable".to_string(), "1.94.0".to_string(), "nightly".to_string()]);
    assert!(parse_toolchain_list("").is_empty());
}

#[test]
fn dated_and_custom_toolchains_keep_their_names() {
    assert_eq!(
        parse_toolchain_list("nightly-2024-05-01-x86_64-unknown-linux-gnu\n"),
        vec!["nightly-2024-05-01".to_string()]
    );
    let out = "beta-aarch64-apple-darwin\n1.80.0-i686-pc-windows-msvc\nmy-tools\nstage1-x86_64\nstable-armv5te-unknown-linux-gnueabi\n";
    assert_eq!(
        parse_toolchain_list(out),
        vec![
            "beta".to_string(),
            "1.80.0".to_string(),
            "my-tools".to_string(),
            "stage1-x86_64".to_string(),
            "stable".to_string(),
        ]
    );
}

#[test]
fn colorized_output() {
    assert_eq!(colorize_cargo_line("error[E0308]: mismatched"), "🔴 error[E0308]: mismatched");
    assert_eq!(colorize_cargo_line("  warning: unused"), "🟡   warning: unused");
    assert_eq!(colorize_cargo_line("   Compiling foo v0.1.0"), "      Compiling foo v0.1.0");
    assert_eq!(colorize_cargo_line("    Finished dev"), "       Finished dev");
    assert_eq!(colorize_cargo_line("note: x"), "note: x");
    assert_eq!(colorize_cargo_line(""), "");
}

#[test]
fn cargo_buttons() {
    let cmds = cargo_commands();
    assert_eq!(cmds.len(), 6);
    assert_eq!(cmds[2].0, "release");
    assert_eq!(cmds[2].1, vec!["build".to_string(), "--release".to_string()]);
    assert_eq!(cargo_command_text(&cmds[2].1), "cargo build --release");
    assert_eq!(cargo_command_text(&Vec::new()), "cargo ");
}

#[test]
fn cargo_run_success() {
    let args = vec!["test".to_string()];
    let (mut run, msgs, a) = CargoRun::start(&args);
    assert!(a == CargoAction::Spawn);
    assert_eq!(texts(&msgs), vec!["chat sys: $ cargo test", "status: Kör cargo test…", "running: true"]);
    let (m, a) = run.step(CargoEvent::Spawned(true));
    assert!(m.is_empty() && a == CargoAction::ReadStderr);
    let (m, a) = run.step(CargoEvent::StderrLine(Some("warning: x".to_string())));
    assert_eq!(texts(&m), vec!["chat sys: 🟡 warning: x"]);
    assert!(a == CargoAction::ReadStderr);
    let (_, a) = run.step(CargoEvent::StderrLine(None));
    assert!(a == CargoAction::ReadStdout);
    let (m, _) = run.step(CargoEvent::StdoutLine(Some("error: not colored".to_string())));
    assert_eq!(texts(&m), vec!["chat sys: error: not colored"]);
    let (_, a) = run.step(CargoEvent::StdoutLine(None));
    assert!(a == CargoAction::Wait);
    let (m, a) = run.step(CargoEvent::Exited(true));
    assert_eq!(texts(&m), vec!["chat sys: ✅ cargo test klar", "status: Klar ✓", "running: false"]);
    assert!(a == CargoAction::Stop && run.phase == CargoPhase::Done);
}

#[test]
fn cargo_run_failures() {
    let (mut run, _, _) = CargoRun::start(&vec!["build".to_string()]);
    let (m, a) = run.step(CargoEvent::Exited(true));
    assert!(m.is_empty() && a == CargoAction::Spawn);
    let (m, a) = run.step(CargoEvent::Spawned(false));
    assert_eq!(texts(&m), vec!["error: Kunde inte starta cargo — är Rust installerat?", "running: false"]);
    assert!(a == CargoAction::Stop);
    let (mut run, _, _) = CargoRun::start(&vec!["build".to_string()]);
    run.step(CargoEvent::Spawned(true));
    run.step(CargoEvent::StderrLine(None));
    run.step(CargoEvent::StdoutLine(None));
    let (m, _) = run.step(CargoEvent::Exited(false));
    assert_eq!(texts(&m), vec!["chat sys: ❌ cargo build misslyckades", "status: Byggfel ✗", "running: false"]);
}
