use matsux_term::app_state::{role_kind, role_label, AppMsg, AppState, ChatRole, Panel, StatusTone};
use matsux_term::config::Config;

fn state() -> AppState {
    let cfg = Config {
        api_key: "sk-x".to_string(),
        base_url: "https://api.openai.com/v1".to_string(),
        model: "gpt-4o-mini".to_string(),
        last_repo_path: None,
    };
    AppState::new("/repo".to_string(), "gpt-4o".to_string(), None, cfg)
}

fn chat(s: &AppState) -> Vec<(String, String)> {
    s.chat.iter().map(|l| (l.role.clone(), l.text.clone())).collect()
}

#[test]
fn initial_state() {
    let s = state();
    assert_eq!(chat(&s), vec![("sys".to_string(), "matsux-term  •  /repo  •  modell: gpt-4o".to_string())]);
    assert_eq!(s.model, "gpt-4o-mini");
    assert_eq!(s.toolchain_channel, "stable");
    assert_eq!(s.toolchain_input, "stable");
    assert_eq!(s.status, "Klar");
    assert!(s.request_focus && !s.busy && !s.cargo_busy);
    assert!(s.panel == Panel::Hidden);
    let t = AppState::new("/r".to_string(), "m".to_string(), Some("1.94.0".to_string()), Config::from_env(None, None, None, None));
    assert_eq!(t.toolchain_channel, "1.94.0");
}

#[test]
fn chat_messages_merge_by_role() {
    let mut s = state();
    s.apply_msg(AppMsg::ChatAppend { role: "sys".to_string(), text: "a".to_string() });
    s.apply_msg(AppMsg::ChatAppend { role: "ai".to_string(), text: "b".to_string() });
    s.apply_msg(AppMsg::ChatAppend { role: "ai".to_string(), text: "c".to_string() });
    let c = chat(&s);
    assert_eq!(c.len(), 2);
    assert_eq!(c[0].1, "matsux-term  •  /repo  •  modell: gpt-4o\na");
    assert_eq!(c[1], ("ai".to_string(), "b\nc".to_string()));
}

#[test]
fn status_and_errors_release_busy() {
    let mut s = state();
    s.busy = true;
    s.apply_msg(AppMsg::StatusSet("Väntar på AI…".to_string()));
    assert!(s.busy);
    assert_eq!(s.status, "Väntar på AI…");
    s.apply_msg(AppMsg::StatusSet("Klar ✓".to_string()));
    assert!(!s.busy);
    s.busy = true;
    s.apply_msg(AppMsg::Error("boom".to_string()));
    assert!(!s.busy);
    assert_eq!(s.status, "Fel ✗");
    assert_eq!(chat(&s).last().unwrap(), &("sys".to_string(), "⚠  boom".to_string()));
    assert!(s.status_tone() == StatusTone::Failed);
    s.busy = true;
    s.apply_msg(AppMsg::CargoRunning(true));
    assert!(s.busy && s.cargo_busy);
    s.apply_msg(AppMsg::CargoRunning(false));
    assert!(!s.busy && !s.cargo_busy);
}

#[test]
fn panels_logs_and_toolchains() {
    let mut s = state();
    s.apply_msg(AppMsg::DiffSet("+x".to_string()));
    assert!(s.panel == Panel::Diff);
    assert_eq!(s.diff, "+x");
    s.toggle_panel(Panel::Diff);
    assert!(s.panel == Panel::Hidden);
    s.toggle_panel(Panel::Help);
    s.toggle_panel(Panel::GitLog);
    assert!(s.panel == Panel::GitLog);
    s.apply_msg(AppMsg::GitLogSet(vec!["abc12345 m".to_string()]));
    assert_eq!(s.git_log, vec!["abc12345 m".to_string()]);
    s.apply_msg(AppMsg::ToolchainsLoaded(vec!["stable".to_string(), "1.94.0".to_string()]));
    assert_eq!(s.installed_toolchains.len(), 2);
}

#[test]
fn submitting_a_goal() {
    let mut s = state();
    s.input = "   ".to_string();
    assert!(s.submit().is_none());
    assert_eq!(s.input, "   ");
    s.context_files = vec!["src/a.rs".to_string(), "b.md".to_string()];
    s.input = "  gör något \n".to_string();
    let req = s.submit().unwrap();
    assert_eq!(req.goal, "gör något");
    assert_eq!(req.context_files, vec!["/repo/src/a.rs".to_string(), "/repo/b.md".to_string()]);
    assert_eq!(req.repo_path, "/repo");
    assert_eq!(req.model, "gpt-4o-mini");
    assert_eq!(req.api_key, "sk-x");
    assert_eq!(s.input, "");
    assert!(s.busy && s.request_focus);
    assert_eq!(s.status, "Tänker…");
    assert_eq!(chat(&s).last().unwrap(), &("du".to_string(), "gör något".to_string()));
    s.input = "mer".to_string();
    assert!(s.submit().is_none());
    assert_eq!(s.input, "mer");
}

#[test]
fn choosing_context_files() {
    let mut s = state();
    s.files = vec!["a.rs".to_string(), "b.rs".to_string(), "c.rs".to_string()];
    s.toggle_context_file("b.rs".to_string());
    assert_eq!(s.context_files, vec!["b.rs".to_string()]);
    s.choose_all_files();
    assert_eq!(s.context_files, vec!["b.rs".to_string(), "a.rs".to_string(), "c.rs".to_string()]);
    s.toggle_context_file("a.rs".to_string());
    assert_eq!(s.context_files, vec!["b.rs".to_string(), "c.rs".to_string()]);
    assert_eq!(s.context_note(), "2 fil(er) i kontext");
    s.clear_context();
    assert!(s.context_files.is_empty());
    assert_eq!(s.context_note(), "välj filer till vänster");
}

#[test]
fn toolchain_and_settings_actions() {
    let mut s = state();
    s.toolchain_input = "  nightly ".to_string();
    let ch = s.toolchain_to_save().unwrap();
    assert_eq!(ch, "nightly");
    s.toolchain_saved(ch);
    assert_eq!(s.toolchain_channel, "nightly");
    assert_eq!(chat(&s).last().unwrap().1, "✅ rust-toolchain.toml → channel = \"nightly\"");
    s.toolchain_save_failed("nope".to_string());
    assert_eq!(chat(&s).last().unwrap().1, "⚠  Kunde inte skriva rust-toolchain.toml: nope");
    s.toolchain_input = " ".to_string();
    assert!(s.toolchain_to_save().is_none());
    s.pick_toolchain("beta".to_string());
    assert_eq!(s.toolchain_input, "beta");
    s.select_provider(3);
    assert_eq!(s.selected_provider, 3);
    assert_eq!(s.cfg.base_url, "http://localhost:11434/v1");
    assert_eq!(s.cfg.model, "qwen2.5:1.5b");
    assert_eq!(s.key_hint(), "ollama");
    assert_eq!(s.preset_model_names().len(), 7);
    s.select_provider(9);
    assert_eq!(s.selected_provider, 3);
    s.pick_model("phi3:mini".to_string());
    assert_eq!(s.cfg.model, "phi3:mini");
    s.config_saved();
    assert_eq!(chat(&s).last().unwrap().1, "✅ Inställningar sparade till ~/.matsux-term.toml");
    s.config_save_failed("disk".to_string());
    assert_eq!(chat(&s).last().unwrap().1, "⚠  Kunde inte spara: disk");
    assert_eq!(s.key_status(), (true, "✓ Nyckel inställd".to_string()));
    s.cfg.api_key = String::new();
    assert_eq!(s.key_status(), (false, "⚠ Nyckel saknas".to_string()));
    assert_eq!(s.show_key_label(), "👁");
    s.toggle_show_key();
    assert_eq!(s.show_key_label(), "🙈");
}

#[test]
fn labels_and_hints() {
    let mut s = state();
    assert_eq!(s.model_label(), "[gpt-4o-mini]");
    assert_eq!(s.input_hint(), "Skriv din instruktion till AI…");
    assert!(s.status_tone() == StatusTone::Idle);
    assert!(s.cargo_enabled());
    s.busy = true;
    assert_eq!(s.input_hint(), "⏳ AI tänker…");
    assert!(s.status_tone() == StatusTone::Busy);
    assert!(!s.cargo_enabled());
    assert!(role_kind("du") == ChatRole::User);
    assert!(role_kind("ai") == ChatRole::Ai);
    assert!(role_kind("sys") == ChatRole::System);
    assert_eq!(role_label(ChatRole::User), " Du ");
    assert_eq!(role_label(ChatRole::Ai), " AI ");
    assert_eq!(role_label(ChatRole::System), "sys ");
}

#[test]
fn messages_leave_the_users_edits_alone() {
    let mut s = state();
    s.input = "half typed".to_string();
    s.files = vec!["a.rs".to_string(), "b.rs".to_string()];
    s.toggle_context_file("b.rs".to_string());
    s.pick_toolchain("nightly".to_string());
    s.select_provider(1);
    let cfg_before = (s.cfg.api_key.clone(), s.cfg.base_url.clone(), s.cfg.model.clone());
    s.apply_msg(AppMsg::ChatAppend { role: "ai".to_string(), text: "x".to_string() });
    s.apply_msg(AppMsg::StatusSet("Klar ✓".to_string()));
    s.apply_msg(AppMsg::DiffSet("diff".to_string()));
    s.apply_msg(AppMsg::GitLogSet(vec!["abc".to_string()]));
    s.apply_msg(AppMsg::Error("e".to_string()));
    s.apply_msg(AppMsg::CargoRunning(false));
    s.apply_msg(AppMsg::ToolchainsLoaded(vec!["stable".to_string()]));
    assert_eq!(s.input, "half typed");
    assert_eq!(s.files, vec!["a.rs".to_string(), "b.rs".to_string()]);
    assert_eq!(s.context_files, vec!["b.rs".to_string()]);
    assert_eq!(s.toolchain_input, "nightly");
    assert_eq!(s.selected_provider, 1);
    assert_eq!((s.cfg.api_key.clone(), s.cfg.base_url.clone(), s.cfg.model.clone()), cfg_before);
    assert_eq!(s.repo_path, "/repo");
}

#[test]
fn chat_only_grows() {
    let mut s = state();
    let first = chat(&s);
    s.apply_msg(AppMsg::ChatAppend { role: "sys".to_string(), text: "more".to_string() });
    let c1 = chat(&s);
    assert_eq!(c1.len(), 1);
    assert!(c1[0].1.starts_with(&first[0].1));
    s.apply_msg(AppMsg::StatusSet("x".to_string()));
    s.apply_msg(AppMsg::Error("oops".to_string()));
    s.apply_msg(AppMsg::ChatAppend { role: "ai".to_string(), text: "a".to_string() });
    let c2 = chat(&s);
    assert_eq!(c2.len(), 3);
    assert_eq!(c2[0], c1[0]);
    assert_eq!(c2[1], ("sys".to_string(), "⚠  oops".to_string()));
}
