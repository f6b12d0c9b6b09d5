use matsux_term::config::{apply_provider, config_path, providers, Config};

fn cfg(key: &str, url: &str, model: &str) -> Config {
    Config {
        api_key: key.to_string(),
        base_url: url.to_string(),
        model: model.to_string(),
        last_repo_path: None,
    }
}

#[test]
fn settings_from_environment() {
    let c = Config::from_env(None, None, None, None);
    assert_eq!(c.api_key, "");
    assert_eq!(c.base_url, "https://api.openai.com/v1");
    assert_eq!(c.model, "gpt-4o");
    assert!(c.last_repo_path.is_none());
    let c = Config::from_env(
        Some("sk-1".to_string()),
        Some("http://localhost:11434/v1".to_string()),
        None,
        Some("llama3".to_string()),
    );
    assert_eq!(c.api_key, "sk-1");
    assert_eq!(c.base_url, "http://localhost:11434/v1");
    assert_eq!(c.model, "llama3");
    let c = Config::from_env(None, None, Some("m1".to_string()), Some("m2".to_string()));
    assert_eq!(c.model, "m1");
    let d = c.copy();
    assert_eq!(d.model, "m1");
}

#[test]
fn settings_path() {
    assert_eq!(config_path(Some("/home/matsu".to_string())), "/home/matsu/.matsux-term.toml");
    assert_eq!(config_path(Some("/root/".to_string())), "/root/.matsux-term.toml");
    assert_eq!(config_path(None), "./.matsux-term.toml");
}

#[test]
fn provider_presets() {
    let ps = providers();
    let names: Vec<&str> = ps.iter().map(|p| p.name).collect();
    assert_eq!(names, vec!["OpenAI", "Groq (gratis)", "Mistral AI", "Ollama (lokal)", "Anpassad"]);
    assert_eq!(ps[1].base_url, "https://api.groq.com/openai/v1");
    assert_eq!(ps[3].models.len(), 7);
    assert_eq!(ps[3].models[1], "qwen2.5-coder:1.5b");
    assert_eq!(ps[0].key_hint, "sk-...");
    assert!(ps[4].models.is_empty());
}

#[test]
fn applying_presets() {
    let ps = providers();
    let mut c = cfg("k", "http://old", "old-model");
    apply_provider(&mut c, &ps[2]);
    assert_eq!(c.base_url, "https://api.mistral.ai/v1");
    assert_eq!(c.model, "codestral-latest");
    assert_eq!(c.api_key, "k");
    apply_provider(&mut c, &ps[4]);
    assert_eq!(c.base_url, "https://api.mistral.ai/v1");
    assert_eq!(c.model, "codestral-latest");
}
