//! Connection settings for the language-model service and the presets of
//! known providers. The settings are stored as TOML in the home directory
//! by the program around this library.
use vstd::prelude::*;
use crate::text::{owned, path_join, join_path};

verus! {

/// The settings: API key, base URL and model name, and the last
/// repository that was open.
pub struct Config {
    pub api_key: String,
    pub base_url: String,
    pub model: String,
    pub last_repo_path: Option<String>,
}

/// The settings as plain text values.
pub struct ConfigView {
    pub api_key: Seq<char>,
    pub base_url: Seq<char>,
    pub model: Seq<char>,
    pub last_repo_path: Option<Seq<char>>,
}

impl View for Config {
    type V = ConfigView;

    open spec fn view(&self) -> ConfigView {
        ConfigView {
            api_key: self.api_key@,
            base_url: self.base_url@,
            model: self.model@,
            last_repo_path: opt_view(self.last_repo_path),
        }
    }
}

/// A provider preset.
pub struct Provider {
    pub name: &'static str,
    pub base_url: &'static str,
    pub models: Vec<&'static str>,
    /// Placeholder shown while no API key is set.
    pub key_hint: &'static str,
}

/// The base URL used when none is configured.
pub open spec fn default_base_url() -> Seq<char> {
    "https://api.openai.com/v1"@
}

/// The model used when none is configured.
pub open spec fn default_model() -> Seq<char> {
    "gpt-4o"@
}

/// The name of the settings file in the home directory.
pub open spec fn config_file_name() -> Seq<char> {
    ".matsux-term.toml"@
}

/// The view of an optional string.
pub open spec fn opt_view(o: Option<String>) -> Option<Seq<char>> {
    match o {
        Some(s) => Some(s@),
        None => None,
    }
}

impl Config {
    /// The settings that the environment gives: `OPENAI_API_KEY` (else
    /// empty), `OPENAI_BASE_URL` (else the OpenAI URL), `MATSUX_MODEL`, else
    /// `OPENAI_MODEL`, else `gpt-4o`. Each argument is the variable's value
    /// when it is set and valid Unicode.
    pub fn from_env(
        openai_api_key: Option<String>,
        openai_base_url: Option<String>,
        matsux_model: Option<String>,
        openai_model: Option<String>,
    ) -> (c: Config)
        ensures
            c.api_key@ == (match openai_api_key {
                Some(k) => k@,
                None => Seq::<char>::empty(),
            }),
            c.base_url@ == (match openai_base_url {
                Some(u) => u@,
                None => default_base_url(),
            }),
            c.model@ == (match (matsux_model, openai_model) {
                (Some(m), _) => m@,
                (None, Some(m)) => m@,
                (None, None) => default_model(),
            }),
            c.last_repo_path is None,
    {
        let api_key = match openai_api_key {
            Some(k) => k,
            None => String::new(),
        };
        let base_url = match openai_base_url {
            Some(u) => u,
            None => owned("https://api.openai.com/v1"),
        };
        let model = match matsux_model {
            Some(m) => m,
            None => match openai_model {
                Some(m) => m,
                None => owned("gpt-4o"),
            },
        };
        Config { api_key, base_url, model, last_repo_path: None }
    }

    /// A copy of the settings.
    pub fn copy(&self) -> (c: Config)
        ensures
            c@ == self@,
    {
        Config {
            api_key: owned(self.api_key.as_str()),
            base_url: owned(self.base_url.as_str()),
            model: owned(self.model.as_str()),
            last_repo_path: match &self.last_repo_path {
                Some(p) => Some(owned(p.as_str())),
                None => None,
            },
        }
    }
}

/// Where the settings file lives: `$HOME/.matsux-term.toml`, with `.` in
/// place of an unset home directory.
pub fn config_path(home: Option<String>) -> (r: String)
    ensures
        r@ == path_join(
            match home {
                Some(h) => h@,
                None => "."@,
            },
            config_file_name(),
        ),
{
    let base = match home {
        Some(h) => h,
        None => owned("."),
    };
    join_path(base.as_str(), ".matsux-term.toml")
}

/// The names of a provider's models.
pub open spec fn model_views(p: Provider) -> Seq<Seq<char>> {
    Seq::new(p.models@.len(), |i: int| p.models@[i]@)
}

/// The preset with the given fields.
pub open spec fn preset(
    p: Provider,
    name: Seq<char>,
    base_url: Seq<char>,
    models: Seq<Seq<char>>,
    key_hint: Seq<char>,
) -> bool {
    &&& p.name@ == name
    &&& p.base_url@ == base_url
    &&& model_views(p) == models
    &&& p.key_hint@ == key_hint
}

/// How many presets there are.
pub open spec fn preset_count() -> int {
    5
}

/// The name of the preset at `i`.
pub open spec fn preset_name(i: int) -> Seq<char> {
    if i == 0 {
        "OpenAI"@
    } else if i == 1 {
        "Groq (gratis)"@
    } else if i == 2 {
        "Mistral AI"@
    } else if i == 3 {
        "Ollama (lokal)"@
    } else {
        "Anpassad"@
    }
}

/// The base URL of the preset at `i` (empty for the custom one).
pub open spec fn preset_base_url(i: int) -> Seq<char> {
    if i == 0 {
        "https://api.openai.com/v1"@
    } else if i == 1 {
        "https://api.groq.com/openai/v1"@
    } else if i == 2 {
        "https://api.mistral.ai/v1"@
    } else if i == 3 {
        "http://localhost:11434/v1"@
    } else {
        ""@
    }
}

/// The models of the preset at `i`.
pub open spec fn preset_models(i: int) -> Seq<Seq<char>> {
    if i == 0 {
        seq!["gpt-4o"@, "gpt-4o-mini"@, "gpt-4-turbo"@, "o1-mini"@, "o3-mini"@]
    } else if i == 1 {
        seq![
            "llama-3.3-70b-versatile"@,
            "llama-3.1-8b-instant"@,
            "mixtral-8x7b-32768"@,
            "gemma2-9b-it"@,
        ]
    } else if i == 2 {
        seq!["codestral-latest"@, "mistral-large-latest"@, "mistral-small-latest"@]
    } else if i == 3 {
        seq![
            "qwen2.5:1.5b"@,
            "qwen2.5-coder:1.5b"@,
            "qwen2.5-coder:3b"@,
            "qwen2.5-coder:7b"@,
            "llama3.2:3b"@,
            "phi3:mini"@,
            "deepseek-coder:1.3b"@,
        ]
    } else {
        seq![]
    }
}

/// The API key placeholder of the preset at `i`.
pub open spec fn preset_key_hint(i: int) -> Seq<char> {
    if i == 0 {
        "sk-..."@
    } else if i == 1 {
        "gsk_..."@
    } else if i == 3 {
        "ollama"@
    } else {
        "..."@
    }
}

/// `p` is the preset at `i`.
pub open spec fn is_preset_at(p: Provider, i: int) -> bool {
    preset(p, preset_name(i), preset_base_url(i), preset_models(i), preset_key_hint(i))
}

/// The settings after choosing the preset at `i`.
pub open spec fn with_preset(c: ConfigView, i: int) -> ConfigView {
    ConfigView {
        base_url: if preset_base_url(i).len() == 0 {
            c.base_url
        } else {
            preset_base_url(i)
        },
        model: if preset_models(i).len() == 0 {
            c.model
        } else {
            preset_models(i)[0]
        },
        ..c
    }
}

/// The provider presets, in the order they are offered.
pub fn providers() -> (r: Vec<Provider>)
    ensures
        r@.len() == preset_count(),
        forall|i: int| 0 <= i < preset_count() ==> is_preset_at(#[trigger] r@[i], i),
{
    let mut r: Vec<Provider> = Vec::new();
    let mut m0: Vec<&'static str> = Vec::new();
    m0.push("gpt-4o");
    m0.push("gpt-4o-mini");
    m0.push("gpt-4-turbo");
    m0.push("o1-mini");
    m0.push("o3-mini");
    let p0 = Provider {
        name: "OpenAI",
        base_url: "https://api.openai.com/v1",
        models: m0,
        key_hint: "sk-...",
    };
    assert(model_views(p0) =~= seq!["gpt-4o"@, "gpt-4o-mini"@, "gpt-4-turbo"@, "o1-mini"@, "o3-mini"@]);
    r.push(p0);
    let mut m1: Vec<&'static str> = Vec::new();
    m1.push("llama-3.3-70b-versatile");
    m1.push("llama-3.1-8b-instant");
    m1.push("mixtral-8x7b-32768");
    m1.push("gemma2-9b-it");
    let p1 = Provider {
        name: "Groq (gratis)",
        base_url: "https://api.groq.com/openai/v1",
        models: m1,
        key_hint: "gsk_...",
    };
    assert(model_views(p1) =~= seq![
        "llama-3.3-70b-versatile"@,
        "llama-3.1-8b-instant"@,
        "mixtral-8x7b-32768"@,
        "gemma2-9b-it"@,
    ]);
    r.push(p1);
    let mut m2: Vec<&'static str> = Vec::new();
    m2.push("codestral-latest");
    m2.push("mistral-large-latest");
    m2.push("mistral-small-latest");
    let p2 = Provider {
        name: "Mistral AI",
        base_url: "https://api.mistral.ai/v1",
        models: m2,
        key_hint: "...",
    };
    assert(model_views(p2) =~= seq!["codestral-latest"@, "mistral-large-latest"@, "mistral-small-latest"@]);
    r.push(p2);
    let mut m3: Vec<&'static str> = Vec::new();
    m3.push("qwen2.5:1.5b");
    m3.push("qwen2.5-coder:1.5b");
    m3.push("qwen2.5-coder:3b");
    m3.push("qwen2.5-coder:7b");
    m3.push("llama3.2:3b");
    m3.push("phi3:mini");
    m3.push("deepseek-coder:1.3b");
    let p3 = Provider {
        name: "Ollama (lokal)",
        base_url: "http://localhost:11434/v1",
        models: m3,
        key_hint: "ollama",
    };
    assert(model_views(p3) =~= seq![
        "qwen2.5:1.5b"@,
        "qwen2.5-coder:1.5b"@,
        "qwen2.5-coder:3b"@,
        "qwen2.5-coder:7b"@,
        "llama3.2:3b"@,
        "phi3:mini"@,
        "deepseek-coder:1.3b"@,
    ]);
    r.push(p3);
    let m4: Vec<&'static str> = Vec::new();
    let p4 = Provider { name: "Anpassad", base_url: "", models: m4, key_hint: "..." };
    assert(model_views(p4) =~= Seq::<Seq<char>>::empty());
    r.push(p4);
    assert(is_preset_at(r@[0], 0));
    assert(is_preset_at(r@[1], 1));
    assert(is_preset_at(r@[2], 2));
    assert(is_preset_at(r@[3], 3));
    assert(is_preset_at(r@[4], 4));
    r
}

/// The settings after choosing a preset.
pub open spec fn with_provider(c: ConfigView, p: Provider) -> ConfigView {
    ConfigView {
        base_url: if p.base_url@.len() == 0 {
            c.base_url
        } else {
            p.base_url@
        },
        model: if p.models@.len() == 0 {
            c.model
        } else {
            p.models@[0]@
        },
        ..c
    }
}

/// Applies a preset: its base URL when it has one, and its first model
/// when it has any; the API key is left as it is.
pub fn apply_provider(cfg: &mut Config, p: &Provider)
    ensures
        final(cfg)@ == with_provider(old(cfg)@, *p),
{
    if !p.base_url.is_empty() {
        cfg.base_url = owned(p.base_url);
    }
    if p.models.len() > 0 {
        cfg.model = owned(p.models[0]);
    }
}

} // verus!
