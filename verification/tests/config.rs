use local_llm::runtime::Runtime;
use local_llm::schema::{
    Config, ConfigError, Defaults, Group, Model, Resources, Server, Storage,
};
use local_llm::swap::{
    build_cmd, build_env, document, generate, is_zero, model_source, model_summaries,
    resolve_model_path,
};

const SAMPLE: &str = r#"
[storage]
models_dir = "/tmp/models"

[[models]]
name = "chat"
hf_repo = "Qwen/Qwen2.5-Coder-32B-Instruct-GGUF"
aliases = ["gpt-4o"]

[[models]]
name = "autocomplete"
path = "tiny.gguf"

[[groups]]
name = "coding"
members = ["chat", "autocomplete"]
"#;

fn text_of(t: &toml::Table, key: &str) -> Option<String> {
    t.get(key).map(|v| v.as_str().unwrap().to_string())
}

fn number_of(t: &toml::Table, key: &str) -> Option<u64> {
    t.get(key).map(|v| u64::try_from(v.as_integer().unwrap()).unwrap())
}

fn small_of(t: &toml::Table, key: &str) -> Option<u32> {
    number_of(t, key).map(|n| u32::try_from(n).unwrap())
}

fn flag_of(t: &toml::Table, key: &str) -> Option<bool> {
    t.get(key).map(|v| v.as_bool().unwrap())
}

fn texts_of(t: &toml::Table, key: &str) -> Vec<String> {
    match t.get(key) {
        Some(v) => v
            .as_array()
            .unwrap()
            .iter()
            .map(|s| s.as_str().unwrap().to_string())
            .collect(),
        None => Vec::new(),
    }
}

fn table_of(t: &toml::Table, key: &str) -> toml::Table {
    match t.get(key) {
        Some(v) => v.as_table().unwrap().clone(),
        None => toml::Table::new(),
    }
}

fn tables_of(t: &toml::Table, key: &str) -> Vec<toml::Table> {
    match t.get(key) {
        Some(v) => v
            .as_array()
            .unwrap()
            .iter()
            .map(|s| s.as_table().unwrap().clone())
            .collect(),
        None => Vec::new(),
    }
}

fn model_of(t: &toml::Table) -> Model {
    Model {
        name: text_of(t, "name").unwrap(),
        description: text_of(t, "description"),
        hf_repo: text_of(t, "hf_repo"),
        hf_file: text_of(t, "hf_file"),
        path: text_of(t, "path"),
        context_size: small_of(t, "context_size"),
        ttl: small_of(t, "ttl"),
        gpu_layers: small_of(t, "gpu_layers"),
        flash_attention: flag_of(t, "flash_attention"),
        aliases: texts_of(t, "aliases"),
        concurrency_limit: small_of(t, "concurrency_limit").unwrap_or(0),
        extra_args: texts_of(t, "extra_args"),
    }
}

fn group_of(t: &toml::Table) -> Group {
    Group {
        name: text_of(t, "name").unwrap(),
        members: texts_of(t, "members"),
        swap: flag_of(t, "swap").unwrap_or(false),
        exclusive: flag_of(t, "exclusive").unwrap_or(false),
    }
}

fn read(text: &str) -> Result<Config, String> {
    let t: toml::Table = match text.parse() {
        Ok(t) => t,
        Err(e) => {
            let e: toml::de::Error = e;
            return Err(e.to_string());
        }
    };
    let st = table_of(&t, "storage");
    let se = table_of(&t, "server");
    let re = table_of(&t, "resources");
    let de = table_of(&t, "defaults");
    let storage = Storage::default();
    let server = Server::default();
    let resources = Resources::default();
    let defaults = Defaults::default();
    Ok(Config {
        storage: Storage {
            models_dir: text_of(&st, "models_dir").unwrap_or(storage.models_dir),
            hf_cache_dir: text_of(&st, "hf_cache_dir").unwrap_or(storage.hf_cache_dir),
            auto_download: flag_of(&st, "auto_download").unwrap_or(storage.auto_download),
        },
        server: Server {
            listen: text_of(&se, "listen").unwrap_or(server.listen),
            metrics: flag_of(&se, "metrics").unwrap_or(server.metrics),
            health_check_timeout: small_of(&se, "health_check_timeout")
                .unwrap_or(server.health_check_timeout),
            log_level: text_of(&se, "log_level").unwrap_or(server.log_level),
            list_aliases: flag_of(&se, "list_aliases").unwrap_or(server.list_aliases),
        },
        resources: Resources {
            vram_budget_mb: number_of(&re, "vram_budget_mb").unwrap_or(resources.vram_budget_mb),
            ram_budget_mb: number_of(&re, "ram_budget_mb").unwrap_or(resources.ram_budget_mb),
            sample_interval: number_of(&re, "sample_interval")
                .unwrap_or(resources.sample_interval),
        },
        defaults: Defaults {
            ttl: small_of(&de, "ttl").unwrap_or(defaults.ttl),
            context_size: small_of(&de, "context_size").unwrap_or(defaults.context_size),
            flash_attention: flag_of(&de, "flash_attention").unwrap_or(defaults.flash_attention),
            gpu_layers: small_of(&de, "gpu_layers").unwrap_or(defaults.gpu_layers),
            extra_args: texts_of(&de, "extra_args"),
        },
        groups: tables_of(&t, "groups").iter().map(group_of).collect(),
        models: tables_of(&t, "models").iter().map(model_of).collect(),
    })
}

fn from_str(text: &str, path: &str) -> Result<Config, ConfigError> {
    Config::from_str(read(text), path)
}

fn reason(text: &str) -> String {
    match from_str(text, "test") {
        Err(ConfigError::Invalid(reason)) => reason,
        other => panic!("unexpected: {:?}", other),
    }
}

fn rt() -> Runtime {
    Runtime {
        config_path: "/etc/local-llm/config.toml".into(),
        runtime_dir: "/run/local-llm".into(),
        llama_server: "/nix/store/x/bin/llama-server".into(),
        arbiter_unit: "local-llm-arbiter.service".into(),
    }
}

#[test]
fn parses_valid_config() {
    let cfg = from_str(SAMPLE, "test").unwrap();
    assert_eq!(cfg.models.len(), 2);
    assert_eq!(cfg.groups.len(), 1);
    assert_eq!(cfg.storage.models_dir, "/tmp/models");
    // Defaults fill in.
    assert_eq!(cfg.defaults.ttl, 300);
}

#[test]
fn rejects_empty_models() {
    let err = from_str("[storage]\nmodels_dir=\"/x\"\n", "test").unwrap_err();
    assert!(matches!(err, ConfigError::Invalid(_)));
}

#[test]
fn rejects_duplicate_alias() {
    let toml = r#"
[[models]]
name = "a"
path = "a.gguf"
aliases = ["dup"]

[[models]]
name = "dup"
path = "b.gguf"
"#;
    let err = from_str(toml, "test").unwrap_err();
    assert!(matches!(err, ConfigError::Invalid(_)));
}

#[test]
fn rejects_unknown_group_member() {
    let toml = r#"
[[models]]
name = "a"
path = "a.gguf"

[[groups]]
name = "g"
members = ["missing"]
"#;
    let err = from_str(toml, "test").unwrap_err();
    assert!(matches!(err, ConfigError::Invalid(_)));
}

#[test]
fn rejects_model_without_source() {
    let toml = r#"
[[models]]
name = "a"
"#;
    let err = from_str(toml, "test").unwrap_err();
    assert!(matches!(err, ConfigError::Invalid(_)));
}

#[test]
fn generates_yaml_with_models_and_groups() {
    let cfg = from_str(
        r#"
[storage]
models_dir = "/data/models"

[[models]]
name = "chat"
hf_repo = "Qwen/Qwen2.5-Coder-32B-Instruct-GGUF"
hf_file = "q4.gguf"
context_size = 32768
aliases = ["gpt-4o"]

[[models]]
name = "local"
path = "tiny.gguf"

[[groups]]
name = "coding"
members = ["chat", "local"]
"#,
        "test",
    )
    .unwrap();

    let gen = generate(&cfg, &rt());
    assert!(gen.yaml.contains("chat:"));
    assert!(gen
        .yaml
        .contains("--hf-repo Qwen/Qwen2.5-Coder-32B-Instruct-GGUF"));
    assert!(gen.yaml.contains("--hf-file q4.gguf"));
    assert!(gen.yaml.contains("--ctx-size 32768"));
    assert!(gen.yaml.contains("${PORT}"));
    assert!(gen.yaml.contains("/data/models/tiny.gguf"));
    assert!(gen.yaml.contains("coding:"));
    assert!(gen.yaml.contains("gpt-4o"));

    assert!(gen.env.contains("LLAMA_CACHE=/data/models"));
    assert!(gen.env.contains("LOCAL_LLM_LISTEN=127.0.0.1:8080"));
}

#[test]
fn absolute_path_preserved() {
    assert_eq!(resolve_model_path("/data", "/abs/x.gguf"), "/abs/x.gguf");
    assert_eq!(resolve_model_path("/data", "rel.gguf"), "/data/rel.gguf");
}

#[test]
fn relative_paths_join_with_one_slash() {
    assert_eq!(resolve_model_path("/data/", "rel.gguf"), "/data/rel.gguf");
    assert_eq!(resolve_model_path("", "rel.gguf"), "rel.gguf");
}

#[test]
fn defaults_are_those_of_the_schema() {
    let cfg = Config::default();
    assert_eq!(cfg.storage.models_dir, "/var/lib/local-llm/models");
    assert_eq!(cfg.storage.hf_cache_dir, "/var/lib/local-llm/hf");
    assert!(cfg.storage.auto_download);
    assert_eq!(cfg.server.listen, "127.0.0.1:8080");
    assert!(cfg.server.metrics);
    assert_eq!(cfg.server.health_check_timeout, 120);
    assert_eq!(cfg.server.log_level, "info");
    assert_eq!(cfg.resources.vram_budget_mb, 0);
    assert_eq!(cfg.resources.ram_budget_mb, 0);
    assert_eq!(cfg.resources.sample_interval, 10);
    assert_eq!(cfg.defaults.ttl, 300);
    assert_eq!(cfg.defaults.context_size, 8192);
    assert!(cfg.defaults.flash_attention);
    assert_eq!(cfg.defaults.gpu_layers, 99);
    assert!(cfg.defaults.extra_args.is_empty());
    assert!(cfg.groups.is_empty());
    assert!(cfg.models.is_empty());
}

#[test]
fn each_error_reads_as_it_should() {
    let err = Config::load(Err("no such file".to_string()), "/x.toml").unwrap_err();
    assert!(matches!(err, ConfigError::Read { .. }));
    assert_eq!(err.message(), "failed to read config /x.toml: no such file");

    let err = from_str("models = [", "/x.toml").unwrap_err();
    assert!(matches!(err, ConfigError::Parse { .. }));
    assert!(err.message().starts_with("failed to parse TOML in /x.toml: "));

    let err = Config::load(Ok(read("")), "/x.toml").unwrap_err();
    assert!(matches!(err, ConfigError::Invalid(_)));
    assert!(err.message().starts_with("invalid configuration: "));
}

#[test]
fn each_rule_has_its_reason() {
    assert_eq!(reason(""), "at least one [[models]] entry is required");
    assert_eq!(
        reason("[[models]]\nname = \" \"\npath = \"a.gguf\"\n"),
        "a model has an empty name"
    );
    assert_eq!(
        reason("[[models]]\nname = \"a\"\npath = \"x\"\n[[models]]\nname = \"a\"\n"),
        "duplicate model name: a"
    );
    assert_eq!(
        reason("[[models]]\nname = \"a\"\n"),
        "model 'a' must set either `hf_repo` or `path`"
    );
    assert_eq!(
        reason("[[models]]\nname = \"a\"\nhf_repo = \"r\"\npath = \"p\"\n"),
        "model 'a' sets both `hf_repo` and `path`; choose one"
    );
    assert_eq!(
        reason("[[models]]\nname = \"a\"\npath = \"p\"\naliases = [\"b\", \"a\"]\n"),
        "name/alias 'a' is used more than once"
    );
    let model = "[[models]]\nname = \"a\"\npath = \"p\"\naliases = [\"b\"]\n";
    let group = "[[groups]]\nname = \"g\"\nmembers = [\"a\"]\n";
    assert_eq!(
        reason(&format!("{}{}{}", model, group, group)),
        "duplicate group name: g"
    );
    // An alias is no model.
    assert_eq!(
        reason(&format!("{}[[groups]]\nname = \"g\"\nmembers = [\"a\", \"b\"]\n", model)),
        "group 'g' references unknown model 'b'"
    );
    assert_eq!(
        reason(&format!("[server]\nlisten = \"nowhere\"\n{}", model)),
        "server.listen 'nowhere' is not a valid host:port"
    );
}

#[test]
fn listen_addresses_are_told_apart() {
    let verdict = |listen: &str| {
        let mut cfg = read(SAMPLE).unwrap();
        cfg.server.listen = listen.to_string();
        cfg.validate().is_ok()
    };
    for good in ["127.0.0.1:8080", "0.0.0.0:0", "255.255.255.255:65535", "[::1]:80", ":8080", ":"] {
        assert!(verdict(good), "{}", good);
    }
    for bad in ["", "nowhere", "localhost:80", "127.0.0.1", "256.0.0.1:80", "1.2.3.4:65536", "[::1:80"] {
        assert!(!verdict(bad), "{}", bad);
    }
}

#[test]
fn validity_is_what_from_str_accepts() {
    let cfg = read(SAMPLE).unwrap();
    assert!(cfg.validate().is_ok());
    assert!(cfg.validate_given(true).is_ok());
    assert!(matches!(
        cfg.validate_given(false),
        Err(ConfigError::Invalid(_))
    ));
    assert!(Config::from_str(Ok(cfg), "test").is_ok());
}

#[test]
fn model_settings_fall_back_to_defaults() {
    let cfg = from_str(
        r#"
[defaults]
ttl = 5
context_size = 6
gpu_layers = 7
flash_attention = false

[[models]]
name = "plain"
path = "a.gguf"

[[models]]
name = "own"
path = "b.gguf"
ttl = 15
context_size = 16
gpu_layers = 17
flash_attention = true
"#,
        "test",
    )
    .unwrap();
    let plain = &cfg.models[0];
    assert_eq!(cfg.model_ttl(plain), 5);
    assert_eq!(cfg.model_context(plain), 6);
    assert_eq!(cfg.model_gpu_layers(plain), 7);
    assert!(!cfg.model_flash_attention(plain));
    let own = &cfg.models[1];
    assert_eq!(cfg.model_ttl(own), 15);
    assert_eq!(cfg.model_context(own), 16);
    assert_eq!(cfg.model_gpu_layers(own), 17);
    assert!(cfg.model_flash_attention(own));
}

#[test]
fn commands_are_exact() {
    let cfg = from_str(
        r#"
[defaults]
extra_args = ["--threads", "8"]

[[models]]
name = "chat"
hf_repo = "Qwen/X"
hf_file = "it's.gguf"
extra_args = ["a b", ""]

[[models]]
name = "local"
path = "tiny.gguf"
flash_attention = false
"#,
        "test",
    )
    .unwrap();
    assert_eq!(
        build_cmd(&cfg, &rt(), &cfg.models[0]),
        "/nix/store/x/bin/llama-server --port ${PORT} --host 127.0.0.1 --hf-repo Qwen/X \
         --hf-file 'it'\\''s.gguf' --ctx-size 8192 --n-gpu-layers 99 --flash-attn on \
         --threads 8 'a b' ''"
    );
    assert_eq!(
        build_cmd(&cfg, &rt(), &cfg.models[1]),
        "/nix/store/x/bin/llama-server --port ${PORT} --host 127.0.0.1 \
         --model /var/lib/local-llm/models/tiny.gguf --ctx-size 8192 --n-gpu-layers 99 \
         --threads 8"
    );
    assert_eq!(model_source(&cfg, &cfg.models[0]), "hf:Qwen/X/it's.gguf");
    assert_eq!(
        model_source(&cfg, &cfg.models[1]),
        "/var/lib/local-llm/models/tiny.gguf"
    );
}

#[test]
fn yaml_is_exact() {
    let cfg = from_str(
        r#"
[[models]]
name = "b"
path = "/m/b.gguf"
ttl = 7
concurrency_limit = 2
description = "second"
aliases = ["x", "y"]
flash_attention = false

[[models]]
name = "a"
path = "/m/a.gguf"
flash_attention = false

[[groups]]
name = "g"
members = ["b", "a"]
swap = true
"#,
        "test",
    )
    .unwrap();
    let runtime = Runtime { llama_server: "llama-server".into(), ..rt() };
    assert_eq!(
        generate(&cfg, &runtime).yaml,
        "# Generated by local-llm-resourced from /etc/local-llm/config.toml.\n\
# Do not edit by hand; run `local-llm configure` instead.\n\
healthCheckTimeout: 120\n\
logLevel: info\n\
startPort: 9800\n\
includeAliasesInList: false\n\
models:\n\
\u{20}\u{20}a:\n\
\u{20}\u{20}\u{20}\u{20}cmd: llama-server --port ${PORT} --host 127.0.0.1 --model /m/a.gguf --ctx-size 8192 --n-gpu-layers 99\n\
\u{20}\u{20}\u{20}\u{20}name: a\n\
\u{20}\u{20}\u{20}\u{20}ttl: 300\n\
\u{20}\u{20}b:\n\
\u{20}\u{20}\u{20}\u{20}cmd: llama-server --port ${PORT} --host 127.0.0.1 --model /m/b.gguf --ctx-size 8192 --n-gpu-layers 99\n\
\u{20}\u{20}\u{20}\u{20}name: b\n\
\u{20}\u{20}\u{20}\u{20}description: second\n\
\u{20}\u{20}\u{20}\u{20}aliases:\n\
\u{20}\u{20}\u{20}\u{20}- x\n\
\u{20}\u{20}\u{20}\u{20}- y\n\
\u{20}\u{20}\u{20}\u{20}ttl: 7\n\
\u{20}\u{20}\u{20}\u{20}concurrencyLimit: 2\n\
groups:\n\
\u{20}\u{20}g:\n\
\u{20}\u{20}\u{20}\u{20}swap: true\n\
\u{20}\u{20}\u{20}\u{20}exclusive: false\n\
\u{20}\u{20}\u{20}\u{20}members:\n\
\u{20}\u{20}\u{20}\u{20}- b\n\
\u{20}\u{20}\u{20}\u{20}- a\n"
    );
}

#[test]
fn yaml_reads_back_with_every_model_and_group() {
    let cfg = from_str(SAMPLE, "test").unwrap();
    let gen = generate(&cfg, &rt());
    let doc: serde_yaml::Value = serde_yaml::from_str(&gen.yaml).unwrap();
    let models = doc.get("models").unwrap();
    assert_eq!(
        models.get("chat").unwrap().get("cmd").unwrap().as_str().unwrap(),
        build_cmd(&cfg, &rt(), &cfg.models[0])
    );
    assert_eq!(
        models.get("autocomplete").unwrap().get("name").unwrap().as_str(),
        Some("autocomplete")
    );
    let members = doc.get("groups").unwrap().get("coding").unwrap().get("members").unwrap();
    assert_eq!(members.as_sequence().unwrap().len(), 2);
    assert!(doc.get("groups").unwrap().get("coding").unwrap().get("swap").unwrap().as_bool() == Some(false));
}

#[test]
fn groups_are_left_out_where_there_are_none() {
    let cfg = from_str("[[models]]\nname = \"a\"\npath = \"a\"\n", "test").unwrap();
    assert!(!generate(&cfg, &rt()).yaml.contains("groups"));
}

#[test]
fn environment_is_exact() {
    let mut cfg = Config::default();
    assert_eq!(
        build_env(&cfg),
        "# Generated by local-llm-resourced. Do not edit by hand.\n\
         LOCAL_LLM_LISTEN=127.0.0.1:8080\n\
         LLAMA_CACHE=/var/lib/local-llm/models\n\
         HF_HOME=/var/lib/local-llm/hf\n\
         HF_HUB_CACHE=/var/lib/local-llm/hf\n"
    );
    cfg.storage.auto_download = false;
    assert!(build_env(&cfg).ends_with("HF_HUB_CACHE=/var/lib/local-llm/hf\nHF_HUB_OFFLINE=1\n"));
}

#[test]
fn summaries_follow_the_configuration() {
    let cfg = from_str(SAMPLE, "test").unwrap();
    let all = model_summaries(&cfg);
    assert_eq!(
        all,
        vec![
            (
                "chat".to_string(),
                "hf:Qwen/Qwen2.5-Coder-32B-Instruct-GGUF".to_string(),
                vec!["gpt-4o".to_string()],
                300,
            ),
            (
                "autocomplete".to_string(),
                "/tmp/models/tiny.gguf".to_string(),
                Vec::new(),
                300,
            ),
        ]
    );
}

#[test]
fn document_holds_the_settings_in_order() {
    let mut cfg = from_str(SAMPLE, "test").unwrap();
    cfg.server.list_aliases = true;
    cfg.server.health_check_timeout = 9;
    let doc = document(&cfg, &rt());
    let keys: Vec<&str> = doc.keys().map(|k| k.as_str().unwrap()).collect();
    assert_eq!(
        keys,
        vec![
            "healthCheckTimeout",
            "logLevel",
            "startPort",
            "includeAliasesInList",
            "models",
            "groups",
        ]
    );
    assert_eq!(doc.get("healthCheckTimeout").unwrap().as_u64(), Some(9));
    assert_eq!(doc.get("logLevel").unwrap().as_str(), Some("info"));
    assert_eq!(doc.get("startPort").unwrap().as_u64(), Some(9800));
    assert_eq!(doc.get("includeAliasesInList").unwrap().as_bool(), Some(true));
    let models: Vec<&str> = doc
        .get("models")
        .unwrap()
        .as_mapping()
        .unwrap()
        .keys()
        .map(|k| k.as_str().unwrap())
        .collect();
    assert_eq!(models, vec!["autocomplete", "chat"]);
    assert!(is_zero(&0) && !is_zero(&1));
}

#[test]
fn order_of_entries_does_not_matter() {
    let cfg = from_str(
        r#"
[[models]]
name = "b"
path = "b.gguf"
aliases = ["x"]

[[models]]
name = "a"
hf_repo = "r/a"

[[groups]]
name = "h"
members = ["a"]

[[groups]]
name = "g"
members = ["b", "a"]
"#,
        "test",
    )
    .unwrap();
    let mut turned = cfg.clone();
    turned.models.reverse();
    turned.groups.reverse();
    assert!(turned.validate().is_ok());
    let (one, other) = (generate(&cfg, &rt()), generate(&turned, &rt()));
    assert_eq!(one.yaml, other.yaml);
    assert_eq!(one.env, other.env);

    let mut faulty = cfg;
    faulty.groups[0].members.push("missing".to_string());
    assert!(faulty.validate().is_err());
    faulty.models.reverse();
    faulty.groups.reverse();
    assert!(faulty.validate().is_err());
}
