use local_llm::cli::{
    logs, models_list, models_running, reload, run, status, status_text, systemctl, validate,
    validate_locally, Cmd, LogTarget, ModelsAction, Reloading, Task, Validation,
};
use local_llm::client::{connect_context, reply};
use local_llm::configure::{self, accepts, answer, can_write, editor, prompt_yes_no, WriteTest};
use local_llm::daemon::{
    after_change, burst_left, burst_touches, event_touches, initial_message, log, restart_message,
    start_message, watch_dir, watch_message, Event, Restart,
};
use local_llm::runtime::{
    GpuStatus, MemStatus, ModelStatus, Request, Response, Runtime, StatusReport,
};
use local_llm::schema::{Config, Group, Model};
use local_llm::server::{self, frame, handle, Action};
use local_llm::state::{Failure, SharedState, Written};

fn model(name: &str) -> Model {
    Model {
        name: name.to_string(),
        description: None,
        hf_repo: None,
        hf_file: None,
        path: Some(format!("{}.gguf", name)),
        context_size: None,
        ttl: None,
        gpu_layers: None,
        flash_attention: None,
        aliases: Vec::new(),
        concurrency_limit: 0,
        extra_args: Vec::new(),
    }
}

fn config() -> Config {
    let mut chat = model("chat");
    chat.aliases = vec!["gpt-4o".to_string()];
    Config {
        models: vec![chat, model("tiny")],
        groups: vec![Group {
            name: "coding".to_string(),
            members: vec!["chat".to_string()],
            swap: false,
            exclusive: false,
        }],
        ..Config::default()
    }
}

fn file(config: Config) -> Result<Result<Config, String>, String> {
    Ok(Ok(config))
}

fn unreadable() -> Result<Result<Config, String>, String> {
    Err("gone".to_string())
}

const UNREADABLE: &str = "failed to read config /etc/local-llm/config.toml: gone";

fn rt() -> Runtime {
    Runtime::from_env(None, None, None, None)
}

fn failure(cause: Option<&str>) -> Failure {
    Failure { message: "m".to_string(), cause: cause.map(|c| c.to_string()) }
}

#[test]
fn new_state_knows_nothing() {
    let state = SharedState::new(rt());
    assert_eq!(state.listen(), "127.0.0.1:8080");
    assert_eq!(state.sample_interval(), 10);
    let report = state.status(vec!["x".to_string()]);
    assert_eq!(report.config_path, "/etc/local-llm/config.toml");
    assert!(!report.config_valid);
    assert!(report.config_error.is_none());
    assert_eq!(report.listen, "");
    assert!(report.models.is_empty());
    assert!(report.groups.is_empty());
    assert!(report.gpus.is_empty());
    assert!(report.ram.is_none());
    assert_eq!(report.running, vec!["x".to_string()]);
}

#[test]
fn config_settles_after_one_change() {
    let mut state = SharedState::new(rt());
    let pending = state.regenerate(file(config())).ok().unwrap();
    assert!(pending.changed);
    assert!(state.inner.config.is_none());
    assert_eq!(state.commit(pending, Written::Both).ok(), Some(true));

    let pending = state.regenerate(file(config())).ok().unwrap();
    assert!(!pending.changed);
    assert_eq!(state.commit(pending, Written::Both).ok(), Some(false));

    let mut other = config();
    other.defaults.ttl = 7;
    let pending = state.regenerate(file(other)).ok().unwrap();
    assert_eq!(state.commit(pending, Written::Both).ok(), Some(true));
    assert_eq!(state.status(Vec::new()).models[0].ttl, 7);
}

#[test]
fn refused_config_keeps_the_previous() {
    let mut state = SharedState::new(rt());
    let pending = state.regenerate(file(config())).ok().unwrap();
    assert!(state.commit(pending, Written::Both).is_ok());
    let yaml = state.inner.last_yaml.clone();

    let refused = state.regenerate(unreadable()).err().unwrap();
    assert_eq!(refused.message, UNREADABLE);
    assert_eq!(refused.detail(), UNREADABLE);
    assert_eq!(state.inner.last_yaml, yaml);
    let report = state.status(Vec::new());
    assert!(!report.config_valid);
    assert_eq!(report.config_error.as_deref(), Some(UNREADABLE));
    assert_eq!(report.models.len(), 2);
    assert_eq!(report.listen, "127.0.0.1:8080");

    let pending = state.regenerate(file(config())).ok().unwrap();
    assert_eq!(state.commit(pending, Written::Both).ok(), Some(false));
    assert!(state.status(Vec::new()).config_valid);
}

#[test]
fn errors_stand_until_a_config_is_in_force() {
    let mut state = SharedState::new(rt());
    let error = |s: &SharedState| s.inner.config_error.clone();
    assert!(state.regenerate(file(Config::default())).is_err());
    assert!(state.regenerate(unreadable()).is_err());
    assert_eq!(error(&state).as_deref(), Some(UNREADABLE));

    let pending = state.regenerate(file(config())).ok().unwrap();
    assert_eq!(error(&state).as_deref(), Some(UNREADABLE));
    assert!(state.commit(pending, Written::NoEnvFile("full".to_string())).is_err());
    assert_eq!(error(&state).as_deref(), Some(UNREADABLE));
    state.set_samples(Vec::new(), None);

    let pending = state.regenerate(file(config())).ok().unwrap();
    assert!(state.commit(pending, Written::Both).is_ok());
    assert!(error(&state).is_none());
    assert_eq!(state.inner.config.as_ref().unwrap().models.len(), 2);
}

#[test]
fn failed_writes_change_nothing() {
    let mut state = SharedState::new(rt());
    let pending = state.regenerate(file(config())).ok().unwrap();
    let f = state.commit(pending, Written::NoSwapConfig("full".to_string())).err().unwrap();
    assert_eq!(f.message, "writing llama-swap config");
    assert_eq!(f.detail(), "writing llama-swap config: full");
    assert!(state.inner.config.is_none());

    let pending = state.regenerate(file(config())).ok().unwrap();
    let f = state.commit(pending, Written::NoEnvFile("full".to_string())).err().unwrap();
    assert_eq!(f.detail(), "writing arbiter env file: full");
    assert!(state.inner.last_yaml.is_none());
}

#[test]
fn status_marks_running_models() {
    let mut state = SharedState::new(rt());
    let pending = state.regenerate(file(config())).ok().unwrap();
    assert!(state.commit(pending, Written::Both).is_ok());
    state.set_samples(
        vec![GpuStatus {
            index: 1,
            name: "G".to_string(),
            vendor: "amd".to_string(),
            memory_total_mb: 2,
            memory_used_mb: 1,
            utilization_pct: None,
        }],
        Some(MemStatus { total_mb: 4, used_mb: 3 }),
    );
    let report = state.status(vec!["gpt-4o".to_string()]);
    assert!(report.config_valid);
    assert!(report.models[0].running);
    assert!(!report.models[1].running);
    assert_eq!(report.models[0].ttl, 300);
    assert_eq!(report.models[1].source, "/var/lib/local-llm/models/tiny.gguf");
    assert_eq!(report.groups, vec!["coding".to_string()]);
    assert_eq!(report.gpus[0].name, "G");
    assert_eq!(report.ram, Some(MemStatus { total_mb: 4, used_mb: 3 }));
    assert!(state.status(vec!["tiny".to_string()]).models[1].running);
}

#[test]
fn sampling_waits_at_least_a_second() {
    let mut state = SharedState::new(rt());
    let mut cfg = config();
    cfg.resources.sample_interval = 0;
    state.inner.config = Some(cfg.clone());
    assert_eq!(state.sample_interval(), 1);
    cfg.resources.sample_interval = 30;
    cfg.server.listen = ":9".to_string();
    state.inner.config = Some(cfg);
    assert_eq!(state.sample_interval(), 30);
    assert_eq!(state.listen(), ":9");
}

#[test]
fn state_validates_without_applying() {
    let state = SharedState::new(rt());
    assert!(state.validate(file(config())).is_ok());
    assert_eq!(state.validate(unreadable()), Err(UNREADABLE.to_string()));
    assert_eq!(
        state.validate(file(Config::default())),
        Err("invalid configuration: at least one [[models]] entry is required".to_string())
    );
}

#[test]
fn events_are_matched_by_name() {
    let name = b"config.toml".to_vec();
    let event = |names: Vec<Option<&[u8]>>| -> Result<Event, String> {
        Ok(Event { names: names.into_iter().map(|n| n.map(|b| b.to_vec())).collect() })
    };
    let ours = event(vec![Some(b"x"), Some(b"config.toml")]);
    let other = event(vec![Some(b"config.tom"), Some(b"config.toml~"), None]);
    let failed: Result<Event, String> = Err("e".to_string());
    assert!(event_touches(&ours, Some(&name)));
    assert!(!event_touches(&other, Some(&name)));
    assert!(!event_touches(&event(Vec::new()), Some(&name)));
    assert!(event_touches(&event(Vec::new()), None));
    assert!(!event_touches(&failed, None));
    assert!(burst_touches(&vec![other, failed, ours], Some(&name)));
    assert!(!burst_touches(&vec![event(vec![None])], Some(&name)));
    assert!(!burst_touches(&Vec::new(), None));
}

#[test]
fn bursts_are_collected_for_a_moment() {
    assert_eq!(burst_left(0), 400);
    assert_eq!(burst_left(399), 1);
    assert_eq!(burst_left(400), 0);
    assert_eq!(burst_left(u64::MAX), 0);
}

#[test]
fn changes_restart_the_arbiter_only_where_needed() {
    let r = after_change(&Ok(true));
    assert!(r.restart);
    assert_eq!(r.message, "config changed; restarting arbiter");
    let r = after_change(&Ok(false));
    assert!(!r.restart);
    assert_eq!(r.message, "config unchanged after regeneration");
    let r = after_change(&Err(failure(Some("c"))));
    assert!(!r.restart);
    assert_eq!(r.message, "config invalid, keeping previous: m: c");
}

#[test]
fn daemon_messages() {
    assert_eq!(log("hi"), "[resourced] hi");
    assert_eq!(
        start_message(&rt()),
        "starting; config=/etc/local-llm/config.toml runtime_dir=/run/local-llm"
    );
    assert_eq!(initial_message(&Ok(true)), "generated initial arbiter config");
    assert_eq!(
        initial_message(&Err(failure(None))),
        "WARNING: initial config invalid: m"
    );
    assert_eq!(watch_dir(None), "/etc/local-llm");
    assert_eq!(watch_dir(Some("/x".to_string())), "/x");
    assert_eq!(watch_message("/x", None), "watching /x for changes");
    assert_eq!(
        watch_message("/x", Some("e")),
        "WARNING: cannot watch /x (e); live reload disabled"
    );
    let unit = "local-llm-arbiter.service";
    assert_eq!(restart_message(&rt(), &Restart::Succeeded), format!("restarted {}", unit));
    assert_eq!(
        restart_message(&rt(), &Restart::Exited("exit status: 1".to_string())),
        format!("systemctl restart {} exited with exit status: 1", unit)
    );
    assert_eq!(
        restart_message(&rt(), &Restart::NotRun("e".to_string())),
        format!("failed to run systemctl restart {}: e", unit)
    );
}

fn answered(event: server::Event) -> (String, bool) {
    match handle(event) {
        Action::Respond { response: Response::Done { message }, restart } => {
            (format!("done: {}", message), restart)
        }
        Action::Respond { response: Response::Error { message }, restart } => {
            (format!("error: {}", message), restart)
        }
        _ => panic!("no answer"),
    }
}

#[test]
fn requests_are_handled() {
    assert!(matches!(handle(server::Event::Line(" \n".to_string())), Action::Close));
    let Action::Parse(text) = handle(server::Event::Line(" {} \n".to_string())) else {
        panic!("not parsed");
    };
    assert_eq!(text, "{}");
    assert!(matches!(handle(server::Event::Parsed(Ok(Request::Status))), Action::Report));
    assert!(matches!(handle(server::Event::Parsed(Ok(Request::Validate))), Action::Validate));
    assert!(matches!(handle(server::Event::Parsed(Ok(Request::Reload))), Action::Regenerate));
    assert_eq!(
        answered(server::Event::Parsed(Err("bad".to_string()))),
        ("error: invalid request: bad".to_string(), false)
    );
    assert_eq!(
        answered(server::Event::Validated(Ok(()))),
        ("done: configuration is valid".to_string(), false)
    );
    assert_eq!(
        answered(server::Event::Validated(Err("no".to_string()))),
        ("error: no".to_string(), false)
    );
    assert_eq!(
        answered(server::Event::Regenerated(Ok(false))),
        ("done: reloaded; arbiter restarting".to_string(), true)
    );
    assert_eq!(
        answered(server::Event::Regenerated(Err(failure(Some("c"))))),
        ("error: m".to_string(), false)
    );
    let report = StatusReport { config_path: "/p".to_string(), ..StatusReport::default() };
    let Action::Respond { response: Response::Status(s), restart: false } =
        handle(server::Event::Reported(report))
    else {
        panic!("no status");
    };
    assert_eq!(s.config_path, "/p");
    let Action::Send(line) = handle(server::Event::Encoded("{}".to_string())) else {
        panic!("not sent");
    };
    assert_eq!(line, "{}\n");
}

#[test]
fn refused_reload_is_answered_with_its_error() {
    let mut state = SharedState::new(rt());
    let refused = state.regenerate(unreadable()).err().unwrap();
    assert_eq!(
        answered(server::Event::Regenerated(Err(refused))),
        (format!("error: {}", UNREADABLE), false)
    );
}

#[test]
fn validation_is_answered_with_its_outcome() {
    let state = SharedState::new(rt());
    assert_eq!(
        answered(server::Event::Validated(state.validate(file(config())))),
        ("done: configuration is valid".to_string(), false)
    );
    assert_eq!(
        answered(server::Event::Validated(state.validate(unreadable()))),
        (format!("error: {}", UNREADABLE), false)
    );
}

#[test]
fn replies_are_lines() {
    assert_eq!(reply(&frame("{\"a\":1}".to_string())), Ok("{\"a\":1}".to_string()));
    assert_eq!(reply("\n"), Err("empty response from resourced".to_string()));
    assert_eq!(
        connect_context("/s"),
        "connecting to resourced at /s (is local-llm-resourced.service running?)"
    );
}

fn words(args: &[&str]) -> Vec<String> {
    args.iter().map(|a| a.to_string()).collect()
}

const RESOURCED: &str = "local-llm-resourced.service";
const ARBITER: &str = "local-llm-arbiter.service";

#[test]
fn commands_come_down_to_tasks() {
    let systemctl_args = |cmd: Cmd| match run(cmd) {
        Task::Systemctl(args) => args,
        _ => panic!("not systemctl"),
    };
    assert_eq!(systemctl_args(Cmd::Start), words(&["start", RESOURCED, ARBITER]));
    assert_eq!(systemctl_args(Cmd::Stop), words(&["stop", ARBITER, RESOURCED]));
    assert_eq!(systemctl_args(Cmd::Restart), words(&["restart", RESOURCED, ARBITER]));
    assert!(matches!(run(Cmd::Configure), Task::Configure));
    assert!(matches!(run(Cmd::Status { json: true }), Task::Status { json: true }));
    assert!(matches!(run(Cmd::Validate), Task::Validate));
    assert!(matches!(run(Cmd::Reload), Task::Reload));
    assert!(matches!(run(Cmd::Models { action: None }), Task::ListModels));
    assert!(matches!(
        run(Cmd::Models { action: Some(ModelsAction::List) }),
        Task::ListModels
    ));
    assert!(matches!(
        run(Cmd::Models { action: Some(ModelsAction::Running) }),
        Task::RunningModels
    ));
    let Task::Journalctl(args) = run(Cmd::Logs { follow: true, unit: LogTarget::Arbiter }) else {
        panic!("not journalctl");
    };
    assert_eq!(args, words(&["--no-pager", "--unit=local-llm-arbiter.service", "-f"]));
}

#[test]
fn log_arguments() {
    assert_eq!(
        logs(false, LogTarget::All),
        words(&[
            "--no-pager",
            "--unit=local-llm-resourced.service",
            "--unit=local-llm-arbiter.service",
            "-n",
            "100",
        ])
    );
    assert_eq!(
        logs(true, LogTarget::Resourced),
        words(&["--no-pager", "--unit=local-llm-resourced.service", "-f"])
    );
}

#[test]
fn systemctl_failures_name_the_arguments() {
    assert_eq!(systemctl(&words(&["start", "a"]), true), Ok(()));
    assert_eq!(
        systemctl(&words(&["start", "a"]), false),
        Err("systemctl start a failed".to_string())
    );
}

fn done(message: &str) -> Response {
    Response::Done { message: message.to_string() }
}

fn error(message: &str) -> Response {
    Response::Error { message: message.to_string() }
}

fn report() -> StatusReport {
    StatusReport {
        config_path: "/c".to_string(),
        config_valid: true,
        config_error: None,
        listen: "h:1".to_string(),
        models: vec![
            ModelStatus {
                name: "chat".to_string(),
                source: "hf:r".to_string(),
                aliases: words(&["a", "b"]),
                ttl: 300,
                running: true,
            },
            ModelStatus {
                name: "tiny".to_string(),
                source: "/t".to_string(),
                aliases: Vec::new(),
                ttl: 0,
                running: false,
            },
        ],
        groups: words(&["g", "h"]),
        gpus: vec![
            GpuStatus {
                index: 0,
                name: "G".to_string(),
                vendor: "nvidia".to_string(),
                memory_total_mb: 20,
                memory_used_mb: 10,
                utilization_pct: Some(5),
            },
            GpuStatus {
                index: 1,
                name: "H".to_string(),
                vendor: "amd".to_string(),
                memory_total_mb: 2,
                memory_used_mb: 1,
                utilization_pct: None,
            },
        ],
        ram: Some(MemStatus { total_mb: 64, used_mb: 32 }),
        running: words(&["chat"]),
    }
}

#[test]
fn status_is_printed() {
    assert_eq!(
        status_text(&report()),
        "Config:   /c\n\
         Status:   valid\n\
         Endpoint: http://h:1/v1 (OpenAI), http://h:1/ (Anthropic)\n\
         \nModels:\n\
         \u{20} [*] chat             ttl=300s  hf:r  aliases: a, b\n\
         \u{20} [ ] tiny             ttl=0s  /t\n\
         \nGroups:   g, h\n\
         \nGPUs:\n\
         \u{20} [0] G (nvidia): 10 / 20 MB VRAM, util 5%\n\
         \u{20} [1] H (amd): 1 / 2 MB VRAM, util ?\n\
         \nRAM:      32 / 64 MB\n"
    );
    let mut empty = StatusReport::default();
    assert_eq!(
        status_text(&empty),
        "Config:   \nStatus:   INVALID\n\nModels:\n  (none configured)\n\nGPUs:\n  \
         (none detected; CPU mode or no GPU tools available)\n"
    );
    empty.config_error = Some("why".to_string());
    assert!(status_text(&empty).contains("Status:   INVALID (why)\n"));
}

#[test]
fn status_needs_a_report() {
    assert_eq!(status(Response::Status(report())).unwrap().listen, "h:1");
    assert_eq!(status(error("e")).unwrap_err(), "e");
    assert_eq!(status(done("d")).unwrap_err(), "unexpected response: d");
}

#[test]
fn validation_prefers_the_daemon() {
    assert!(matches!(validate(Some(done("d"))), Validation::Print(m) if m == "d"));
    assert!(matches!(validate(Some(error("e"))), Validation::Fail(m) if m == "e"));
    assert!(matches!(
        validate(Some(Response::Status(report()))),
        Validation::Fail(m) if m == "unexpected response from resourced"
    ));
    assert!(matches!(validate(None), Validation::Locally));
    assert_eq!(
        validate_locally(file(config()), "/c"),
        Ok("configuration is valid.".to_string())
    );
    assert_eq!(
        validate_locally(unreadable(), "/c"),
        Err("failed to read config /c: gone".to_string())
    );
}

#[test]
fn reloading_falls_back_to_systemctl() {
    assert!(matches!(reload(Ok(done("d"))), Reloading::Print(m) if m == "d"));
    assert!(matches!(reload(Ok(error("e"))), Reloading::Fail(m) if m == "e"));
    assert!(matches!(
        reload(Ok(Response::Status(report()))),
        Reloading::Fail(m) if m == "unexpected response from resourced"
    ));
    let Reloading::Fallback { notice, args } = reload(Err("off".to_string())) else {
        panic!("no fallback");
    };
    assert_eq!(notice, "could not reach resourced (off); falling back to systemctl");
    assert_eq!(args, words(&["restart", RESOURCED, ARBITER]));
}

#[test]
fn models_are_listed() {
    let mut cfg = config();
    cfg.models[1].path = None;
    cfg.models[1].hf_repo = Some("r/x".to_string());
    assert_eq!(
        models_list(file(cfg), "/c"),
        Ok("chat             chat.gguf\n    aliases: gpt-4o\ntiny             r/x\n\n\
            Edit models with `local-llm configure`.\n"
            .to_string())
    );
    assert_eq!(
        models_list(unreadable(), "/c"),
        Err("failed to read config /c: gone".to_string())
    );
    let mut r = report();
    assert_eq!(models_running(&Response::Status(r.clone())), "chat\n");
    r.running = Vec::new();
    assert_eq!(models_running(&Response::Status(r)), "(no models currently loaded)\n");
    assert_eq!(models_running(&done("d")), "");
}

#[test]
fn answers_ignore_case_and_whitespace() {
    for yes in ["y", "Y\n", " yes ", "YES\n", "yEs"] {
        assert!(answer(yes, false));
    }
    for no in ["n", "no\n", "yess", "yy", "\u{130}"] {
        assert!(!answer(no, true));
    }
    assert!(answer(" \n", true));
    assert!(!answer("", false));
    assert!(accepts("", true));
    assert!(accepts("yes", false));
    assert!(!accepts("Y", true));
    assert_eq!(prompt_yes_no("Go?", true), "Go? [Y/n] ");
    assert_eq!(prompt_yes_no("Go?", false), "Go? [y/N] ");
}

#[test]
fn editors_are_chosen() {
    let some = |s: &str| Some(s.to_string());
    assert_eq!(editor(some("v"), some("e")), "v");
    assert_eq!(editor(None, some("e")), "e");
    assert_eq!(editor(None, None), "nano");
}

#[test]
fn writability_is_tested() {
    assert!(matches!(can_write(true, Some("/d")), WriteTest::Open));
    assert!(matches!(
        can_write(false, Some("/d")),
        WriteTest::Create(p) if p == "/d/.local-llm-write-test"
    ));
    assert!(matches!(can_write(false, None), WriteTest::Refused));
}

#[test]
fn configuring_goes_step_by_step() {
    let step = |event: configure::Event| configure::configure("/c", event);
    assert!(matches!(
        step(configure::Event::Writable(false)),
        configure::Action::Escalate(t) if t == "Editing /c requires root; re-running under sudo..."
    ));
    assert!(matches!(step(configure::Event::Writable(true)), configure::Action::CheckExists));
    assert!(matches!(
        step(configure::Event::Exists(false)),
        configure::Action::Fail(t)
            if t == "config not found at /c (is the local-llm NixOS module enabled?)"
    ));
    assert!(matches!(step(configure::Event::Exists(true)), configure::Action::Edit));
    assert!(matches!(
        step(configure::Event::Edited(false)),
        configure::Action::Warn(l)
            if l == words(&["editor exited without success; leaving config unchanged"])
    ));
    assert!(matches!(step(configure::Event::Edited(true)), configure::Action::Load));
    assert!(matches!(
        step(configure::Event::Loaded(unreadable())),
        configure::Action::Warn(l) if l == words(&[
            "warning: configuration is INVALID: failed to read config /c: gone",
            "the arbiter will keep using the last valid config until fixed.",
        ])
    ));
    assert!(matches!(
        step(configure::Event::Loaded(file(config()))),
        configure::Action::CheckTerminal(t) if t == "configuration is valid."
    ));
    let later = "Run `local-llm reload` when you're ready to apply changes.";
    assert!(matches!(
        step(configure::Event::Terminal(false)),
        configure::Action::Later(t) if t == later
    ));
    assert!(matches!(
        step(configure::Event::Terminal(true)),
        configure::Action::Ask(t) if t == "Apply changes now (reload)? [Y/n] "
    ));
    assert!(matches!(
        step(configure::Event::Answered("\n".to_string())),
        configure::Action::Reload
    ));
    assert!(matches!(
        step(configure::Event::Answered("n\n".to_string())),
        configure::Action::Later(t) if t == later
    ));
}
