//! What the `local-llm` command decides and prints.

use crate::runtime::{GpuStatus, MemStatus, ModelStatus, Response, StatusReport};
use crate::schema::{loaded, opt_text, Config, Model};
use crate::text::{decimal, join, joined, pad, padded, push_text, texts, to_decimal};
use vstd::prelude::*;

verus! {

pub const RESOURCED_UNIT: &'static str = "local-llm-resourced.service";

pub const ARBITER_UNIT: &'static str = "local-llm-arbiter.service";

/// The commands.
#[derive(Clone, Copy)]
pub enum Cmd {
    /// Open the configuration in your editor (nano by default), then validate.
    Configure,
    /// Show service, model and resource status.
    Status { json: bool },
    /// Validate the configuration without applying it.
    Validate,
    /// Apply config changes: regenerate the arbiter config and restart it.
    Reload,
    /// Start both local-llm services.
    Start,
    /// Stop both local-llm services.
    Stop,
    /// Restart both local-llm services.
    Restart,
    /// Tail the service logs.
    Logs { follow: bool, unit: LogTarget },
    /// Inspect configured models.
    Models { action: Option<ModelsAction> },
}

/// Which service's logs to show.
#[derive(Clone, Copy)]
pub enum LogTarget {
    All,
    Arbiter,
    Resourced,
}

#[derive(Clone, Copy)]
pub enum ModelsAction {
    /// List configured models (default).
    List,
    /// Show which models are currently loaded.
    Running,
}

/// What a command comes down to.
pub enum Task {
    Configure,
    Status { json: bool },
    Validate,
    Reload,
    /// Run systemctl with these arguments.
    Systemctl(Vec<String>),
    /// Become journalctl with these arguments.
    Journalctl(Vec<String>),
    ListModels,
    RunningModels,
}

/// systemctl's arguments that start both services.
pub open spec fn start_args() -> Seq<Seq<char>> {
    seq!["start"@, RESOURCED_UNIT@, ARBITER_UNIT@]
}

/// systemctl's arguments that stop both services, the arbiter first.
pub open spec fn stop_args() -> Seq<Seq<char>> {
    seq!["stop"@, ARBITER_UNIT@, RESOURCED_UNIT@]
}

/// systemctl's arguments that restart both services.
pub open spec fn restart_args() -> Seq<Seq<char>> {
    seq!["restart"@, RESOURCED_UNIT@, ARBITER_UNIT@]
}

/// journalctl's arguments that name the services.
pub open spec fn unit_args(unit: LogTarget) -> Seq<Seq<char>> {
    match unit {
        LogTarget::All => seq!["--unit="@ + RESOURCED_UNIT@, "--unit="@ + ARBITER_UNIT@],
        LogTarget::Arbiter => seq!["--unit="@ + ARBITER_UNIT@],
        LogTarget::Resourced => seq!["--unit="@ + RESOURCED_UNIT@],
    }
}

/// journalctl's arguments.
pub open spec fn log_args(follow: bool, unit: LogTarget) -> Seq<Seq<char>> {
    seq!["--no-pager"@] + unit_args(unit) + if follow {
        seq!["-f"@]
    } else {
        seq!["-n"@, "100"@]
    }
}

/// Whether `task` is what a command comes down to.
pub open spec fn comes_to(cmd: Cmd, task: Task) -> bool {
    match cmd {
        Cmd::Configure => task is Configure,
        Cmd::Status { json } => task == (Task::Status { json }),
        Cmd::Validate => task is Validate,
        Cmd::Reload => task is Reload,
        Cmd::Start => task matches Task::Systemctl(args) && texts(args@) == start_args(),
        Cmd::Stop => task matches Task::Systemctl(args) && texts(args@) == stop_args(),
        Cmd::Restart => task matches Task::Systemctl(args) && texts(args@) == restart_args(),
        Cmd::Logs { follow, unit } => task matches Task::Journalctl(args) && texts(args@)
            == log_args(follow, unit),
        Cmd::Models { action } => if action == Some(ModelsAction::Running) {
            task is RunningModels
        } else {
            task is ListModels
        },
    }
}

fn three(a: &str, b: &str, c: &str) -> (r: Vec<String>)
    ensures
        texts(r@) == seq![a@, b@, c@],
{
    let mut out: Vec<String> = Vec::new();
    out.push(a.to_owned());
    out.push(b.to_owned());
    out.push(c.to_owned());
    assert(texts(out@) =~= seq![a@, b@, c@]);
    out
}

/// What a command comes down to.
pub fn run(cmd: Cmd) -> (r: Task)
    ensures
        comes_to(cmd, r),
{
    match cmd {
        Cmd::Configure => Task::Configure,
        Cmd::Status { json } => Task::Status { json },
        Cmd::Validate => Task::Validate,
        Cmd::Reload => Task::Reload,
        Cmd::Start => Task::Systemctl(three("start", RESOURCED_UNIT, ARBITER_UNIT)),
        Cmd::Stop => Task::Systemctl(three("stop", ARBITER_UNIT, RESOURCED_UNIT)),
        Cmd::Restart => Task::Systemctl(three("restart", RESOURCED_UNIT, ARBITER_UNIT)),
        Cmd::Logs { follow, unit } => Task::Journalctl(logs(follow, unit)),
        Cmd::Models { action } => match action {
            Some(ModelsAction::Running) => Task::RunningModels,
            _ => Task::ListModels,
        },
    }
}

/// journalctl's arguments.
pub fn logs(follow: bool, unit: LogTarget) -> (r: Vec<String>)
    ensures
        texts(r@) == log_args(follow, unit),
{
    let mut args: Vec<String> = Vec::new();
    assert(texts(args@) =~= Seq::empty());
    push_text(&mut args, "--no-pager".to_owned());
    match unit {
        LogTarget::All => {
            push_text(&mut args, "--unit=".to_owned().concat(RESOURCED_UNIT));
            push_text(&mut args, "--unit=".to_owned().concat(ARBITER_UNIT));
        },
        LogTarget::Arbiter => push_text(&mut args, "--unit=".to_owned().concat(ARBITER_UNIT)),
        LogTarget::Resourced => push_text(&mut args, "--unit=".to_owned().concat(RESOURCED_UNIT)),
    }
    if follow {
        push_text(&mut args, "-f".to_owned());
    } else {
        push_text(&mut args, "-n".to_owned());
        push_text(&mut args, "100".to_owned());
    }
    assert(texts(args@) =~= log_args(follow, unit));
    args
}

/// Whether `r` is what a run of systemctl comes to.
pub open spec fn ends_as(args: Seq<Seq<char>>, success: bool, r: Result<(), String>) -> bool {
    if success {
        r is Ok
    } else {
        r matches Err(e) && e@ == "systemctl "@ + joined(args, " "@) + " failed"@
    }
}

/// What a run of systemctl comes to.
pub fn systemctl(args: &Vec<String>, success: bool) -> (r: Result<(), String>)
    ensures
        ends_as(texts(args@), success, r),
        r is Ok == success,
        r matches Err(e) ==> e@ == "systemctl "@ + joined(texts(args@), " "@) + " failed"@,
{
    if success {
        Ok(())
    } else {
        Err("systemctl ".to_owned().concat(join(args, " ").as_str()).concat(" failed"))
    }
}

/// Whether `r` is what is made of a response to a status request.
pub open spec fn gives_report(resp: Response, r: Result<StatusReport, String>) -> bool {
    match resp {
        Response::Status(report) => r == Ok::<StatusReport, String>(report),
        Response::Error { message } => r matches Err(e) && e@ == message@,
        Response::Done { message } => r matches Err(e) && e@ == "unexpected response: "@ + message@,
    }
}

/// The report that a response to a status request holds, or the error.
pub fn status(resp: Response) -> (r: Result<StatusReport, String>)
    ensures
        gives_report(resp, r),
        match resp {
            Response::Status(report) => r == Ok::<StatusReport, String>(report),
            Response::Error { message } => r == Err::<StatusReport, String>(message),
            Response::Done { message } => r matches Err(e) && e@ == "unexpected response: "@
                + message@,
        },
{
    match resp {
        Response::Status(report) => Ok(report),
        Response::Error { message } => Err(message),
        Response::Done { message } => Err(
            "unexpected response: ".to_owned().concat(message.as_str()),
        ),
    }
}

/// How the status says whether the configuration is valid.
pub open spec fn validity_line(valid: bool, error: Option<Seq<char>>) -> Seq<char> {
    if valid {
        "Status:   valid\n"@
    } else {
        "Status:   INVALID"@ + (match error {
            Some(e) => " ("@ + e + ")"@,
            None => Seq::empty(),
        }) + "\n"@
    }
}

/// How the status names the endpoint, where it is known.
pub open spec fn endpoint_line(listen: Seq<char>) -> Seq<char> {
    if listen.len() == 0 {
        Seq::empty()
    } else {
        "Endpoint: http://"@ + listen + "/v1 (OpenAI), http://"@ + listen + "/ (Anthropic)\n"@
    }
}

/// A model's line in the status.
pub open spec fn model_line(m: ModelStatus) -> Seq<char> {
    "  ["@ + (if m.running {
        "*"@
    } else {
        " "@
    }) + "] "@ + padded(m.name@, 16) + " ttl="@ + decimal(m.ttl as nat) + "s  "@ + m.source@ + (
    if m.aliases@.len() == 0 {
        Seq::empty()
    } else {
        "  aliases: "@ + joined(texts(m.aliases@), ", "@)
    }) + "\n"@
}

/// The lines of some models in the status.
pub open spec fn model_lines(models: Seq<ModelStatus>) -> Seq<char>
    decreases models.len(),
{
    if models.len() == 0 {
        Seq::empty()
    } else {
        model_lines(models.drop_last()) + model_line(models.last())
    }
}

/// How the status names the groups, where there are any.
pub open spec fn groups_line(groups: Seq<Seq<char>>) -> Seq<char> {
    if groups.len() == 0 {
        Seq::empty()
    } else {
        "\nGroups:   "@ + joined(groups, ", "@) + "\n"@
    }
}

/// A GPU's line in the status.
pub open spec fn gpu_line(g: GpuStatus) -> Seq<char> {
    "  ["@ + decimal(g.index as nat) + "] "@ + g.name@ + " ("@ + g.vendor@ + "): "@ + decimal(
        g.memory_used_mb as nat,
    ) + " / "@ + decimal(g.memory_total_mb as nat) + " MB VRAM, util "@ + (
    match g.utilization_pct {
        Some(u) => decimal(u as nat) + "%"@,
        None => "?"@,
    }) + "\n"@
}

/// The lines of some GPUs in the status.
pub open spec fn gpu_lines(gpus: Seq<GpuStatus>) -> Seq<char>
    decreases gpus.len(),
{
    if gpus.len() == 0 {
        Seq::empty()
    } else {
        gpu_lines(gpus.drop_last()) + gpu_line(gpus.last())
    }
}

/// How the status shows the memory, where it is known.
pub open spec fn ram_line(ram: Option<MemStatus>) -> Seq<char> {
    match ram {
        Some(r) => "\nRAM:      "@ + decimal(r.used_mb as nat) + " / "@ + decimal(r.total_mb as nat)
            + " MB\n"@,
        None => Seq::empty(),
    }
}

/// The part of the status that lists the models.
pub open spec fn models_part(models: Seq<ModelStatus>) -> Seq<char> {
    "\nModels:\n"@ + if models.len() == 0 {
        "  (none configured)\n"@
    } else {
        model_lines(models)
    }
}

/// The part of the status that lists the GPUs.
pub open spec fn gpus_part(gpus: Seq<GpuStatus>) -> Seq<char> {
    "\nGPUs:\n"@ + if gpus.len() == 0 {
        "  (none detected; CPU mode or no GPU tools available)\n"@
    } else {
        gpu_lines(gpus)
    }
}

/// The status as it is printed.
pub open spec fn status_shown(report: StatusReport) -> Seq<char> {
    "Config:   "@ + report.config_path@ + "\n"@ + validity_line(
        report.config_valid,
        opt_text(report.config_error),
    ) + endpoint_line(report.listen@) + models_part(report.models@) + groups_line(
        texts(report.groups@),
    ) + gpus_part(report.gpus@) + ram_line(report.ram)
}

fn show_model(m: &ModelStatus) -> (r: String)
    ensures
        r@ == model_line(*m),
{
    let mark = if m.running {
        "*"
    } else {
        " "
    };
    let aliases = if m.aliases.len() == 0 {
        String::new()
    } else {
        "  aliases: ".to_owned().concat(join(&m.aliases, ", ").as_str())
    };
    "  [".to_owned().concat(mark).concat("] ").concat(pad(m.name.as_str(), 16).as_str()).concat(
        " ttl=",
    ).concat(to_decimal(m.ttl as u64).as_str()).concat("s  ").concat(m.source.as_str()).concat(
        aliases.as_str(),
    ).concat("\n")
}

fn show_gpu(g: &GpuStatus) -> (r: String)
    ensures
        r@ == gpu_line(*g),
{
    let util = match g.utilization_pct {
        Some(u) => to_decimal(u as u64).concat("%"),
        None => "?".to_owned(),
    };
    "  [".to_owned().concat(to_decimal(g.index as u64).as_str()).concat("] ").concat(
        g.name.as_str(),
    ).concat(" (").concat(g.vendor.as_str()).concat("): ").concat(
        to_decimal(g.memory_used_mb).as_str(),
    ).concat(" / ").concat(to_decimal(g.memory_total_mb).as_str()).concat(
        " MB VRAM, util ",
    ).concat(util.as_str()).concat("\n")
}

fn show_models(models: &Vec<ModelStatus>) -> (r: String)
    ensures
        r@ == models_part(models@),
{
    if models.len() == 0 {
        return "\nModels:\n".to_owned().concat("  (none configured)\n");
    }
    let mut out = String::new();
    let mut i: usize = 0;
    while i < models.len()
        invariant
            i <= models@.len(),
            out@ == model_lines(models@.take(i as int)),
        decreases models@.len() - i,
    {
        out = out.concat(show_model(&models[i]).as_str());
        assert(models@.take(i + 1).drop_last() =~= models@.take(i as int));
        i += 1;
    }
    assert(models@.take(i as int) =~= models@);
    "\nModels:\n".to_owned().concat(out.as_str())
}

fn show_gpus(gpus: &Vec<GpuStatus>) -> (r: String)
    ensures
        r@ == gpus_part(gpus@),
{
    if gpus.len() == 0 {
        return "\nGPUs:\n".to_owned().concat(
            "  (none detected; CPU mode or no GPU tools available)\n",
        );
    }
    let mut out = String::new();
    let mut i: usize = 0;
    while i < gpus.len()
        invariant
            i <= gpus@.len(),
            out@ == gpu_lines(gpus@.take(i as int)),
        decreases gpus@.len() - i,
    {
        out = out.concat(show_gpu(&gpus[i]).as_str());
        assert(gpus@.take(i + 1).drop_last() =~= gpus@.take(i as int));
        i += 1;
    }
    assert(gpus@.take(i as int) =~= gpus@);
    "\nGPUs:\n".to_owned().concat(out.as_str())
}

fn show_validity(valid: bool, error: &Option<String>) -> (r: String)
    ensures
        r@ == validity_line(valid, opt_text(*error)),
{
    if valid {
        return "Status:   valid\n".to_owned();
    }
    let reason = match error {
        Some(e) => " (".to_owned().concat(e.as_str()).concat(")"),
        None => String::new(),
    };
    "Status:   INVALID".to_owned().concat(reason.as_str()).concat("\n")
}

fn show_endpoint(listen: &str) -> (r: String)
    ensures
        r@ == endpoint_line(listen@),
{
    if listen.is_empty() {
        String::new()
    } else {
        "Endpoint: http://".to_owned().concat(listen).concat("/v1 (OpenAI), http://").concat(
            listen,
        ).concat("/ (Anthropic)\n")
    }
}

fn show_groups(groups: &Vec<String>) -> (r: String)
    ensures
        r@ == groups_line(texts(groups@)),
{
    if groups.len() == 0 {
        String::new()
    } else {
        "\nGroups:   ".to_owned().concat(join(groups, ", ").as_str()).concat("\n")
    }
}

fn show_ram(ram: &Option<MemStatus>) -> (r: String)
    ensures
        r@ == ram_line(*ram),
{
    match ram {
        Some(m) => "\nRAM:      ".to_owned().concat(to_decimal(m.used_mb).as_str()).concat(
            " / ",
        ).concat(to_decimal(m.total_mb).as_str()).concat(" MB\n"),
        None => String::new(),
    }
}

/// The status as it is printed.
pub fn status_text(report: &StatusReport) -> (r: String)
    ensures
        r@ == status_shown(*report),
{
    "Config:   ".to_owned().concat(report.config_path.as_str()).concat("\n").concat(
        show_validity(report.config_valid, &report.config_error).as_str(),
    ).concat(show_endpoint(report.listen.as_str()).as_str()).concat(
        show_models(&report.models).as_str(),
    ).concat(show_groups(&report.groups).as_str()).concat(
        show_gpus(&report.gpus).as_str(),
    ).concat(show_ram(&report.ram).as_str())
}

/// What is made of a response to a validate request.
pub enum Validation {
    Print(String),
    Fail(String),
    /// The daemon was not reached: validate the file here.
    Locally,
}

/// Whether `r` is what is made of a response to a validate request.
pub open spec fn gives_validation(resp: Option<Response>, r: Validation) -> bool {
    match resp {
        Some(Response::Done { message }) => r matches Validation::Print(text) && text@ == message@,
        Some(Response::Error { message }) => r matches Validation::Fail(text) && text@ == message@,
        Some(Response::Status(_)) => r matches Validation::Fail(text) && text@
            == "unexpected response from resourced"@,
        None => r is Locally,
    }
}

/// What is made of a response to a validate request. The daemon is authoritative;
/// where it cannot be reached (`None`), the file is validated here.
pub fn validate(resp: Option<Response>) -> (r: Validation)
    ensures
        gives_validation(resp, r),
        match resp {
            Some(Response::Done { message }) => r == Validation::Print(message),
            Some(Response::Error { message }) => r == Validation::Fail(message),
            Some(Response::Status(_)) => r matches Validation::Fail(e) && e@
                == "unexpected response from resourced"@,
            None => r is Locally,
        },
{
    match resp {
        Some(Response::Done { message }) => Validation::Print(message),
        Some(Response::Error { message }) => Validation::Fail(message),
        Some(Response::Status(_)) => Validation::Fail(
            "unexpected response from resourced".to_owned(),
        ),
        None => Validation::Locally,
    }
}

/// Whether `r` is what validating the file here comes to.
pub open spec fn checked_locally(
    file: Result<Result<Config, String>, String>,
    path: Seq<char>,
    r: Result<String, String>,
) -> bool {
    match loaded(file, path) {
        Ok(_) => r matches Ok(text) && text@ == "configuration is valid."@,
        Err(text) => r matches Err(e) && e@ == text,
    }
}

/// What validating the file here comes to: what to print, or the error.
pub fn validate_locally(file: Result<Result<Config, String>, String>, path: &str) -> (r: Result<
    String,
    String,
>)
    ensures
        checked_locally(file, path@, r),
        match loaded(file, path@) {
            Ok(_) => r matches Ok(text) && text@ == "configuration is valid."@,
            Err(text) => r matches Err(e) && e@ == text,
        },
{
    match Config::load(file, path) {
        Ok(_) => Ok("configuration is valid.".to_owned()),
        Err(e) => Err(e.message()),
    }
}

/// What is made of a response to a reload request.
pub enum Reloading {
    Print(String),
    Fail(String),
    /// The daemon was not reached: say so and run systemctl with these arguments.
    Fallback { notice: String, args: Vec<String> },
}

/// Whether `r` is what is made of a response to a reload request.
pub open spec fn gives_reloading(resp: Result<Response, String>, r: Reloading) -> bool {
    match resp {
        Ok(Response::Done { message }) => r matches Reloading::Print(text) && text@ == message@,
        Ok(Response::Error { message }) => r matches Reloading::Fail(text) && text@ == message@,
        Ok(Response::Status(_)) => r matches Reloading::Fail(text) && text@
            == "unexpected response from resourced"@,
        Err(e) => r matches Reloading::Fallback { notice, args } && notice@
            == "could not reach resourced ("@ + e@ + "); falling back to systemctl"@ && texts(args@)
            == restart_args(),
    }
}

/// What is made of a response to a reload request, or of the error that the daemon
/// could not be reached.
pub fn reload(resp: Result<Response, String>) -> (r: Reloading)
    ensures
        gives_reloading(resp, r),
        match resp {
            Ok(Response::Done { message }) => r == Reloading::Print(message),
            Ok(Response::Error { message }) => r == Reloading::Fail(message),
            Ok(Response::Status(_)) => r matches Reloading::Fail(e) && e@
                == "unexpected response from resourced"@,
            Err(e) => r matches Reloading::Fallback { notice, args } && notice@
                == "could not reach resourced ("@ + e@ + "); falling back to systemctl"@ && texts(
                args@,
            ) == restart_args(),
        },
{
    match resp {
        Ok(Response::Done { message }) => Reloading::Print(message),
        Ok(Response::Error { message }) => Reloading::Fail(message),
        Ok(Response::Status(_)) => Reloading::Fail(
            "unexpected response from resourced".to_owned(),
        ),
        Err(e) => Reloading::Fallback {
            notice: "could not reach resourced (".to_owned().concat(e.as_str()).concat(
                "); falling back to systemctl",
            ),
            args: three("restart", RESOURCED_UNIT, ARBITER_UNIT),
        },
    }
}

/// Where a model comes from, as the configuration has it.
pub open spec fn origin(m: Model) -> Seq<char> {
    match (m.hf_repo, m.path) {
        (Some(repo), _) => repo@,
        (None, Some(path)) => path@,
        (None, None) => "<none>"@,
    }
}

/// A model's entry in the list of configured models.
pub open spec fn model_entry(m: Model) -> Seq<char> {
    padded(m.name@, 16) + " "@ + origin(m) + "\n"@ + if m.aliases@.len() == 0 {
        Seq::empty()
    } else {
        "    aliases: "@ + joined(texts(m.aliases@), ", "@) + "\n"@
    }
}

/// The entries of some models in the list of configured models.
pub open spec fn model_entries(models: Seq<Model>) -> Seq<char>
    decreases models.len(),
{
    if models.len() == 0 {
        Seq::empty()
    } else {
        model_entries(models.drop_last()) + model_entry(models.last())
    }
}

fn list_model(m: &Model) -> (r: String)
    ensures
        r@ == model_entry(*m),
{
    let source = match &m.hf_repo {
        Some(repo) => repo.clone(),
        None => match &m.path {
            Some(path) => path.clone(),
            None => "<none>".to_owned(),
        },
    };
    let aliases = if m.aliases.len() == 0 {
        String::new()
    } else {
        "    aliases: ".to_owned().concat(join(&m.aliases, ", ").as_str()).concat("\n")
    };
    pad(m.name.as_str(), 16).concat(" ").concat(source.as_str()).concat("\n").concat(
        aliases.as_str(),
    )
}

/// Whether `r` is the list of configured models as it is printed, or the error.
pub open spec fn lists_models(
    file: Result<Result<Config, String>, String>,
    path: Seq<char>,
    r: Result<String, String>,
) -> bool {
    match loaded(file, path) {
        Ok(cfg) => r matches Ok(text) && text@ == model_entries(cfg.models@)
            + "\nEdit models with `local-llm configure`.\n"@,
        Err(text) => r matches Err(e) && e@ == text,
    }
}

/// The list of configured models as it is printed, or the error.
pub fn models_list(file: Result<Result<Config, String>, String>, path: &str) -> (r: Result<
    String,
    String,
>)
    ensures
        lists_models(file, path@, r),
        match loaded(file, path@) {
            Ok(cfg) => r matches Ok(text) && text@ == model_entries(cfg.models@)
                + "\nEdit models with `local-llm configure`.\n"@,
            Err(text) => r matches Err(e) && e@ == text,
        },
{
    match Config::load(file, path) {
        Ok(cfg) => {
            let mut out = String::new();
            let mut i: usize = 0;
            while i < cfg.models.len()
                invariant
                    i <= cfg.models@.len(),
                    out@ == model_entries(cfg.models@.take(i as int)),
                decreases cfg.models@.len() - i,
            {
                out = out.concat(list_model(&cfg.models[i]).as_str());
                assert(cfg.models@.take(i + 1).drop_last() =~= cfg.models@.take(i as int));
                i += 1;
            }
            assert(cfg.models@.take(i as int) =~= cfg.models@);
            Ok(out.concat("\nEdit models with `local-llm configure`.\n"))
        },
        Err(e) => Err(e.message()),
    }
}

/// Some names, each on a line of its own.
pub open spec fn on_lines(names: Seq<Seq<char>>) -> Seq<char>
    decreases names.len(),
{
    if names.len() == 0 {
        Seq::empty()
    } else {
        on_lines(names.drop_last()) + names.last() + "\n"@
    }
}

/// The models that run, as they are printed.
pub open spec fn running_shown(resp: Response) -> Seq<char> {
    match resp {
        Response::Status(s) => if s.running@.len() == 0 {
            "(no models currently loaded)\n"@
        } else {
            on_lines(texts(s.running@))
        },
        _ => Seq::empty(),
    }
}

/// The models that run, as a response to a status request lists them and as they
/// are printed. Another response prints nothing.
pub fn models_running(resp: &Response) -> (r: String)
    ensures
        r@ == running_shown(*resp),
        r@ == (match resp {
            Response::Status(s) => if s.running@.len() == 0 {
                "(no models currently loaded)\n"@
            } else {
                on_lines(texts(s.running@))
            },
            _ => Seq::empty(),
        }),
{
    match resp {
        Response::Status(s) => {
            if s.running.len() == 0 {
                return "(no models currently loaded)\n".to_owned();
            }
            name_lines(&s.running)
        },
        _ => String::new(),
    }
}

fn name_lines(names: &Vec<String>) -> (r: String)
    ensures
        r@ == on_lines(texts(names@)),
{
    let mut out = String::new();
    let mut i: usize = 0;
    while i < names.len()
        invariant
            i <= names@.len(),
            out@ == on_lines(texts(names@).take(i as int)),
        decreases names@.len() - i,
    {
        out = out.concat(names[i].as_str()).concat("\n");
        assert(texts(names@).take(i + 1).drop_last() =~= texts(names@).take(i as int));
        assert(texts(names@).take(i + 1).last() == names@[i as int]@);
        i += 1;
    }
    assert(texts(names@).take(i as int) =~= texts(names@));
    out
}

/// Whether a text holds another.
pub open spec fn holds(text: Seq<char>, part: Seq<char>) -> bool {
    exists|before: Seq<char>, after: Seq<char>| text == #[trigger] (before + part + after)
}

proof fn lemma_holds_around(before: Seq<char>, text: Seq<char>, after: Seq<char>, part: Seq<char>)
    requires
        holds(text, part),
    ensures
        holds(before + text, part),
        holds(text + after, part),
{
    let (a, b) = choose|a: Seq<char>, b: Seq<char>| text == #[trigger] (a + part + b);
    assert(before + text =~= (before + a) + part + b);
    assert(text + after =~= a + part + (b + after));
}

proof fn lemma_model_line_in_lines(models: Seq<ModelStatus>, i: int)
    requires
        0 <= i < models.len(),
    ensures
        holds(model_lines(models), model_line(models[i])),
    decreases models.len(),
{
    let line = model_line(models[i]);
    let shorter = models.drop_last();
    let last = model_line(models.last());
    if i == models.len() - 1 {
        let none = Seq::<char>::empty();
        assert(last =~= none + line + none);
        lemma_holds_around(model_lines(shorter), last, none, line);
    } else {
        lemma_model_line_in_lines(shorter, i);
        assert(shorter[i] == models[i]);
        lemma_holds_around(last, model_lines(shorter), last, line);
    }
}

/// Every model of a report has its line in the printed status.
pub proof fn every_model_has_a_line(report: StatusReport, i: int)
    requires
        0 <= i < report.models@.len(),
    ensures
        holds(status_shown(report), model_line(report.models@[i])),
{
    let models = report.models@;
    let line = model_line(models[i]);
    lemma_model_line_in_lines(models, i);
    let head = "Config:   "@ + report.config_path@ + "\n"@ + validity_line(
        report.config_valid,
        opt_text(report.config_error),
    ) + endpoint_line(report.listen@);
    let groups = groups_line(texts(report.groups@));
    let gpus = gpus_part(report.gpus@);
    let ram = ram_line(report.ram);
    lemma_holds_around("\nModels:\n"@, model_lines(models), groups, line);
    lemma_holds_around(head, models_part(models), groups, line);
    lemma_holds_around(head, head + models_part(models), groups, line);
    lemma_holds_around(head, head + models_part(models) + groups, gpus, line);
    lemma_holds_around(head, head + models_part(models) + groups + gpus, ram, line);
}

} // verus!
