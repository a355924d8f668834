//! What the daemon does with a configuration, a change and a request.

use crate::addr::socket_addr_text;
use crate::client::{replies, unreachable_text};
use crate::daemon::{
    initial_text, is_named, left_of_burst, log_line, reacts, restart_text, start_text, touches,
    watch_text, watched, Event, Reaction, Restart,
};
use crate::runtime::{path_in, value_or, Request, Response, Runtime, StatusReport};
use crate::schema::{accepted_iff_valid, loaded, Config};
use crate::server::{self, framed, Action};
use crate::state::{Failure, Pending, SharedState, Written};
use crate::swap::{env_text, swap_yaml};
use crate::text::{texts, trimmed};
use vstd::prelude::*;

verus! {

/// A status report shows the state: where the configuration is, whether there is one
/// in force with no error standing, the error, the samples, and what runs.
pub proof fn report_shows_the_state(
    state: SharedState,
    running: Seq<Seq<char>>,
    report: StatusReport,
)
    requires
        state.reported_by(running, report),
    ensures
        report.config_path@ == state.rt.config_path@,
        report.config_valid <==> state.inner.config is Some && state.inner.config_error is None,
        state.inner.config_error matches Some(e) ==> report.config_error is Some
            && report.config_error->0@ == e@,
        state.inner.config_error is None ==> report.config_error is None,
        report.gpus@ == state.inner.gpus@,
        report.ram == state.inner.ram,
        texts(report.running@) == running,
        state.inner.config matches Some(cfg) ==> report.listen@ == cfg.server.listen@,
        state.inner.config is None ==> report.listen@.len() == 0 && report.models@.len() == 0
            && report.groups@.len() == 0,
{
}

/// A status report lists the models and groups of the configuration in force, in
/// order: each model with its name, aliases, time to live and source, and as running
/// exactly where its name or one of its aliases is among what runs.
pub proof fn report_lists_models_and_groups(
    state: SharedState,
    running: Seq<Seq<char>>,
    report: StatusReport,
    i: int,
)
    requires
        state.reported_by(running, report),
        state.inner.config is Some,
    ensures
        ({
            let cfg = state.inner.config->0;
            let m = cfg.models@[i];
            let shown = report.models@[i];
            &&& report.models@.len() == cfg.models@.len()
            &&& report.groups@.len() == cfg.groups@.len()
            &&& 0 <= i < cfg.groups@.len() ==> report.groups@[i]@ == cfg.groups@[i].name@
            &&& 0 <= i < cfg.models@.len() ==> {
                &&& shown.name@ == m.name@
                &&& texts(shown.aliases@) == texts(m.aliases@)
                &&& m.ttl matches Some(ttl) ==> shown.ttl == ttl
                &&& m.ttl is None ==> shown.ttl == cfg.defaults.ttl
                &&& m.hf_repo matches Some(repo) ==> shown.source@ == match m.hf_file {
                    Some(file) => "hf:"@ + repo@ + "/"@ + file@,
                    None => "hf:"@ + repo@,
                }
                &&& m.hf_repo is None && m.path is Some ==> shown.source@ == path_in(
                    cfg.storage.models_dir@,
                    m.path->0@,
                )
                &&& shown.running <==> {
                    ||| exists|k: int| 0 <= k < running.len() && #[trigger] running[k] == m.name@
                    ||| exists|k: int, a: int|
                        0 <= k < running.len() && 0 <= a < m.aliases@.len()
                            && #[trigger] running[k] == (#[trigger] m.aliases@[a])@
                }
            }
        }),
{
    let cfg = state.inner.config->0;
    let m = cfg.models@[i];
    let shown = report.models@[i];
    let names = crate::schema::group_names(cfg.groups@);
    assert(texts(report.groups@) == names);
    assert(names.len() == cfg.groups@.len());
    assert(texts(report.groups@).len() == report.groups@.len());
    if 0 <= i < cfg.groups@.len() {
        assert(texts(report.groups@)[i] == report.groups@[i]@);
        assert(names[i] == cfg.groups@[i].name@);
    }
    if 0 <= i < cfg.models@.len() {
        assert(crate::state::describes(report.models@[i], cfg, m, running));
        if exists|k: int| 0 <= k < running.len() && #[trigger] running[k] == m.name@ {
            assert(running.contains(m.name@));
        }
        if exists|k: int, a: int|
            0 <= k < running.len() && 0 <= a < m.aliases@.len() && #[trigger] running[k] == (
            #[trigger] m.aliases@[a])@ {
            let (k, a) = choose|k: int, a: int|
                0 <= k < running.len() && 0 <= a < m.aliases@.len() && #[trigger] running[k] == (
                #[trigger] m.aliases@[a])@;
            assert(running.contains(m.aliases@[a]@));
        }
        if shown.running && !running.contains(m.name@) {
            let a = choose|a: int|
                0 <= a < m.aliases@.len() && running.contains((#[trigger] m.aliases@[a])@);
            let k = choose|k: int| 0 <= k < running.len() && running[k] == m.aliases@[a]@;
            assert(running[k] == m.aliases@[a]@);
        }
        if running.contains(m.name@) {
            let k = choose|k: int| 0 <= k < running.len() && running[k] == m.name@;
            assert(running[k] == m.name@);
        }
    }
}

/// A configuration file that is accepted yields its configuration with the artifacts
/// that are generated from it, and says whether the YAML differs from the last one;
/// nothing in the state changes yet. One that is refused yields its error, and
/// changes nothing in the state but the error that stands.
pub proof fn regenerating_follows_the_file(
    state: SharedState,
    file: Result<Result<Config, String>, String>,
    after: SharedState,
    r: Result<Pending, Failure>,
)
    requires
        state.regenerates(file, after, r),
    ensures
        match loaded(file, state.rt.config_path@) {
            Ok(cfg) => {
                &&& after == state
                &&& r matches Ok(p)
                &&& p.config == cfg
                &&& p.generated.yaml@ == swap_yaml(cfg, state.rt)
                &&& p.generated.env@ == env_text(cfg)
                &&& cfg.fault(socket_addr_text(cfg.server.listen@)) is None
                &&& match state.inner.last_yaml {
                    Some(yaml) => p.changed <==> yaml@ != p.generated.yaml@,
                    None => p.changed,
                }
            },
            Err(text) => {
                &&& r matches Err(f)
                &&& f.message@ == text
                &&& f.cause is None
                &&& after.inner.config_error is Some
                &&& after.inner.config_error->0@ == text
                &&& after.rt == state.rt
                &&& after.inner.config == state.inner.config
                &&& after.inner.last_yaml == state.inner.last_yaml
                &&& after.inner.gpus == state.inner.gpus
                &&& after.inner.ram == state.inner.ram
            },
        },
{
    if let Ok(Ok(cfg)) = file {
        accepted_iff_valid(cfg, socket_addr_text(cfg.server.listen@));
    }
}

/// Writing both artifacts puts the configuration into force and clears the error;
/// where one could not be written, nothing changes, and the failure says which one
/// and why.
pub proof fn writing_puts_into_force(
    state: SharedState,
    pending: Pending,
    written: Written,
    after: SharedState,
    r: Result<bool, Failure>,
)
    requires
        state.commits(pending, written, after, r),
    ensures
        after.rt == state.rt,
        after.inner.gpus == state.inner.gpus,
        after.inner.ram == state.inner.ram,
        written is Both ==> {
            &&& r == Ok::<bool, Failure>(pending.changed)
            &&& after.inner.config == Some(pending.config)
            &&& after.inner.config_error is None
            &&& after.inner.last_yaml == Some(pending.generated.yaml)
        },
        written matches Written::NoSwapConfig(cause) ==> {
            &&& after == state
            &&& r matches Err(f)
            &&& f.chain() == "writing llama-swap config"@ + ": "@ + cause@
        },
        written matches Written::NoEnvFile(cause) ==> {
            &&& after == state
            &&& r matches Err(f)
            &&& f.chain() == "writing arbiter env file"@ + ": "@ + cause@
        },
{
}

/// In a consistent state the configuration in force passes validation, and the last
/// YAML is what is generated from it; without one there is no YAML.
pub proof fn configuration_in_force_is_valid(state: SharedState)
    requires
        state.consistent(),
    ensures
        match state.inner.config {
            Some(cfg) => {
                &&& cfg.fault(socket_addr_text(cfg.server.listen@)) is None
                &&& state.inner.last_yaml is Some
                &&& state.inner.last_yaml->0@ == swap_yaml(cfg, state.rt)
            },
            None => state.inner.last_yaml is None,
        },
{
    if let Some(cfg) = state.inner.config {
        accepted_iff_valid(cfg, socket_addr_text(cfg.server.listen@));
    }
}

/// A failure is told with what led to it behind it, where something did.
pub proof fn failure_is_told_with_its_cause(f: Failure)
    ensures
        f.chain().take(f.message@.len() as int) == f.message@,
        f.cause matches Some(cause) ==> f.chain().skip(f.message@.len() as int) == ": "@ + cause@,
        f.cause is None ==> f.chain() == f.message@,
{
    assert(f.chain().take(f.message@.len() as int) =~= f.message@);
    if let Some(cause) = f.cause {
        assert(f.chain().skip(f.message@.len() as int) =~= ": "@ + cause@);
    }
}

/// Whether the last component of a path is this name.
pub open spec fn ends_in(component: Option<Vec<u8>>, name: Seq<u8>) -> bool {
    match component {
        Some(bytes) => bytes@ == name,
        None => false,
    }
}

/// A change concerns the configuration file exactly where one of its paths ends in
/// the file's name; where that name is not known, every change does. What the
/// watcher could not tell concerns nothing.
pub proof fn change_concerns_the_file_by_name(
    event: Event,
    error: String,
    name: Seq<u8>,
)
    ensures
        touches(Ok(event), Some(name)) <==> exists|i: int|
            0 <= i < event.names@.len() && ends_in(#[trigger] event.names@[i], name),
        touches(Ok(event), None),
        !touches(Err(error), Some(name)),
        !touches(Err(error), None),
{
    let names = event.names@;
    if touches(Ok(event), Some(name)) {
        let i = choose|i: int| 0 <= i < names.len() && is_named(#[trigger] names[i], name);
        assert(is_named(names[i], name));
        assert(ends_in(names[i], name));
    }
    if exists|i: int| 0 <= i < names.len() && ends_in(#[trigger] names[i], name) {
        let i = choose|i: int| 0 <= i < names.len() && ends_in(#[trigger] names[i], name);
        let res: Result<Event, String> = Ok(event);
        assert(is_named(res->Ok_0.names@[i], name));
    }
}

/// Every line of the log is the daemon's name in brackets and the message.
pub proof fn log_lines_carry_the_message(msg: Seq<char>)
    ensures
        log_line(msg).take("[resourced] "@.len() as int) == "[resourced] "@,
        log_line(msg).skip("[resourced] "@.len() as int) == msg,
{
    assert(log_line(msg).take("[resourced] "@.len() as int) =~= "[resourced] "@);
    assert(log_line(msg).skip("[resourced] "@.len() as int) =~= msg);
}

/// A line is parsed as it is but for the whitespace around it, and each request leads
/// to what it asks for; a request that cannot be read is answered with the reason.
pub proof fn request_leads_to_what_it_asks_for(
    line: String,
    request: Request,
    reason: String,
    action: Action,
)
    ensures
        server::leads_to(server::Event::Line(line), action) ==> {
            &&& trimmed(line@).len() == 0 <==> action is Close
            &&& trimmed(line@).len() > 0 ==> (action matches Action::Parse(t) && t@ == trimmed(
                line@,
            ))
        },
        server::leads_to(server::Event::Parsed(Ok(request)), action) ==> {
            &&& request is Status <==> action is Report
            &&& request is Validate <==> action is Validate
            &&& request is Reload <==> action is Regenerate
        },
        server::leads_to(server::Event::Parsed(Err(reason)), action) ==> (action
            matches Action::Respond { response: Response::Error { message }, restart } && message@
            == "invalid request: "@ + reason@ && !restart),
{
}

/// Each outcome is answered: a report as it is, a regeneration or validation by what
/// came of it, and a response goes out on a line of its own. Only a regeneration that
/// succeeded restarts the arbiter.
pub proof fn outcome_is_answered(
    report: StatusReport,
    validated: Result<(), String>,
    regenerated: Result<bool, Failure>,
    payload: String,
    action: Action,
)
    ensures
        server::leads_to(server::Event::Reported(report), action) ==> action == (Action::Respond {
            response: Response::Status(report),
            restart: false,
        }),
        server::leads_to(server::Event::Validated(validated), action) ==> (match validated {
            Ok(_) => action matches Action::Respond {
                response: Response::Done { message },
                restart,
            } && message@ == "configuration is valid"@ && !restart,
            Err(e) => action matches Action::Respond {
                response: Response::Error { message },
                restart,
            } && message@ == e@ && !restart,
        }),
        server::leads_to(server::Event::Regenerated(regenerated), action) ==> (match regenerated {
            Ok(_) => action matches Action::Respond {
                response: Response::Done { message },
                restart,
            } && message@ == "reloaded; arbiter restarting"@ && restart,
            Err(f) => action matches Action::Respond {
                response: Response::Error { message },
                restart,
            } && message@ == f.message@ && !restart,
        }),
        server::leads_to(server::Event::Encoded(payload), action) ==> (action matches Action::Send(
            line,
        ) && line@ == payload@.push('\n')),
        framed(payload@).drop_last() == payload@,
        framed(payload@).last() == '\n',
{
    assert(framed(payload@).drop_last() =~= payload@);
}

/// A location is the value of its variable where that is set, whatever the default
/// is, and the default where it is not.
pub proof fn environment_overrides_defaults(value: String, default: Seq<char>)
    ensures
        value_or(Some(value), default) == value@,
        value_or(None, default) == default,
{
}

/// Every location comes from its own variable, whatever the others are, and from its
/// own default where the variable is not set; the generated files and the socket are
/// in the runtime directory.
pub proof fn locations_come_from_their_variables(
    rt: Runtime,
    config: Option<String>,
    runtime_dir: Option<String>,
    llama_server: Option<String>,
    arbiter_unit: Option<String>,
    name: Seq<char>,
)
    requires
        rt.is_of_env(config, runtime_dir, llama_server, arbiter_unit),
    ensures
        config matches Some(v) ==> rt.config_path@ == v@,
        config is None ==> rt.config_path@ == "/etc/local-llm/config.toml"@,
        runtime_dir matches Some(v) ==> rt.runtime_dir@ == v@,
        runtime_dir is None ==> rt.runtime_dir@ == "/run/local-llm"@,
        llama_server matches Some(v) ==> rt.llama_server@ == v@,
        llama_server is None ==> rt.llama_server@ == "llama-server"@,
        arbiter_unit matches Some(v) ==> rt.arbiter_unit@ == v@,
        arbiter_unit is None ==> rt.arbiter_unit@ == "local-llm-arbiter.service"@,
        name.len() > 0 && name[0] != '/' ==> {
            let path = rt.file_path(name);
            &&& path.take(rt.runtime_dir@.len() as int) == rt.runtime_dir@
            &&& path.skip(path.len() - name.len()) == name
        },
{
    crate::artifact_laws::path_is_read_in_its_directory(rt.runtime_dir@, name);
}

/// Samples are taken as often as the configuration in force says, but never without
/// a second between them; without a configuration every ten seconds.
pub proof fn sampling_goes_by_the_configuration(state: SharedState)
    ensures
        state.interval() >= 1,
        state.inner.config matches Some(cfg) ==> {
            &&& cfg.resources.sample_interval > 0 ==> state.interval()
                == cfg.resources.sample_interval
            &&& cfg.resources.sample_interval == 0 ==> state.interval() == 1
        },
        state.inner.config is None ==> state.interval() == 10,
{
}

/// The arbiter is looked for where the configuration in force lets it listen, and at
/// the default address without one.
pub proof fn arbiter_is_where_it_listens(state: SharedState)
    ensures
        state.inner.config matches Some(cfg) ==> state.listens_at() == cfg.server.listen@,
        state.inner.config is None ==> state.listens_at() == "127.0.0.1:8080"@,
{
}

/// A change of the file restarts the arbiter exactly where the generated config
/// changed; the message says what was done, with the whole failure where there was
/// one.
pub proof fn change_is_reacted_to(outcome: Result<bool, Failure>, r: Reaction)
    requires
        reacts(outcome, r),
    ensures
        r.restart <==> outcome is Ok && outcome->Ok_0,
        outcome == Ok::<bool, Failure>(true) ==> r.message@ == "config changed; restarting arbiter"@,
        outcome == Ok::<bool, Failure>(false) ==> r.message@
            == "config unchanged after regeneration"@,
        outcome matches Err(f) ==> r.message@ == "config invalid, keeping previous: "@ + f.chain(),
{
}

/// A burst is collected for four tenths of a second from its first event: what has
/// passed and what is left make that up, and later nothing is left.
pub proof fn bursts_last_four_tenths(elapsed_ms: nat)
    ensures
        elapsed_ms <= 400 ==> elapsed_ms + left_of_burst(elapsed_ms) == 400,
        elapsed_ms > 400 ==> left_of_burst(elapsed_ms) == 0,
{
}

/// The messages of the daemon say what they are about, in full.
pub proof fn messages_say_what_happened(
    rt: Runtime,
    f: Failure,
    changed: bool,
    text: Seq<char>,
    dir: Seq<char>,
    words: String,
)
    ensures
        start_text(rt) == "starting; config="@ + rt.config_path@ + " runtime_dir="@
            + rt.runtime_dir@,
        initial_text(Ok(changed)) == "generated initial arbiter config"@,
        initial_text(Err(f)) == "WARNING: initial config invalid: "@ + f.chain(),
        watched(Some(dir)) == dir,
        watched(None) == "/etc/local-llm"@,
        watch_text(dir, None) == "watching "@ + dir + " for changes"@,
        watch_text(dir, Some(text)) == "WARNING: cannot watch "@ + dir + " ("@ + text
            + "); live reload disabled"@,
        restart_text(text, Restart::Succeeded) == "restarted "@ + text,
        restart_text(text, Restart::Exited(words)) == "systemctl restart "@ + text
            + " exited with "@ + words@,
        restart_text(text, Restart::NotRun(words)) == "failed to run systemctl restart "@ + text
            + ": "@ + words@,
        unreachable_text(text) == "connecting to resourced at "@ + text
            + " (is local-llm-resourced.service running?)"@,
{
}

/// A reply is what the line holds but for the whitespace around it; a blank line is
/// an error.
pub proof fn reply_is_what_the_line_holds(line: Seq<char>, r: Result<String, String>)
    requires
        replies(line, r),
    ensures
        trimmed(line).len() > 0 ==> r is Ok && r->Ok_0@ == trimmed(line),
        trimmed(line).len() == 0 ==> r is Err && r->Err_0@ == "empty response from resourced"@,
{
}

/// Validating says whether the file would be accepted, with the same error.
pub proof fn validating_agrees_with_loading(
    state: SharedState,
    file: Result<Result<Config, String>, String>,
    r: Result<(), String>,
)
    requires
        state.validates(file, r),
    ensures
        r is Ok <==> loaded(file, state.rt.config_path@) is Ok,
        r matches Err(e) ==> loaded(file, state.rt.config_path@) == Err::<Config, Seq<char>>(e@),
{
}

} // verus!
