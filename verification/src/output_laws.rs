//! What the CLI runs, prints and asks.

use crate::cli::{
    checked_locally, comes_to, ends_as, gives_reloading, gives_report, gives_validation,
    gpu_lines, lists_models, log_args, model_entries, model_lines, on_lines, running_shown,
    status_shown, unit_args, Cmd, LogTarget, ModelsAction, Reloading, Task, Validation,
};
use crate::configure::{
    self, ascii_lower, editor_chosen, is_write_test, is_yes, lowercase, question_shown, Action,
    Event, WriteTest,
};
use crate::runtime::{path_in, GpuStatus, ModelStatus, Response, StatusReport};
use crate::schema::{loaded, Config, Model};
use crate::text::{decimal, joined, lines_of, padded, texts, trimmed};
use crate::text_laws::lines_come_one_by_one;
use vstd::prelude::*;

verus! {

/// Each command comes down to its task. Both services are started and restarted with
/// the daemon first, and stopped with the arbiter first; models are listed unless
/// those that run are asked for.
pub proof fn command_comes_down_to_its_task(cmd: Cmd, task: Task)
    requires
        comes_to(cmd, task),
    ensures
        cmd is Configure <==> task is Configure,
        cmd is Validate <==> task is Validate,
        cmd is Reload <==> task is Reload,
        cmd matches Cmd::Status { json } ==> task == (Task::Status { json }),
        cmd is Start ==> (task matches Task::Systemctl(args) && texts(args@) == seq![
            "start"@,
            "local-llm-resourced.service"@,
            "local-llm-arbiter.service"@,
        ]),
        cmd is Stop ==> (task matches Task::Systemctl(args) && texts(args@) == seq![
            "stop"@,
            "local-llm-arbiter.service"@,
            "local-llm-resourced.service"@,
        ]),
        cmd is Restart ==> (task matches Task::Systemctl(args) && texts(args@) == seq![
            "restart"@,
            "local-llm-resourced.service"@,
            "local-llm-arbiter.service"@,
        ]),
        cmd matches Cmd::Logs { follow, unit } ==> (task matches Task::Journalctl(args) && texts(
            args@,
        ) == log_args(follow, unit)),
        cmd matches Cmd::Models { action } ==> (task is RunningModels <==> action == Some(
            ModelsAction::Running,
        )) && (task is ListModels <==> action != Some(ModelsAction::Running)),
{
}

/// The logs are those of the chosen service, or of both; they are followed where that
/// is asked for, and else the last hundred lines are shown.
pub proof fn logs_are_of_the_chosen_service(follow: bool, unit: LogTarget)
    ensures
        ({
            let args = log_args(follow, unit);
            let tail = if follow {
                1int
            } else {
                2
            };
            let units = args.subrange(1, args.len() - tail);
            &&& args.len() >= 1 + tail
            &&& args[0] == "--no-pager"@
            &&& unit is All ==> units == seq![
                "--unit="@ + "local-llm-resourced.service"@,
                "--unit="@ + "local-llm-arbiter.service"@,
            ]
            &&& unit is Arbiter ==> units == seq!["--unit="@ + "local-llm-arbiter.service"@]
            &&& unit is Resourced ==> units == seq!["--unit="@ + "local-llm-resourced.service"@]
            &&& follow ==> args[args.len() - 1] == "-f"@
            &&& !follow ==> args[args.len() - 2] == "-n"@ && args[args.len() - 1] == "100"@
        }),
{
    let args = log_args(follow, unit);
    let tail = if follow {
        1int
    } else {
        2
    };
    assert(args.subrange(1, args.len() - tail) =~= unit_args(unit));
}

/// The status shows, in this order: where the configuration is; whether it is valid,
/// with the error where it is not; the endpoint where it is known; the models; the
/// groups where there are any; the GPUs; and the memory where it is known.
pub proof fn status_shows_the_report(report: StatusReport)
    ensures
        ({
            let validity = if report.config_valid {
                "Status:   valid\n"@
            } else {
                match report.config_error {
                    Some(e) => "Status:   INVALID"@ + (" ("@ + e@ + ")"@) + "\n"@,
                    None => "Status:   INVALID"@ + Seq::<char>::empty() + "\n"@,
                }
            };
            let endpoint = if report.listen@.len() == 0 {
                Seq::<char>::empty()
            } else {
                "Endpoint: http://"@ + report.listen@ + "/v1 (OpenAI), http://"@ + report.listen@
                    + "/ (Anthropic)\n"@
            };
            let models = if report.models@.len() == 0 {
                "\nModels:\n"@ + "  (none configured)\n"@
            } else {
                "\nModels:\n"@ + model_lines(report.models@)
            };
            let groups = if report.groups@.len() == 0 {
                Seq::<char>::empty()
            } else {
                "\nGroups:   "@ + joined(texts(report.groups@), ", "@) + "\n"@
            };
            let gpus = if report.gpus@.len() == 0 {
                "\nGPUs:\n"@ + "  (none detected; CPU mode or no GPU tools available)\n"@
            } else {
                "\nGPUs:\n"@ + gpu_lines(report.gpus@)
            };
            let memory = match report.ram {
                Some(m) => "\nRAM:      "@ + decimal(m.used_mb as nat) + " / "@ + decimal(
                    m.total_mb as nat,
                ) + " MB\n"@,
                None => Seq::<char>::empty(),
            };
            status_shown(report) == "Config:   "@ + report.config_path@ + "\n"@ + validity
                + endpoint + models + groups + gpus + memory
        }),
{
    assert(texts(report.groups@).len() == report.groups@.len());
}

/// Models are listed one by one, in order: each with a mark where it runs, its name,
/// time to live, source, and its aliases where it has any.
pub proof fn models_are_shown_one_by_one(before: Seq<ModelStatus>, m: ModelStatus)
    ensures
        ({
            let mark = if m.running {
                "*"@
            } else {
                " "@
            };
            let aliases = if m.aliases@.len() == 0 {
                Seq::<char>::empty()
            } else {
                "  aliases: "@ + joined(texts(m.aliases@), ", "@)
            };
            model_lines(before.push(m)) == model_lines(before) + ("  ["@ + mark + "] "@ + padded(
                m.name@,
                16,
            ) + " ttl="@ + decimal(m.ttl as nat) + "s  "@ + m.source@ + aliases + "\n"@)
        }),
        model_lines(Seq::<ModelStatus>::empty()) == Seq::<char>::empty(),
{
    assert(before.push(m).drop_last() =~= before);
    assert(model_lines(Seq::<ModelStatus>::empty()) =~= Seq::<char>::empty());
}

/// GPUs are listed one by one, in order: each with its index, name and vendor, its
/// used and total memory, and its utilization where that is known.
pub proof fn gpus_are_shown_one_by_one(before: Seq<GpuStatus>, g: GpuStatus)
    ensures
        ({
            let util = match g.utilization_pct {
                Some(u) => decimal(u as nat) + "%"@,
                None => "?"@,
            };
            gpu_lines(before.push(g)) == gpu_lines(before) + ("  ["@ + decimal(g.index as nat)
                + "] "@ + g.name@ + " ("@ + g.vendor@ + "): "@ + decimal(g.memory_used_mb as nat)
                + " / "@ + decimal(g.memory_total_mb as nat) + " MB VRAM, util "@ + util + "\n"@)
        }),
        gpu_lines(Seq::<GpuStatus>::empty()) == Seq::<char>::empty(),
{
    assert(before.push(g).drop_last() =~= before);
    assert(gpu_lines(Seq::<GpuStatus>::empty()) =~= Seq::<char>::empty());
}

/// Configured models are listed one by one, in order: each with its name and its
/// repository, or its path where it has no repository, and with its aliases on a line
/// of their own where it has any.
pub proof fn configured_models_are_listed_one_by_one(before: Seq<Model>, m: Model)
    ensures
        ({
            let source = match m.hf_repo {
                Some(repo) => repo@,
                None => match m.path {
                    Some(path) => path@,
                    None => "<none>"@,
                },
            };
            let aliases = if m.aliases@.len() == 0 {
                Seq::<char>::empty()
            } else {
                "    aliases: "@ + joined(texts(m.aliases@), ", "@) + "\n"@
            };
            model_entries(before.push(m)) == model_entries(before) + (padded(m.name@, 16) + " "@
                + source + "\n"@ + aliases)
        }),
        model_entries(Seq::<Model>::empty()) == Seq::<char>::empty(),
{
    assert(before.push(m).drop_last() =~= before);
    assert(model_entries(Seq::<Model>::empty()) =~= Seq::<char>::empty());
}

proof fn lemma_on_lines_first(name: Seq<char>, rest: Seq<Seq<char>>)
    ensures
        on_lines(seq![name] + rest) == name.push('\n') + on_lines(rest),
    decreases rest.len(),
{
    let all = seq![name] + rest;
    reveal_strlit("\n");
    assert("\n"@ =~= seq!['\n']);
    if rest.len() == 0 {
        assert(all =~= seq![name]);
        assert(all.drop_last() =~= Seq::<Seq<char>>::empty());
        reveal_with_fuel(on_lines, 2);
        assert(on_lines(all) =~= name.push('\n') + on_lines(rest));
    } else {
        lemma_on_lines_first(name, rest.drop_last());
        assert(all.drop_last() =~= seq![name] + rest.drop_last());
        assert(all.last() == rest.last());
        assert(on_lines(all) =~= name.push('\n') + on_lines(rest));
    }
}

/// Read back line by line, the list of what runs is the names, in order.
pub proof fn running_names_are_read_back(names: Seq<Seq<char>>)
    requires
        forall|i: int|
            0 <= i < names.len() ==> !(#[trigger] names[i]).contains('\n') && (names[i].len() == 0
                || names[i][names[i].len() - 1] != '\r'),
    ensures
        lines_of(on_lines(names)) == names,
    decreases names.len(),
{
    if names.len() == 0 {
        lines_come_one_by_one(Seq::empty(), Seq::empty());
        assert(on_lines(names) =~= Seq::empty());
        assert(names =~= Seq::empty());
    } else {
        let rest = names.drop_first();
        assert forall|i: int| 0 <= i < rest.len() implies !(#[trigger] rest[i]).contains('\n') && (
        rest[i].len() == 0 || rest[i][rest[i].len() - 1] != '\r') by {
            assert(rest[i] == names[i + 1]);
        }
        running_names_are_read_back(rest);
        assert(names =~= seq![names[0]] + rest);
        lemma_on_lines_first(names[0], rest);
        lines_come_one_by_one(names[0], on_lines(rest));
        assert(lines_of(on_lines(names)) =~= names);
    }
}

/// An empty answer is the default; `y` and `yes` are a yes, and every other answer is
/// a no, whatever the default is.
pub proof fn only_yes_is_a_yes(answer: Seq<char>, default_yes: bool)
    ensures
        answer.len() == 0 ==> is_yes(answer, default_yes) == default_yes,
        answer == seq!['y'] || answer == seq!['y', 'e', 's'] ==> is_yes(answer, default_yes),
        answer.len() > 0 && answer != seq!['y'] && answer != seq!['y', 'e', 's'] ==> !is_yes(
            answer,
            default_yes,
        ),
{
    reveal_strlit("y");
    reveal_strlit("yes");
    assert("y"@ =~= seq!['y']);
    assert("yes"@ =~= seq!['y', 'e', 's']);
}

/// The lowercase form of a capital letter of ASCII is the letter of the same place in
/// the alphabet; every other character is its own.
pub proof fn capitals_become_small(c: char)
    ensures
        'A' <= c <= 'Z' ==> 'a' <= ascii_lower(c) <= 'z' && ascii_lower(c) as u32 - 'a' as u32 == c
            as u32 - 'A' as u32,
        !('A' <= c <= 'Z') ==> ascii_lower(c) == c,
{
}

/// A question is printed with the answer that counts as the default in capitals.
pub proof fn question_hints_at_the_default(question: Seq<char>)
    ensures
        question_shown(question, true) == question + " [Y/n] "@,
        question_shown(question, false) == question + " [y/N] "@,
{
}

/// Editing goes step by step: a file that cannot be written is edited under sudo, one
/// that does not exist is not edited, an editor that failed leaves all as it is, and
/// what was edited is read again.
pub proof fn editing_goes_step_by_step(path: Seq<char>, yes: bool, action: Action)
    ensures
        configure::leads_to(path, Event::Writable(yes), action) ==> if yes {
            action is CheckExists
        } else {
            action matches Action::Escalate(text) && text@ == "Editing "@ + path
                + " requires root; re-running under sudo..."@
        },
        configure::leads_to(path, Event::Exists(yes), action) ==> if yes {
            action is Edit
        } else {
            action matches Action::Fail(text) && text@ == "config not found at "@ + path
                + " (is the local-llm NixOS module enabled?)"@
        },
        configure::leads_to(path, Event::Edited(yes), action) ==> if yes {
            action is Load
        } else {
            action matches Action::Warn(lines) && texts(lines@) == seq![
                "editor exited without success; leaving config unchanged"@,
            ]
        },
        configure::leads_to(path, Event::Terminal(yes), action) ==> if yes {
            action matches Action::Ask(text) && text@ == "Apply changes now (reload)?"@
                + " [Y/n] "@
        } else {
            action matches Action::Later(text) && text@
                == "Run `local-llm reload` when you're ready to apply changes."@
        },
{
}

/// What was edited is offered to be applied where it would be accepted, and else
/// warned of with the error; it is applied where the answer is a yes, an empty one
/// included, and else left for later.
pub proof fn edited_config_is_applied_on_a_yes(
    path: Seq<char>,
    file: Result<Result<Config, String>, String>,
    line: String,
    action: Action,
)
    ensures
        configure::leads_to(path, Event::Loaded(file), action) ==> (match loaded(file, path) {
            Ok(_) => action matches Action::CheckTerminal(text) && text@
                == "configuration is valid."@,
            Err(e) => action matches Action::Warn(lines) && texts(lines@) == seq![
                "warning: configuration is INVALID: "@ + e,
                "the arbiter will keep using the last valid config until fixed."@,
            ],
        }),
        configure::leads_to(path, Event::Answered(line), action) ==> {
            let answer = lowercase(trimmed(line@));
            let yes = answer.len() == 0 || answer == seq!['y'] || answer == seq!['y', 'e', 's'];
            &&& yes <==> action is Reload
            &&& !yes ==> (action matches Action::Later(text) && text@
                == "Run `local-llm reload` when you're ready to apply changes."@)
        },
{
    only_yes_is_a_yes(lowercase(trimmed(line@)), true);
}

/// A run of systemctl that failed is an error that names its arguments.
pub proof fn failed_systemctl_names_its_arguments(
    args: Seq<Seq<char>>,
    success: bool,
    r: Result<(), String>,
)
    requires
        ends_as(args, success, r),
    ensures
        r is Ok <==> success,
        r matches Err(e) ==> e@ == "systemctl "@ + joined(args, " "@) + " failed"@,
{
}

/// A status request is answered by a report; any other answer is an error.
pub proof fn only_a_report_is_a_status(resp: Response, r: Result<StatusReport, String>)
    requires
        gives_report(resp, r),
    ensures
        resp matches Response::Status(report) ==> r is Ok && r->Ok_0 == report,
        resp matches Response::Error { message } ==> r is Err && r->Err_0@ == message@,
        resp matches Response::Done { message } ==> r is Err && r->Err_0@
            == "unexpected response: "@ + message@,
{
}

/// What the daemon says of a validate or reload request is passed on; where it cannot
/// be reached, the file is validated here, and both services are restarted in place of
/// a reload, the daemon first.
pub proof fn daemon_is_asked_first(
    message: String,
    report: StatusReport,
    v: Validation,
    r: Reloading,
)
    ensures
        gives_validation(Some(Response::Done { message }), v) ==> (v matches Validation::Print(t)
            && t@ == message@),
        gives_validation(Some(Response::Error { message }), v) ==> (v matches Validation::Fail(t)
            && t@ == message@),
        gives_validation(Some(Response::Status(report)), v) ==> (v matches Validation::Fail(t) && t@
            == "unexpected response from resourced"@),
        gives_validation(None, v) <==> v is Locally,
        gives_reloading(Ok(Response::Done { message }), r) ==> (r matches Reloading::Print(t) && t@
            == message@),
        gives_reloading(Ok(Response::Error { message }), r) ==> (r matches Reloading::Fail(t) && t@
            == message@),
        gives_reloading(Ok(Response::Status(report)), r) ==> (r matches Reloading::Fail(t) && t@
            == "unexpected response from resourced"@),
        gives_reloading(Err(message), r) ==> (r matches Reloading::Fallback { notice, args }
            && notice@ == "could not reach resourced ("@ + message@
            + "); falling back to systemctl"@ && texts(args@) == seq![
            "restart"@,
            "local-llm-resourced.service"@,
            "local-llm-arbiter.service"@,
        ]),
{
}

/// Validating and listing models here go by what loading the file comes to.
pub proof fn local_work_goes_by_the_file(
    file: Result<Result<Config, String>, String>,
    path: Seq<char>,
    checked: Result<String, String>,
    listed: Result<String, String>,
)
    requires
        checked_locally(file, path, checked),
        lists_models(file, path, listed),
    ensures
        match loaded(file, path) {
            Ok(cfg) => {
                &&& checked matches Ok(text)
                &&& text@ == "configuration is valid."@
                &&& listed matches Ok(list)
                &&& list@ == model_entries(cfg.models@)
                    + "\nEdit models with `local-llm configure`.\n"@
            },
            Err(text) => {
                &&& checked matches Err(e)
                &&& e@ == text
                &&& listed matches Err(e)
                &&& e@ == text
            },
        },
{
}

/// The models that run are printed as the report lists them, one on a line, in order;
/// a report that lists none says so.
pub proof fn running_models_are_printed(report: StatusReport, message: String)
    requires
        forall|i: int|
            0 <= i < report.running@.len() ==> !(#[trigger] report.running@[i])@.contains('\n') && (
            report.running@[i]@.len() == 0 || report.running@[i]@[report.running@[i]@.len() - 1]
                != '\r'),
    ensures
        report.running@.len() > 0 ==> lines_of(running_shown(Response::Status(report))) == texts(
            report.running@,
        ),
        report.running@.len() == 0 ==> running_shown(Response::Status(report))
            == "(no models currently loaded)\n"@,
        running_shown(Response::Done { message }).len() == 0,
        running_shown(Response::Error { message }).len() == 0,
{
    let names = texts(report.running@);
    assert forall|i: int| 0 <= i < names.len() implies !(#[trigger] names[i]).contains('\n') && (
    names[i].len() == 0 || names[i][names[i].len() - 1] != '\r') by {
        assert(names[i] == report.running@[i]@);
    }
    running_names_are_read_back(names);
}

/// The editor is that of VISUAL where it is set, whatever EDITOR is; else that of
/// EDITOR, else nano.
pub proof fn visual_editor_comes_first(v: Seq<char>, other: Option<Seq<char>>)
    ensures
        editor_chosen(Some(v), other) == v,
        editor_chosen(None, Some(v)) == v,
        editor_chosen(None, None) == "nano"@,
{
}

/// A file that exists is tested by opening it; another one by a file of a fixed name
/// in its directory; without a directory it cannot be written.
pub proof fn writing_is_tested_where_the_file_is(
    dir: Seq<char>,
    parent: Option<Seq<char>>,
    r: WriteTest,
)
    ensures
        is_write_test(true, parent, r) <==> r is Open,
        is_write_test(false, Some(dir), r) ==> (r matches WriteTest::Create(path) && path@
            == path_in(dir, ".local-llm-write-test"@)),
        is_write_test(false, None, r) <==> r is Refused,
{
}

/// Names are printed one by one, in order, each on a line of its own.
pub proof fn names_are_printed_one_by_one(before: Seq<Seq<char>>, name: Seq<char>)
    ensures
        on_lines(before.push(name)) == on_lines(before) + name + "\n"@,
        on_lines(Seq::<Seq<char>>::empty()) == Seq::<char>::empty(),
{
    assert(before.push(name).drop_last() =~= before);
    assert(on_lines(Seq::<Seq<char>>::empty()) =~= Seq::<char>::empty());
}

} // verus!
