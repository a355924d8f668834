//! The control socket's protocol: one JSON request line in, one JSON response line
//! out.

use crate::runtime::{Request, Response, StatusReport};
use crate::schema::{loaded, Config};
use crate::state::{Failure, Pending, SharedState};
use crate::text::{is_whitespace, trim, trim_end, trim_start, trimmed};
use vstd::prelude::*;

verus! {

/// What happened on a connection.
pub enum Event {
    /// A line came in.
    Line(String),
    /// The line was read as a request, or why it could not be.
    Parsed(Result<Request, String>),
    /// The status that was asked for.
    Reported(StatusReport),
    /// Whether the configuration on disk is valid, or why not.
    Validated(Result<(), String>),
    /// How regenerating went.
    Regenerated(Result<bool, Failure>),
    /// The response as JSON.
    Encoded(String),
}

/// What to do next on a connection.
pub enum Action {
    /// Close it without a response.
    Close,
    /// Read this text as a request.
    Parse(String),
    /// Take the status.
    Report,
    /// Validate the configuration on disk.
    Validate,
    /// Read the configuration again and write its artifacts.
    Regenerate,
    /// Encode a response, after restarting the arbiter where `restart` is set.
    Respond { response: Response, restart: bool },
    /// Send this and close.
    Send(String),
}

/// A payload as it is sent: on a line of its own.
pub open spec fn framed(payload: Seq<char>) -> Seq<char> {
    payload.push('\n')
}

/// A payload as it is sent: on a line of its own.
pub fn frame(payload: String) -> (r: String)
    ensures
        r@ == framed(payload@),
{
    let mut line = payload;
    line.push('\n');
    line
}

/// Whether an action answers with an error that reads `message`.
pub open spec fn answers_error(action: Action, message: Seq<char>) -> bool {
    action matches Action::Respond { response: Response::Error { message: m }, restart } && m@
        == message && !restart
}

/// Whether an action answers that the request was carried out.
pub open spec fn answers_done(action: Action, message: Seq<char>, restart: bool) -> bool {
    action matches Action::Respond { response: Response::Done { message: m }, restart: again }
        && m@ == message && again == restart
}

/// Whether `action` is what an event leads to.
pub open spec fn leads_to(event: Event, action: Action) -> bool {
    match event {
        Event::Line(line) => if trimmed(line@).len() == 0 {
            action is Close
        } else {
            action matches Action::Parse(t) && t@ == trimmed(line@)
        },
        Event::Parsed(Ok(Request::Status)) => action is Report,
        Event::Parsed(Ok(Request::Validate)) => action is Validate,
        Event::Parsed(Ok(Request::Reload)) => action is Regenerate,
        Event::Parsed(Err(e)) => answers_error(action, "invalid request: "@ + e@),
        Event::Reported(report) => action == (Action::Respond {
            response: Response::Status(report),
            restart: false,
        }),
        Event::Validated(Ok(_)) => answers_done(action, "configuration is valid"@, false),
        Event::Validated(Err(e)) => answers_error(action, e@),
        Event::Regenerated(Ok(_)) => answers_done(action, "reloaded; arbiter restarting"@, true),
        Event::Regenerated(Err(f)) => answers_error(action, f.message@),
        Event::Encoded(payload) => action matches Action::Send(line) && line@ == framed(payload@),
    }
}

fn failed(message: String) -> (r: Action)
    ensures
        answers_error(r, message@),
{
    Action::Respond { response: Response::Error { message }, restart: false }
}

fn done(message: &str, restart: bool) -> (r: Action)
    ensures
        answers_done(r, message@, restart),
{
    Action::Respond { response: Response::Done { message: message.to_owned() }, restart }
}

/// What to do next on a connection.
pub fn handle(event: Event) -> (r: Action)
    ensures
        leads_to(event, r),
{
    match event {
        Event::Line(line) => {
            let text = trim(line.as_str());
            if text.as_str().is_empty() {
                Action::Close
            } else {
                Action::Parse(text)
            }
        },
        Event::Parsed(Ok(Request::Status)) => Action::Report,
        Event::Parsed(Ok(Request::Validate)) => Action::Validate,
        Event::Parsed(Ok(Request::Reload)) => Action::Regenerate,
        Event::Parsed(Err(e)) => failed("invalid request: ".to_owned().concat(e.as_str())),
        Event::Reported(report) => Action::Respond {
            response: Response::Status(report),
            restart: false,
        },
        Event::Validated(Ok(_)) => done("configuration is valid", false),
        Event::Validated(Err(e)) => failed(e),
        Event::Regenerated(Ok(_)) => done("reloaded; arbiter restarting", true),
        Event::Regenerated(Err(f)) => failed(f.message),
        Event::Encoded(payload) => Action::Send(frame(payload)),
    }
}

/// Up to and with the first line feed: what reading one line takes.
pub open spec fn first_line(s: Seq<char>) -> Seq<char>
    decreases s.len(),
{
    if s.len() == 0 {
        s
    } else if s.first() == '\n' {
        seq!['\n']
    } else {
        seq![s.first()] + first_line(s.drop_first())
    }
}

/// Whether a payload fits on a line and has no whitespace around it.
pub open spec fn is_line(payload: Seq<char>) -> bool {
    &&& payload.len() > 0
    &&& !payload.contains('\n')
    &&& !is_whitespace(payload.first())
    &&& !is_whitespace(payload.last())
}

proof fn lemma_first_line(payload: Seq<char>, rest: Seq<char>)
    requires
        !payload.contains('\n'),
    ensures
        first_line(framed(payload) + rest) == framed(payload),
    decreases payload.len(),
{
    let s = framed(payload) + rest;
    if payload.len() == 0 {
        assert(s.first() == '\n');
        assert(framed(payload) =~= seq!['\n']);
    } else {
        let tail = payload.drop_first();
        assert forall|i: int| 0 <= i < tail.len() implies tail[i] != '\n' by {
            assert(tail[i] == payload[i + 1]);
            assert(payload.contains(payload[i + 1]));
        }
        lemma_first_line(tail, rest);
        assert(payload.contains(payload[0]));
        assert(s.first() == payload[0]);
        assert(s.drop_first() =~= framed(tail) + rest);
        assert(seq![payload[0]] + framed(tail) =~= framed(payload));
    }
}

/// A payload that is sent is read back by the other side, whatever follows it on
/// the stream.
pub proof fn frame_is_read_back(payload: Seq<char>, rest: Seq<char>)
    requires
        is_line(payload),
    ensures
        trimmed(first_line(framed(payload) + rest)) == payload,
{
    lemma_first_line(payload, rest);
    let line = framed(payload);
    assert(line.first() == payload.first());
    assert(trim_start(line) == line);
    assert(line.last() == '\n');
    assert(line.drop_last() =~= payload);
    assert(is_whitespace('\n'));
    assert(trim_end(payload) == payload);
    assert(trim_end(line) == trim_end(payload));
}

/// A line that is not blank is always answered, in at most one more step once it
/// is parsed: by a response at once, or by a response to what was asked for.
pub proof fn every_request_is_answered(line: String, parse: Action, parsed: Event, next: Action)
    requires
        trimmed(line@).len() > 0,
        leads_to(Event::Line(line), parse),
        parsed is Parsed,
        leads_to(parsed, next),
    ensures
        parse is Parse,
        next is Respond || next is Report || next is Validate || next is Regenerate,
        next is Report ==> forall|report: StatusReport, a: Action|
            #[trigger] leads_to(Event::Reported(report), a) ==> a is Respond,
        next is Validate ==> forall|outcome: Result<(), String>, a: Action|
            #[trigger] leads_to(Event::Validated(outcome), a) ==> a is Respond,
        next is Regenerate ==> forall|outcome: Result<bool, Failure>, a: Action|
            #[trigger] leads_to(Event::Regenerated(outcome), a) ==> a is Respond,
{
}

/// The arbiter is restarted on a connection exactly where regenerating succeeded.
pub proof fn restart_follows_regeneration(event: Event, action: Action)
    requires
        leads_to(event, action),
    ensures
        (action matches Action::Respond { restart, .. } && restart) <==> (
        event matches Event::Regenerated(outcome) && outcome is Ok),
{
}

/// A reload of a configuration that is refused is answered with the error, and
/// restarts nothing.
pub proof fn refused_reload_is_answered(
    before: SharedState,
    file: Result<Result<Config, String>, String>,
    after: SharedState,
    r: Result<Pending, Failure>,
    outcome: Result<bool, Failure>,
    action: Action,
)
    requires
        loaded(file, before.rt.config_path@) is Err,
        before.regenerates(file, after, r),
        outcome is Err,
        outcome->Err_0 == r->Err_0,
        leads_to(Event::Regenerated(outcome), action),
    ensures
        answers_error(action, loaded(file, before.rt.config_path@)->Err_0),
{
}

/// A request to validate is answered with whether the configuration on disk would
/// be accepted, and with the error where it would not.
pub proof fn validation_is_answered(
    state: SharedState,
    file: Result<Result<Config, String>, String>,
    outcome: Result<(), String>,
    action: Action,
)
    requires
        state.validates(file, outcome),
        leads_to(Event::Validated(outcome), action),
    ensures
        match loaded(file, state.rt.config_path@) {
            Ok(_) => answers_done(action, "configuration is valid"@, false),
            Err(text) => answers_error(action, text),
        },
{
}

} // verus!
