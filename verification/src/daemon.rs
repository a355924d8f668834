//! What the daemon logs and how it reacts to changes of the configuration file.

use crate::runtime::Runtime;
use crate::state::Failure;
use vstd::prelude::*;

verus! {

/// A line of the daemon's log.
pub open spec fn log_line(msg: Seq<char>) -> Seq<char> {
    "[resourced] "@ + msg
}

/// The line that logs a message (journald adds timestamps).
pub fn log(msg: &str) -> (r: String)
    ensures
        r@ == log_line(msg@),
{
    "[resourced] ".to_owned().concat(msg)
}

/// The message that the daemon starts with.
pub open spec fn start_text(rt: Runtime) -> Seq<char> {
    "starting; config="@ + rt.config_path@ + " runtime_dir="@ + rt.runtime_dir@
}

/// The message that the daemon starts with.
pub fn start_message(rt: &Runtime) -> (r: String)
    ensures
        r@ == start_text(*rt),
        r@ == "starting; config="@ + rt.config_path@ + " runtime_dir="@ + rt.runtime_dir@,
{
    "starting; config=".to_owned().concat(rt.config_path.as_str()).concat(" runtime_dir=").concat(
        rt.runtime_dir.as_str(),
    )
}

/// The message that says how the initial generation went.
pub open spec fn initial_text(outcome: Result<bool, Failure>) -> Seq<char> {
    match outcome {
        Ok(_) => "generated initial arbiter config"@,
        Err(f) => "WARNING: initial config invalid: "@ + f.chain(),
    }
}

/// The message that says how the initial generation went.
pub fn initial_message(outcome: &Result<bool, Failure>) -> (r: String)
    ensures
        r@ == initial_text(*outcome),
        r@ == (match outcome {
            Ok(_) => "generated initial arbiter config"@,
            Err(f) => "WARNING: initial config invalid: "@ + f.chain(),
        }),
{
    match outcome {
        Ok(_) => "generated initial arbiter config".to_owned(),
        Err(f) => "WARNING: initial config invalid: ".to_owned().concat(f.detail().as_str()),
    }
}

/// The directory to watch.
pub open spec fn watched(parent: Option<Seq<char>>) -> Seq<char> {
    match parent {
        Some(dir) => dir,
        None => "/etc/local-llm"@,
    }
}

/// The directory to watch: the one that holds the configuration file. (Editors
/// replace the file via rename, so watching the directory is more reliable than
/// watching the file.)
pub fn watch_dir(parent: Option<String>) -> (r: String)
    ensures
        r@ == watched(
            match parent {
                Some(dir) => Some(dir@),
                None => None,
            },
        ),
        r@ == (match parent {
            Some(dir) => dir@,
            None => "/etc/local-llm"@,
        }),
{
    match parent {
        Some(dir) => dir,
        None => "/etc/local-llm".to_owned(),
    }
}

/// The message that says whether the directory is watched.
pub open spec fn watch_text(dir: Seq<char>, error: Option<Seq<char>>) -> Seq<char> {
    match error {
        Some(e) => "WARNING: cannot watch "@ + dir + " ("@ + e + "); live reload disabled"@,
        None => "watching "@ + dir + " for changes"@,
    }
}

/// The message that says whether the directory is watched; `error` is why it
/// cannot be.
pub fn watch_message(dir: &str, error: Option<&str>) -> (r: String)
    ensures
        r@ == watch_text(
            dir@,
            match error {
                Some(e) => Some(e@),
                None => None,
            },
        ),
        r@ == (match error {
            Some(e) => "WARNING: cannot watch "@ + dir@ + " ("@ + e@ + "); live reload disabled"@,
            None => "watching "@ + dir@ + " for changes"@,
        }),
{
    match error {
        Some(e) => "WARNING: cannot watch ".to_owned().concat(dir).concat(" (").concat(e).concat(
            "); live reload disabled",
        ),
        None => "watching ".to_owned().concat(dir).concat(" for changes"),
    }
}

/// A change in the watched directory: the last component of each path that it
/// concerns, where the path has one.
pub struct Event {
    pub names: Vec<Option<Vec<u8>>>,
}

/// Whether a path's last component is `name`.
pub open spec fn is_named(component: Option<Vec<u8>>, name: Seq<u8>) -> bool {
    component matches Some(c) && c@ == name
}

/// Whether what the watcher reports concerns the configuration file. Where the
/// file's name is not known, every change does.
pub open spec fn touches(res: Result<Event, String>, config_name: Option<Seq<u8>>) -> bool {
    match res {
        Err(_) => false,
        Ok(event) => match config_name {
            None => true,
            Some(name) => exists|i: int|
                0 <= i < event.names@.len() && is_named(#[trigger] event.names@[i], name),
        },
    }
}

pub open spec fn bytes_of(name: Option<&Vec<u8>>) -> Option<Seq<u8>> {
    match name {
        Some(n) => Some(n@),
        None => None,
    }
}

fn same_bytes(a: &Vec<u8>, b: &Vec<u8>) -> (r: bool)
    ensures
        r == (a@ == b@),
{
    if a.len() != b.len() {
        return false;
    }
    let mut i: usize = 0;
    while i < a.len()
        invariant
            i <= a@.len(),
            a@.len() == b@.len(),
            forall|k: int| 0 <= k < i ==> a@[k] == b@[k],
        decreases a@.len() - i,
    {
        if a[i] != b[i] {
            return false;
        }
        i += 1;
    }
    assert(a@ =~= b@);
    true
}

fn any_named(names: &Vec<Option<Vec<u8>>>, name: &Vec<u8>) -> (r: bool)
    ensures
        r == exists|i: int| 0 <= i < names@.len() && is_named(#[trigger] names@[i], name@),
{
    let mut i: usize = 0;
    while i < names.len()
        invariant
            i <= names@.len(),
            forall|k: int| 0 <= k < i ==> !is_named(#[trigger] names@[k], name@),
        decreases names@.len() - i,
    {
        if let Some(component) = &names[i] {
            if same_bytes(component, name) {
                assert(is_named(names@[i as int], name@));
                return true;
            }
        }
        i += 1;
    }
    false
}

/// Whether a watcher event concerns our config file.
pub fn event_touches(res: &Result<Event, String>, config_name: Option<&Vec<u8>>) -> (r: bool)
    ensures
        r == touches(*res, bytes_of(config_name)),
{
    match res {
        Err(_) => false,
        Ok(event) => match config_name {
            None => true,
            Some(name) => any_named(&event.names, name),
        },
    }
}

/// Whether a burst of events concerns our config file: one of them does.
pub fn burst_touches(
    burst: &Vec<Result<Event, String>>,
    config_name: Option<&Vec<u8>>,
) -> (r: bool)
    ensures
        r == exists|i: int|
            0 <= i < burst@.len() && touches(#[trigger] burst@[i], bytes_of(config_name)),
{
    let mut i: usize = 0;
    while i < burst.len()
        invariant
            i <= burst@.len(),
            forall|k: int|
                0 <= k < i ==> !touches(#[trigger] burst@[k], bytes_of(config_name)),
        decreases burst@.len() - i,
    {
        if event_touches(&burst[i], config_name) {
            return true;
        }
        i += 1;
    }
    false
}

/// How long a burst of events is collected, in milliseconds from its first event.
pub const BURST_MS: u64 = 400;

/// How many milliseconds are left of a burst.
pub open spec fn left_of_burst(elapsed_ms: nat) -> nat {
    if elapsed_ms < BURST_MS {
        (BURST_MS - elapsed_ms) as nat
    } else {
        0
    }
}

/// How many milliseconds are left to wait for further events of a burst, so long
/// after its first one.
pub fn burst_left(elapsed_ms: u64) -> (r: u64)
    ensures
        r == left_of_burst(elapsed_ms as nat),
        r == (if elapsed_ms < BURST_MS {
            (BURST_MS - elapsed_ms) as u64
        } else {
            0
        }),
{
    if elapsed_ms < BURST_MS {
        BURST_MS - elapsed_ms
    } else {
        0
    }
}

/// What follows a regeneration that a change of the file caused.
pub struct Reaction {
    pub message: String,
    pub restart: bool,
}

/// Whether `r` is what follows a regeneration that a change of the file caused.
pub open spec fn reacts(outcome: Result<bool, Failure>, r: Reaction) -> bool {
    match outcome {
        Ok(true) => r.restart && r.message@ == "config changed; restarting arbiter"@,
        Ok(false) => !r.restart && r.message@ == "config unchanged after regeneration"@,
        Err(f) => !r.restart && r.message@ == "config invalid, keeping previous: "@ + f.chain(),
    }
}

/// What follows a regeneration that a change of the file caused: the arbiter is
/// restarted exactly where the generated config changed.
pub fn after_change(outcome: &Result<bool, Failure>) -> (r: Reaction)
    ensures
        reacts(*outcome, r),
        r.restart == (*outcome == Ok::<bool, Failure>(true)),
        r.message@ == (match outcome {
            Ok(true) => "config changed; restarting arbiter"@,
            Ok(false) => "config unchanged after regeneration"@,
            Err(f) => "config invalid, keeping previous: "@ + f.chain(),
        }),
{
    match outcome {
        Ok(true) => Reaction {
            message: "config changed; restarting arbiter".to_owned(),
            restart: true,
        },
        Ok(false) => Reaction {
            message: "config unchanged after regeneration".to_owned(),
            restart: false,
        },
        Err(f) => Reaction {
            message: "config invalid, keeping previous: ".to_owned().concat(f.detail().as_str()),
            restart: false,
        },
    }
}

/// How `systemctl restart` of the arbiter went.
pub enum Restart {
    Succeeded,
    /// It ran and failed; its exit status in words.
    Exited(String),
    /// It could not be run; why.
    NotRun(String),
}

/// The message that says how restarting a unit went.
pub open spec fn restart_text(unit: Seq<char>, outcome: Restart) -> Seq<char> {
    match outcome {
        Restart::Succeeded => "restarted "@ + unit,
        Restart::Exited(s) => "systemctl restart "@ + unit + " exited with "@ + s@,
        Restart::NotRun(e) => "failed to run systemctl restart "@ + unit + ": "@ + e@,
    }
}

/// The message that says how restarting the arbiter went.
pub fn restart_message(rt: &Runtime, outcome: &Restart) -> (r: String)
    ensures
        r@ == restart_text(rt.arbiter_unit@, *outcome),
        r@ == (match outcome {
            Restart::Succeeded => "restarted "@ + rt.arbiter_unit@,
            Restart::Exited(s) => "systemctl restart "@ + rt.arbiter_unit@ + " exited with "@ + s@,
            Restart::NotRun(e) => "failed to run systemctl restart "@ + rt.arbiter_unit@ + ": "@
                + e@,
        }),
{
    let unit = rt.arbiter_unit.as_str();
    match outcome {
        Restart::Succeeded => "restarted ".to_owned().concat(unit),
        Restart::Exited(s) => "systemctl restart ".to_owned().concat(unit).concat(
            " exited with ",
        ).concat(s.as_str()),
        Restart::NotRun(e) => "failed to run systemctl restart ".to_owned().concat(unit).concat(
            ": ",
        ).concat(e.as_str()),
    }
}

} // verus!
