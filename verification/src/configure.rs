//! `local-llm configure`: edit the configuration, validate it and offer to apply
//! it.

use crate::runtime::{join_path, path_in};
use crate::schema::{loaded, opt_text, Config};
use crate::text::{same_text, texts, trim, trimmed};
use vstd::prelude::*;

verus! {

/// The environment variables that survive a re-run under sudo, as sudo takes them.
pub const SUDO_PRESERVE_ENV: &'static str =
    "--preserve-env=EDITOR,VISUAL,LOCAL_LLM_CONFIG,LOCAL_LLM_RUNTIME_DIR";

/// The file that is created to learn whether a directory is writable.
pub const WRITE_TEST_FILE: &'static str = ".local-llm-write-test";

/// What happened while the configuration is being edited.
pub enum Event {
    /// Whether the file can be written.
    Writable(bool),
    /// Whether the file exists.
    Exists(bool),
    /// Whether the editor exited with success.
    Edited(bool),
    /// What was then read from the file.
    Loaded(Result<Result<Config, String>, String>),
    /// Whether there is somebody at a terminal to ask.
    Terminal(bool),
    /// What they answered.
    Answered(String),
}

/// What to do next while the configuration is being edited.
pub enum Action {
    /// Say this and run again under sudo.
    Escalate(String),
    /// See whether the file exists.
    CheckExists,
    /// Fail with this error.
    Fail(String),
    /// Open the file in the editor.
    Edit,
    /// Read the file.
    Load,
    /// Say these on standard error, each on a line, and stop.
    Warn(Vec<String>),
    /// Print this and see whether there is a terminal.
    CheckTerminal(String),
    /// Print this and read a line.
    Ask(String),
    /// Apply the changes.
    Reload,
    /// Print this and stop.
    Later(String),
}

/// What `str::to_lowercase` makes of a text.
pub uninterp spec fn lowercase(s: Seq<char>) -> Seq<char>;

pub open spec fn is_ascii_text(s: Seq<char>) -> bool {
    forall|i: int| 0 <= i < s.len() ==> (#[trigger] s[i] as u32) < 128
}

/// The lowercase form of an ASCII character.
pub open spec fn ascii_lower(c: char) -> char {
    if 'A' <= c <= 'Z' {
        (c as u32 + 32) as char
    } else {
        c
    }
}

/// `str::to_lowercase`: the lowercase form of a text is a function of the text
/// alone. On ASCII text it replaces each capital letter by the small one and keeps
/// every other character.
#[verifier::external_body]
fn to_lowercase(s: &str) -> (r: String)
    ensures
        r@ == lowercase(s@),
        is_ascii_text(s@) ==> r@ == s@.map_values(|c: char| ascii_lower(c)),
{
    s.to_lowercase()
}

/// Whether a lowercase answer is a yes; an empty one is the default.
pub open spec fn is_yes(answer: Seq<char>, default_yes: bool) -> bool {
    if answer.len() == 0 {
        default_yes
    } else {
        answer == "y"@ || answer == "yes"@
    }
}

/// Whether a lowercase answer is a yes; an empty one is the default.
pub fn accepts(answer: &str, default_yes: bool) -> (r: bool)
    ensures
        r == is_yes(answer@, default_yes),
{
    if answer.is_empty() {
        default_yes
    } else {
        same_text(answer, "y") || same_text(answer, "yes")
    }
}

/// Whether a line that was typed is a yes. Case and surrounding whitespace do not
/// matter.
pub fn answer(line: &str, default_yes: bool) -> (r: bool)
    ensures
        r == is_yes(lowercase(trimmed(line@)), default_yes),
        is_ascii_text(trimmed(line@)) ==> r == is_yes(
            trimmed(line@).map_values(|c: char| ascii_lower(c)),
            default_yes,
        ),
        trimmed(line@).len() == 0 ==> r == default_yes,
{
    let text = trim(line);
    let lowered = to_lowercase(text.as_str());
    accepts(lowered.as_str(), default_yes)
}

/// The question as it is printed, with a hint at the default.
pub open spec fn question_shown(question: Seq<char>, default_yes: bool) -> Seq<char> {
    question + (if default_yes {
        " [Y/n] "@
    } else {
        " [y/N] "@
    })
}

/// The question as it is printed, with a hint at the default.
pub fn prompt_yes_no(question: &str, default_yes: bool) -> (r: String)
    ensures
        r@ == question_shown(question@, default_yes),
{
    question.to_owned().concat(
        if default_yes {
            " [Y/n] "
        } else {
            " [y/N] "
        },
    )
}

/// The editor that is run.
pub open spec fn editor_chosen(
    visual: Option<Seq<char>>,
    line_editor: Option<Seq<char>>,
) -> Seq<char> {
    if visual is Some {
        visual->0
    } else if line_editor is Some {
        line_editor->0
    } else {
        "nano"@
    }
}

/// The editor: the one of VISUAL, else that of EDITOR, else nano.
pub fn editor(visual: Option<String>, line_editor: Option<String>) -> (r: String)
    ensures
        r@ == editor_chosen(opt_text(visual), opt_text(line_editor)),
        r@ == (match (visual, line_editor) {
            (Some(v), _) => v@,
            (None, Some(e)) => e@,
            (None, None) => "nano"@,
        }),
{
    match visual {
        Some(v) => v,
        None => match line_editor {
            Some(e) => e,
            None => "nano".to_owned(),
        },
    }
}

/// How to learn whether a file can be written.
pub enum WriteTest {
    /// Open the file for writing.
    Open,
    /// Create this file, and remove it.
    Create(String),
    /// It cannot be.
    Refused,
}

/// Whether `r` is how to learn whether a file can be written.
pub open spec fn is_write_test(exists: bool, parent: Option<Seq<char>>, r: WriteTest) -> bool {
    if exists {
        r is Open
    } else {
        match parent {
            Some(dir) => r matches WriteTest::Create(path) && path@ == path_in(
                dir,
                WRITE_TEST_FILE@,
            ),
            None => r is Refused,
        }
    }
}

/// How to learn whether a file can be written: by opening it where it exists, else
/// by creating a file in its directory.
pub fn can_write(exists: bool, parent: Option<&str>) -> (r: WriteTest)
    ensures
        is_write_test(
            exists,
            match parent {
                Some(dir) => Some(dir@),
                None => None,
            },
            r,
        ),
        exists ==> r is Open,
        !exists ==> (match parent {
            Some(dir) => r matches WriteTest::Create(path) && path@ == path_in(
                dir@,
                WRITE_TEST_FILE@,
            ),
            None => r is Refused,
        }),
{
    if exists {
        WriteTest::Open
    } else {
        match parent {
            Some(dir) => WriteTest::Create(join_path(dir, WRITE_TEST_FILE)),
            None => WriteTest::Refused,
        }
    }
}

/// Whether `action` is what an event leads to while the configuration at `path` is
/// being edited.
pub open spec fn leads_to(path: Seq<char>, event: Event, action: Action) -> bool {
    match event {
        Event::Writable(true) => action is CheckExists,
        Event::Writable(false) => action matches Action::Escalate(text) && text@ == "Editing "@
            + path + " requires root; re-running under sudo..."@,
        Event::Exists(true) => action is Edit,
        Event::Exists(false) => action matches Action::Fail(text) && text@
            == "config not found at "@ + path + " (is the local-llm NixOS module enabled?)"@,
        Event::Edited(true) => action is Load,
        Event::Edited(false) => action matches Action::Warn(lines) && texts(lines@)
            == seq!["editor exited without success; leaving config unchanged"@],
        Event::Loaded(file) => match loaded(file, path) {
            Ok(_) => action matches Action::CheckTerminal(text) && text@
                == "configuration is valid."@,
            Err(e) => action matches Action::Warn(lines) && texts(lines@)
                == seq![
                "warning: configuration is INVALID: "@ + e,
                "the arbiter will keep using the last valid config until fixed."@,
            ],
        },
        Event::Terminal(true) => action matches Action::Ask(text) && text@ == question_shown(
            "Apply changes now (reload)?"@,
            true,
        ),
        Event::Terminal(false) => is_later(action),
        Event::Answered(line) => if is_yes(lowercase(trimmed(line@)), true) {
            action is Reload
        } else {
            is_later(action)
        },
    }
}

/// Whether an action leaves the changes to be applied later.
pub open spec fn is_later(action: Action) -> bool {
    action matches Action::Later(text) && text@
        == "Run `local-llm reload` when you're ready to apply changes."@
}

fn later() -> (r: Action)
    ensures
        is_later(r),
{
    Action::Later("Run `local-llm reload` when you're ready to apply changes.".to_owned())
}

/// What to do next while the configuration at `path` is being edited.
pub fn configure(path: &str, event: Event) -> (r: Action)
    ensures
        leads_to(path@, event, r),
{
    match event {
        Event::Writable(true) => Action::CheckExists,
        Event::Writable(false) => Action::Escalate(
            "Editing ".to_owned().concat(path).concat(
                " requires root; re-running under sudo...",
            ),
        ),
        Event::Exists(true) => Action::Edit,
        Event::Exists(false) => Action::Fail(
            "config not found at ".to_owned().concat(path).concat(
                " (is the local-llm NixOS module enabled?)",
            ),
        ),
        Event::Edited(true) => Action::Load,
        Event::Edited(false) => {
            let mut lines: Vec<String> = Vec::new();
            lines.push(
                "editor exited without success; leaving config unchanged".to_owned(),
            );
            assert(texts(lines@)
                =~= seq!["editor exited without success; leaving config unchanged"@]);
            Action::Warn(lines)
        },
        Event::Loaded(file) => match Config::load(file, path) {
            Ok(_) => Action::CheckTerminal("configuration is valid.".to_owned()),
            Err(e) => {
                let first = "warning: configuration is INVALID: ".to_owned().concat(
                    e.message().as_str(),
                );
                let second =
                    "the arbiter will keep using the last valid config until fixed.".to_owned();
                let ghost said = seq![first@, second@];
                let mut lines: Vec<String> = Vec::new();
                lines.push(first);
                lines.push(second);
                assert(texts(lines@) =~= said);
                Action::Warn(lines)
            },
        },
        Event::Terminal(true) => Action::Ask(prompt_yes_no("Apply changes now (reload)?", true)),
        Event::Terminal(false) => later(),
        Event::Answered(line) => if answer(line.as_str(), true) {
            Action::Reload
        } else {
            later()
        },
    }
}

/// Changes are applied only after the configuration was found valid: what applies
/// them is an answer, the question follows only on a terminal, and the terminal is
/// looked at only where the file that was edited is valid.
pub proof fn only_valid_changes_are_applied(path: Seq<char>, event: Event, action: Action)
    requires
        leads_to(path, event, action),
    ensures
        action is Reload ==> event is Answered,
        action is Ask ==> event == Event::Terminal(true),
        action is CheckTerminal ==> (event matches Event::Loaded(file) && loaded(file, path)
            is Ok),
        action is Load ==> event == Event::Edited(true),
{
}

} // verus!
