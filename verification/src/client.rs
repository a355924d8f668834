//! What a client of the resourced control socket makes of a reply.

use crate::text::{trim, trimmed};
use vstd::prelude::*;

verus! {

/// What is said where the socket at `path` cannot be reached.
pub open spec fn unreachable_text(path: Seq<char>) -> Seq<char> {
    "connecting to resourced at "@ + path + " (is local-llm-resourced.service running?)"@
}

/// What is said where the socket at `path` cannot be reached.
pub fn connect_context(path: &str) -> (r: String)
    ensures
        r@ == unreachable_text(path@),
        r@ == "connecting to resourced at "@ + path@
            + " (is local-llm-resourced.service running?)"@,
{
    "connecting to resourced at ".to_owned().concat(path).concat(
        " (is local-llm-resourced.service running?)",
    )
}

/// Whether `r` is the reply that a line holds, or the error that there is none.
pub open spec fn replies(line: Seq<char>, r: Result<String, String>) -> bool {
    if trimmed(line).len() == 0 {
        r matches Err(e) && e@ == "empty response from resourced"@
    } else {
        r matches Ok(text) && text@ == trimmed(line)
    }
}

/// The reply that a line holds, or the error that there is none.
pub fn reply(line: &str) -> (r: Result<String, String>)
    ensures
        replies(line@, r),
        match r {
            Ok(text) => trimmed(line@).len() > 0 && text@ == trimmed(line@),
            Err(e) => trimmed(line@).len() == 0 && e@ == "empty response from resourced"@,
        },
{
    let text = trim(line);
    if text.as_str().is_empty() {
        Err("empty response from resourced".to_owned())
    } else {
        Ok(text)
    }
}

} // verus!
