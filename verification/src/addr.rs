//! Socket addresses as text.

use crate::text::decimal;
use vstd::prelude::*;

verus! {

/// Whether a text parses as a `SocketAddr` (an IP address and a port).
pub uninterp spec fn socket_addr_text(s: Seq<char>) -> bool;

/// An IPv4 address in dot-decimal notation, a colon and a port.
pub open spec fn v4_text(a: nat, b: nat, c: nat, d: nat, port: nat) -> Seq<char> {
    decimal(a).push('.') + decimal(b).push('.') + decimal(c).push('.') + decimal(d).push(':')
        + decimal(port)
}

/// Whether a text is an IPv4 address in dot-decimal notation, a colon and a port.
pub open spec fn is_v4_text(s: Seq<char>) -> bool {
    exists|a: nat, b: nat, c: nat, d: nat, port: nat|
        s == #[trigger] v4_text(a, b, c, d, port) && a < 256 && b < 256 && c < 256 && d < 256
            && port < 65536
}

/// What is known of a text as a socket address: an IPv4 address with a port is one,
/// and no text without a colon is.
pub open spec fn known_forms(s: Seq<char>) -> bool {
    &&& is_v4_text(s) ==> socket_addr_text(s)
    &&& !s.contains(':') ==> !socket_addr_text(s)
}

/// `str::parse` to a `core::net::SocketAddr`: whether it succeeds is a function of
/// the text alone. It does on an IPv4 address in dot-decimal notation with a colon
/// and a port behind it; it does not where there is no colon, since a colon stands
/// before the port in every form.
#[verifier::external_body]
pub(crate) fn is_socket_addr(s: &str) -> (r: bool)
    ensures
        r == socket_addr_text(s@),
        is_v4_text(s@) ==> r,
        !s@.contains(':') ==> !r,
{
    s.parse::<core::net::SocketAddr>().is_ok()
}

} // verus!
