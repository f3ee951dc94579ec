//! Calls into outside crates. Each item here is trusted: Verus takes its
//! contract as given, and the contract states only what the crate's source
//! shows.

use vstd::prelude::*;
use qrcode::render::unicode::Dense1x2;
use crate::text::{option_text, text_result};

verus! {

/// What `"…".parse::<ipnetwork::IpNetwork>()` gives for the text `s`:
/// `None` when the text is refused, `Some(None)` for an IPv6 network, and
/// `Some(Some((addr, prefix)))` for an IPv4 network with its address (as
/// written, host bits kept) and prefix length.
pub uninterp spec fn ip_network_parse(s: Seq<char>) -> Option<Option<(u32, u8)>>;

/// Calls `IpNetwork::from_str` (ipnetwork). The contract names the result
/// and adds one fact of the source: an IPv4 network is only built with a
/// prefix of at most 32 (`Ipv4Network::new`).
#[verifier::external_body]
pub(crate) fn parse_ip_network(s: &str) -> (r: Option<Option<(u32, u8)>>)
    ensures
        r == ip_network_parse(s@),
        r matches Some(Some(v)) ==> v.1 <= 32,
{
    match s.parse::<ipnetwork::IpNetwork>() {
        Ok(ipnetwork::IpNetwork::V4(n)) => Some(Some((u32::from(n.ip()), n.prefix()))),
        Ok(ipnetwork::IpNetwork::V6(_)) => Some(None),
        Err(_) => None,
    }
}

/// A character that the class `[a-zA-Z0-9_-]` matches.
pub open spec fn is_name_char(c: char) -> bool {
    ('a' <= c && c <= 'z') || ('A' <= c && c <= 'Z') || ('0' <= c && c <= '9') || c == '_' || c
        == '-'
}

/// Calls `regex::Regex::new` and `Regex::is_match` (regex) for the pattern
/// `^[a-zA-Z0-9_-]+$`. The contract states what the crate documents for that
/// pattern: it compiles, and it matches exactly the nonempty texts made of
/// ASCII letters, digits, `_` and `-`.
#[verifier::external_body]
pub(crate) fn regex_is_match(pattern: &str, text: &str) -> (r: Option<bool>)
    requires
        pattern@ == "^[a-zA-Z0-9_-]+$"@,
    ensures
        r == Some(text@.len() > 0 && forall|i: int| 0 <= i < text@.len() ==> is_name_char(#[trigger] text@[i])),
{
    match regex::Regex::new(pattern) {
        Ok(re) => Some(re.is_match(text)),
        Err(_) => None,
    }
}

/// The rest of a line after `### Client `, when it is nonempty and holds no
/// `\n`: the capture group of `^### Client (.+)$`.
pub open spec fn client_header_rest(t: Seq<char>) -> Option<Seq<char>> {
    let rest = t.skip(11);
    if t.len() > 11 && t.take(11) == "### Client "@ && forall|i: int|
        0 <= i < rest.len() ==> #[trigger] rest[i] != '\n' {
        Some(rest)
    } else {
        None
    }
}

/// Calls `regex::Regex::new`, `Regex::captures` and `Captures::get(1)`
/// (regex) for the pattern `^### Client (.+)$`. The contract states what the
/// crate documents for that pattern: it compiles; without the multi-line flag
/// `^` and `$` anchor at the ends of the text and `.` matches any character
/// but a newline; so the group is the rest of a text that starts with
/// `### Client `, when that rest is nonempty and holds no newline.
#[verifier::external_body]
pub(crate) fn regex_first_group(pattern: &str, text: &str) -> (r: Option<Option<String>>)
    requires
        pattern@ == "^### Client (.+)$"@,
    ensures
        r is Some,
        option_text(r->0) == client_header_rest(text@),
{
    match regex::Regex::new(pattern) {
        Ok(re) => Some(re.captures(text).and_then(|caps| caps.get(1)).map(|m| m.as_str().to_string())),
        Err(_) => None,
    }
}

/// What rendering the text as a QR code gives: the picture in Unicode
/// half-block characters, or the message of the error.
pub uninterp spec fn qr_render(content: Seq<char>, invert: bool) -> Result<Seq<char>, Seq<char>>;

/// Calls `qrcode::QrCode::new` on the text and renders the code with
/// `render::<unicode::Dense1x2>()`, swapping the dark and light colours when
/// `invert` holds, or gives the message of the `QrError`. The contract names
/// the result.
#[verifier::external_body]
pub(crate) fn render_qr(content: &str, invert: bool) -> (r: Result<String, String>)
    ensures
        text_result(r) == qr_render(content@, invert),
{
    let (dark, light) = match invert {
        true => (Dense1x2::Light, Dense1x2::Dark),
        false => (Dense1x2::Dark, Dense1x2::Light),
    };
    match qrcode::QrCode::new(content) {
        Ok(code) => Ok(code.render::<Dense1x2>().dark_color(dark).light_color(light).build()),
        Err(e) => Err(e.to_string()),
    }
}

/// What `str::to_lowercase` gives for the text `s`.
pub uninterp spec fn lowercase_text(s: Seq<char>) -> Seq<char>;

/// The ASCII lower-case letter for an upper-case one; any other character
/// unchanged.
pub open spec fn ascii_lower(c: char) -> char {
    if 'A' <= c && c <= 'Z' {
        ((c as int) + 32) as char
    } else {
        c
    }
}

/// Calls `str::to_lowercase` (std). The contract names the result and adds
/// what the documentation gives for ASCII text: each character is mapped to
/// its lower-case letter, the others are kept.
#[verifier::external_body]
pub(crate) fn to_lowercase(s: &str) -> (r: String)
    ensures
        r@ == lowercase_text(s@),
        (forall|i: int| 0 <= i < s@.len() ==> (#[trigger] s@[i] as int) < 128) ==> r@
            == s@.map_values(|c: char| ascii_lower(c)),
{
    s.to_lowercase()
}

} // verus!
