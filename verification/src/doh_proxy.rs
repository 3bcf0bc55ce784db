//! Sending queries through proxies: tunnels through HTTP CONNECT and SOCKS5 (RFC 1928),
//! and DNS-over-HTTPS requests through an HTTP proxy. What is written to a proxy and what
//! its replies mean is decided here; the streams are a caller's.
use vstd::prelude::*;
use vstd::slice::{slice_subrange, slice_to_vec};
use vstd::string::*;
use vstd::utf8::encode_utf8;

use crate::addr::{
    after, before, find_char, holds, socket_text, socket_to_string, IpAddress, SocketAddress,
};
use crate::codec::{base64_encode, base64_text, be128, be16, be32, push_be128, push_be16, push_be32};
use crate::text::{
    chars_of, decimal, decimal_string, eq_text, find_part, from_utf8_lossy, join2, join3, join5,
    lossy_text, lowercase, occurrence, optional_str, optional_text, string_of, to_lowercase, trim,
    trimmed,
};

verus! {

broadcast use vstd::string::group_string_axioms;

// ---------------------------------------------------------------------------
// Configuration
// ---------------------------------------------------------------------------
/// Proxy operating mode.
#[derive(Debug, Clone, Copy, PartialEq, Eq, Structural)]
pub enum ProxyMode {
    /// TCP tunnel via HTTP CONNECT.
    Connect,
    /// TCP tunnel via SOCKS5 (RFC 1928).
    Socks5,
    /// DNS-over-HTTPS requests through an HTTP proxy.
    Doh,
}

/// The mode that a text names; a tunnel via HTTP CONNECT where it names none.
pub open spec fn mode_named(s: Seq<char>) -> ProxyMode {
    if lowercase(s) == "socks5"@ {
        ProxyMode::Socks5
    } else if lowercase(s) == "doh"@ {
        ProxyMode::Doh
    } else {
        ProxyMode::Connect
    }
}

/// The name of a mode.
pub open spec fn mode_name(mode: ProxyMode) -> Seq<char> {
    match mode {
        ProxyMode::Connect => "connect"@,
        ProxyMode::Socks5 => "socks5"@,
        ProxyMode::Doh => "doh"@,
    }
}

impl ProxyMode {
    /// The mode that a text names, in any case.
    pub fn parse(s: &str) -> (r: ProxyMode)
        ensures
            r == mode_named(s@),
    {
        let lower = to_lowercase(s);
        if eq_text(lower.as_str(), "socks5") {
            ProxyMode::Socks5
        } else if eq_text(lower.as_str(), "doh") {
            ProxyMode::Doh
        } else {
            ProxyMode::Connect
        }
    }

    /// The name of this mode.
    pub fn as_str(&self) -> (r: &'static str)
        ensures
            r@ == mode_name(*self),
    {
        match self {
            ProxyMode::Connect => "connect",
            ProxyMode::Socks5 => "socks5",
            ProxyMode::Doh => "doh",
        }
    }
}

/// A proxy as a configuration file describes it.
#[derive(Debug)]
pub struct ProxySettings {
    pub url: String,
    pub auth: Option<String>,
    pub mode: String,
}

/// A proxy.
#[derive(Debug)]
pub struct ProxyConfig {
    /// Proxy URL, such as "http://proxy:8080" or "socks5://127.0.0.1:1080".
    pub url: String,
    /// Proxy authentication, "user:pass".
    pub auth: Option<String>,
    /// How the proxy is used.
    pub mode: ProxyMode,
}

fn copy_optional(s: &Option<String>) -> (r: Option<String>)
    ensures
        optional_text(r) == optional_text(*s),
{
    match s {
        Some(t) => Some(t.as_str().to_owned()),
        None => None,
    }
}

impl Clone for ProxyConfig {
    fn clone(&self) -> (r: ProxyConfig)
        ensures
            r.url@ == self.url@,
            optional_text(r.auth) == optional_text(self.auth),
            r.mode == self.mode,
    {
        ProxyConfig {
            url: self.url.as_str().to_owned(),
            auth: copy_optional(&self.auth),
            mode: self.mode,
        }
    }
}

impl ProxyConfig {
    /// The proxy that a configuration describes.
    pub fn from(settings: &ProxySettings) -> (r: ProxyConfig)
        ensures
            r.url@ == settings.url@,
            optional_text(r.auth) == optional_text(settings.auth),
            r.mode == mode_named(settings.mode@),
    {
        ProxyConfig {
            url: settings.url.as_str().to_owned(),
            auth: copy_optional(&settings.auth),
            mode: ProxyMode::parse(settings.mode.as_str()),
        }
    }
}

// ---------------------------------------------------------------------------
// Errors
// ---------------------------------------------------------------------------
/// Why a proxy cannot be used.
#[derive(Debug)]
pub enum ProxyError {
    /// The proxy did not open a tunnel; what it said.
    ConnectFailed(String),
    /// The greeting was answered with another version.
    GreetingVersion(u8),
    /// The proxy wants credentials, and there are none.
    AuthenticationRequired,
    /// The credentials were turned down, with this status.
    AuthenticationFailed(u8),
    /// The proxy accepts none of the offered methods.
    NoAcceptableMethod,
    /// The proxy chose a method that was not offered.
    UnsupportedMethod(u8),
    /// The request was answered with another version.
    ReplyVersion,
    /// The request was turned down, with this code.
    Refused(u8),
    /// The reply has an address of an unknown type.
    UnknownAddressType(u8),
    /// The response has no end of its header.
    MalformedResponse,
    /// The request failed; the status line.
    RequestFailed(String),
    /// The response has no body.
    EmptyBody,
}

/// What the code of a SOCKS5 reply means.
pub open spec fn reply_meaning(code: u8) -> Seq<char> {
    if code == 1 {
        "general SOCKS server failure"@
    } else if code == 2 {
        "connection not allowed by ruleset"@
    } else if code == 3 {
        "network unreachable"@
    } else if code == 4 {
        "host unreachable"@
    } else if code == 5 {
        "connection refused"@
    } else if code == 6 {
        "TTL expired"@
    } else if code == 7 {
        "command not supported"@
    } else if code == 8 {
        "address type not supported"@
    } else {
        "unknown error"@
    }
}

fn meaning_of_reply(code: u8) -> (r: &'static str)
    ensures
        r@ == reply_meaning(code),
{
    match code {
        1 => "general SOCKS server failure",
        2 => "connection not allowed by ruleset",
        3 => "network unreachable",
        4 => "host unreachable",
        5 => "connection refused",
        6 => "TTL expired",
        7 => "command not supported",
        8 => "address type not supported",
        _ => "unknown error",
    }
}

/// The message of an error.
pub open spec fn error_text(e: ProxyError) -> Seq<char> {
    match e {
        ProxyError::ConnectFailed(said) => "proxy CONNECT failed: "@ + said@,
        ProxyError::GreetingVersion(v) => "SOCKS5: invalid version in greeting response: "@
            + decimal(v as nat),
        ProxyError::AuthenticationRequired => "SOCKS5 proxy requires authentication"@,
        ProxyError::AuthenticationFailed(status) => "SOCKS5: authentication failed (status "@
            + decimal(status as nat) + ")"@,
        ProxyError::NoAcceptableMethod => "SOCKS5: no acceptable authentication method"@,
        ProxyError::UnsupportedMethod(m) => "SOCKS5: unsupported authentication method: "@
            + decimal(m as nat),
        ProxyError::ReplyVersion => "SOCKS5: invalid version in connect response"@,
        ProxyError::Refused(code) => "SOCKS5 CONNECT failed: "@ + reply_meaning(code) + " (code "@
            + decimal(code as nat) + ")"@,
        ProxyError::UnknownAddressType(t) => "SOCKS5: unknown address type in response: "@
            + decimal(t as nat),
        ProxyError::MalformedResponse => "DoH proxy: malformed HTTP response"@,
        ProxyError::RequestFailed(line) => "DoH proxy request failed: "@ + line@,
        ProxyError::EmptyBody => "DoH proxy: empty response body"@,
    }
}

impl ProxyError {
    /// The message of this error.
    pub fn message(&self) -> (r: String)
        ensures
            r@ == error_text(*self),
    {
        match self {
            ProxyError::ConnectFailed(said) => join2("proxy CONNECT failed: ", said.as_str()),
            ProxyError::GreetingVersion(v) => join2(
                "SOCKS5: invalid version in greeting response: ",
                decimal_string(*v as u64).as_str(),
            ),
            ProxyError::AuthenticationRequired => "SOCKS5 proxy requires authentication".to_owned(),
            ProxyError::AuthenticationFailed(status) => join3(
                "SOCKS5: authentication failed (status ",
                decimal_string(*status as u64).as_str(),
                ")",
            ),
            ProxyError::NoAcceptableMethod =>
                "SOCKS5: no acceptable authentication method".to_owned(),
            ProxyError::UnsupportedMethod(m) => join2(
                "SOCKS5: unsupported authentication method: ",
                decimal_string(*m as u64).as_str(),
            ),
            ProxyError::ReplyVersion => "SOCKS5: invalid version in connect response".to_owned(),
            ProxyError::Refused(code) => join5(
                "SOCKS5 CONNECT failed: ",
                meaning_of_reply(*code),
                " (code ",
                decimal_string(*code as u64).as_str(),
                ")",
            ),
            ProxyError::UnknownAddressType(t) => join2(
                "SOCKS5: unknown address type in response: ",
                decimal_string(*t as u64).as_str(),
            ),
            ProxyError::MalformedResponse => "DoH proxy: malformed HTTP response".to_owned(),
            ProxyError::RequestFailed(line) => join2("DoH proxy request failed: ", line.as_str()),
            ProxyError::EmptyBody => "DoH proxy: empty response body".to_owned(),
        }
    }
}

// ---------------------------------------------------------------------------
// Where the proxy is
// ---------------------------------------------------------------------------
/// `s` without `prefix` at its front, however often it stands there.
pub open spec fn without_prefix(s: Seq<char>, prefix: Seq<char>) -> Seq<char>
    decreases s.len(),
{
    if prefix.len() > 0 && prefix.len() <= s.len() && s.subrange(0, prefix.len() as int) == prefix {
        without_prefix(s.subrange(prefix.len() as int, s.len() as int), prefix)
    } else {
        s
    }
}

/// The host and port of a proxy: its URL without a scheme, on port 8080 where it gives none.
pub open spec fn proxy_addr(url: Seq<char>) -> Seq<char> {
    let rest = without_prefix(
        without_prefix(without_prefix(url, "http://"@), "https://"@),
        "socks5://"@,
    );
    if holds(rest, ':') {
        rest
    } else {
        rest + ":8080"@
    }
}

fn starts_with(s: &[char], prefix: &[char]) -> (r: bool)
    ensures
        r == (prefix@.len() <= s@.len() && s@.subrange(0, prefix@.len() as int) == prefix@),
{
    if prefix.len() > s.len() {
        return false;
    }
    let mut i: usize = 0;
    while i < prefix.len()
        invariant
            i <= prefix.len() <= s.len(),
            s@.subrange(0, i as int) == prefix@.subrange(0, i as int),
        decreases prefix.len() - i,
    {
        if s[i] != prefix[i] {
            assert(s@.subrange(0, prefix@.len() as int)[i as int] != prefix@[i as int]);
            return false;
        }
        assert(s@.subrange(0, i + 1) =~= s@.subrange(0, i as int).push(s@[i as int]));
        assert(prefix@.subrange(0, i + 1) =~= prefix@.subrange(0, i as int).push(
            prefix@[i as int],
        ));
        i = i + 1;
    }
    assert(prefix@.subrange(0, i as int) =~= prefix@);
    true
}

fn skip_prefix(s: Vec<char>, prefix: &str) -> (r: Vec<char>)
    ensures
        r@ == without_prefix(s@, prefix@),
{
    let p = chars_of(prefix);
    let mut rest: Vec<char> = s;
    while p.len() > 0 && starts_with(rest.as_slice(), p.as_slice())
        invariant
            p@ == prefix@,
            without_prefix(s@, prefix@) == without_prefix(rest@, prefix@),
        decreases rest@.len(),
    {
        let ghost all = rest@;
        rest = slice_to_vec(slice_subrange(rest.as_slice(), p.len(), rest.len()));
        assert(rest@ =~= all.subrange(p@.len() as int, all.len() as int));
    }
    rest
}

/// Parses a proxy URL into a host and port. Any text has one.
pub fn parse_proxy_addr(url: &str) -> (r: Result<String, ProxyError>)
    ensures
        r is Ok,
        r->Ok_0@ == proxy_addr(url@),
{
    let rest = skip_prefix(
        skip_prefix(skip_prefix(chars_of(url), "http://"), "https://"),
        "socks5://",
    );
    let text = string_of(rest.as_slice());
    if find_char(rest.as_slice(), ':') < rest.len() {
        Ok(text)
    } else {
        Ok(join2(text.as_str(), ":8080"))
    }
}

// ---------------------------------------------------------------------------
// HTTP CONNECT
// ---------------------------------------------------------------------------
/// The header line that carries credentials.
pub open spec fn authorization_line(auth: Option<Seq<char>>) -> Seq<char> {
    match auth {
        Some(a) => "Proxy-Authorization: Basic "@ + base64_text(encode_utf8(a)) + "\r\n"@,
        None => Seq::empty(),
    }
}

fn authorization(auth: Option<&str>) -> (r: String)
    ensures
        r@ == authorization_line(optional_str(auth)),
{
    match auth {
        Some(a) => join3(
            "Proxy-Authorization: Basic ",
            base64_encode(a.as_bytes()).as_str(),
            "\r\n",
        ),
        None => {
            let s = String::new();
            assert(s@ =~= Seq::empty());
            s
        },
    }
}

/// The request for a tunnel.
pub open spec fn connect_request_text(upstream: SocketAddress, auth: Option<Seq<char>>) -> Seq<
    char,
> {
    "CONNECT "@ + socket_text(upstream) + " HTTP/1.1\r\nHost: "@ + socket_text(upstream) + "\r\n"@
        + authorization_line(auth) + "\r\n"@
}

/// The request for a tunnel to an upstream.
pub fn connect_request(upstream: SocketAddress, auth: Option<&str>) -> (r: String)
    requires
        upstream.ip is V4 ==> upstream.scope == 0,
    ensures
        r@ == connect_request_text(upstream, optional_str(auth)),
{
    let target = socket_to_string(upstream);
    let head = join5(
        "CONNECT ",
        target.as_str(),
        " HTTP/1.1\r\nHost: ",
        target.as_str(),
        "\r\n",
    );
    join3(head.as_str(), authorization(auth).as_str(), "\r\n")
}

/// Whether a text says "200" somewhere.
pub open spec fn says_200(s: Seq<char>) -> bool {
    occurrence(s, "200"@, 0) < s.len()
}

/// Whether the reply to the request for a tunnel opens it; else what it says.
pub fn check_connect_response(response: &[u8]) -> (r: Result<(), ProxyError>)
    ensures
        match r {
            Ok(()) => says_200(lossy_text(response@)),
            Err(ProxyError::ConnectFailed(said)) => !says_200(lossy_text(response@)) && said@
                == trimmed(lossy_text(response@)),
            Err(_) => false,
        },
{
    let text = chars_of(from_utf8_lossy(response).as_str());
    let ok = chars_of("200");
    if find_part(text.as_slice(), ok.as_slice()) < text.len() {
        Ok(())
    } else {
        Err(ProxyError::ConnectFailed(string_of(trim(text.as_slice()))))
    }
}

// ---------------------------------------------------------------------------
// SOCKS5
// ---------------------------------------------------------------------------
/// The greeting: the version, and the methods on offer.
pub open spec fn greeting_octets(has_auth: bool) -> Seq<u8> {
    if has_auth {
        seq![5u8, 2u8, 0u8, 2u8]
    } else {
        seq![5u8, 1u8, 0u8]
    }
}

/// The greeting. Credentials are on offer where there are any.
pub fn socks_greeting(has_auth: bool) -> (r: Vec<u8>)
    ensures
        r@ == greeting_octets(has_auth),
{
    let r: Vec<u8> = if has_auth {
        vec![5u8, 2u8, 0u8, 2u8]
    } else {
        vec![5u8, 1u8, 0u8]
    };
    assert(r@ =~= greeting_octets(has_auth));
    r
}

/// Credentials on the wire (RFC 1929). The user is what stands before the first colon.
pub open spec fn credentials_octets(auth: Seq<char>) -> Seq<u8> {
    let user = encode_utf8(before(auth, ':'));
    let pass = encode_utf8(
        if holds(auth, ':') {
            after(auth, ':')
        } else {
            Seq::empty()
        },
    );
    seq![1u8, (user.len() % 256) as u8] + user + seq![(pass.len() % 256) as u8] + pass
}

fn credentials(auth: &str) -> (r: Vec<u8>)
    ensures
        r@ == credentials_octets(auth@),
{
    let chars = chars_of(auth);
    let at: usize = find_char(chars.as_slice(), ':');
    let user = string_of(slice_subrange(chars.as_slice(), 0, at));
    let pass = if at < chars.len() {
        string_of(slice_subrange(chars.as_slice(), at + 1, chars.len()))
    } else {
        let s = String::new();
        assert(s@ =~= Seq::empty());
        s
    };
    let user_octets = user.as_str().as_bytes();
    let pass_octets = pass.as_str().as_bytes();
    let mut out: Vec<u8> = Vec::new();
    out.push(1);
    out.push((user_octets.len() % 256) as u8);
    out.extend_from_slice(user_octets);
    out.push((pass_octets.len() % 256) as u8);
    out.extend_from_slice(pass_octets);
    assert(out@ =~= credentials_octets(auth@));
    out
}

/// What follows the choice of a method: nothing, or credentials to send.
pub fn socks_method(reply: [u8; 2], auth: Option<&str>) -> (r: Result<Option<Vec<u8>>, ProxyError>)
    ensures
        match r {
            Ok(None) => reply[0] == 5 && reply[1] == 0,
            Ok(Some(v)) => reply[0] == 5 && reply[1] == 2 && auth is Some && v@
                == credentials_octets(auth->0@),
            Err(ProxyError::GreetingVersion(v)) => reply[0] != 5 && v == reply[0],
            Err(ProxyError::AuthenticationRequired) => reply[0] == 5 && reply[1] == 2 && auth
                is None,
            Err(ProxyError::NoAcceptableMethod) => reply[0] == 5 && reply[1] == 0xff,
            Err(ProxyError::UnsupportedMethod(m)) => reply[0] == 5 && m == reply[1] && m != 0 && m
                != 2 && m != 0xff,
            Err(_) => false,
        },
{
    if reply[0] != 5 {
        return Err(ProxyError::GreetingVersion(reply[0]));
    }
    match reply[1] {
        0 => Ok(None),
        2 => match auth {
            Some(a) => Ok(Some(credentials(a))),
            None => Err(ProxyError::AuthenticationRequired),
        },
        0xff => Err(ProxyError::NoAcceptableMethod),
        other => Err(ProxyError::UnsupportedMethod(other)),
    }
}

/// Whether the credentials were accepted.
pub fn socks_authenticated(reply: [u8; 2]) -> (r: Result<(), ProxyError>)
    ensures
        match r {
            Ok(()) => reply[1] == 0,
            Err(ProxyError::AuthenticationFailed(status)) => reply[1] != 0 && status == reply[1],
            Err(_) => false,
        },
{
    if reply[1] != 0 {
        Err(ProxyError::AuthenticationFailed(reply[1]))
    } else {
        Ok(())
    }
}

/// The request for a tunnel to an upstream.
pub open spec fn socks_request_octets(upstream: SocketAddress) -> Seq<u8> {
    seq![5u8, 1u8, 0u8] + (match upstream.ip {
        IpAddress::V4(a) => seq![1u8] + be32(a),
        IpAddress::V6(a) => seq![4u8] + be128(a),
    }) + be16(upstream.port)
}

/// The request for a tunnel to an upstream.
pub fn socks_request(upstream: SocketAddress) -> (r: Vec<u8>)
    ensures
        r@ == socks_request_octets(upstream),
{
    let mut out: Vec<u8> = vec![5u8, 1u8, 0u8];
    assert(out@ =~= seq![5u8, 1u8, 0u8]);
    match upstream.ip {
        IpAddress::V4(a) => {
            out.push(1);
            push_be32(&mut out, a);
        },
        IpAddress::V6(a) => {
            out.push(4);
            push_be128(&mut out, a);
        },
    }
    push_be16(&mut out, upstream.port);
    assert(out@ =~= socks_request_octets(upstream));
    out
}

/// How much of the reply to the request is still to be read: the address it was bound to.
#[derive(Debug, Clone, Copy, PartialEq, Eq, Structural)]
pub enum Remainder {
    /// So many octets.
    Octets(usize),
    /// An octet that counts a name, then the name and a port.
    Counted,
}

/// What the head of the reply to the request means.
pub fn socks_reply(head: [u8; 4]) -> (r: Result<Remainder, ProxyError>)
    ensures
        match r {
            Ok(rest) => head[0] == 5 && head[1] == 0 && match rest {
                Remainder::Octets(n) => (head[3] == 1 && n == 6) || (head[3] == 4 && n == 18),
                Remainder::Counted => head[3] == 3,
            },
            Err(ProxyError::ReplyVersion) => head[0] != 5,
            Err(ProxyError::Refused(code)) => head[0] == 5 && head[1] != 0 && code == head[1],
            Err(ProxyError::UnknownAddressType(t)) => head[0] == 5 && head[1] == 0 && t == head[3]
                && t != 1 && t != 3 && t != 4,
            Err(_) => false,
        },
{
    if head[0] != 5 {
        return Err(ProxyError::ReplyVersion);
    }
    if head[1] != 0 {
        return Err(ProxyError::Refused(head[1]));
    }
    match head[3] {
        1 => Ok(Remainder::Octets(6)),
        4 => Ok(Remainder::Octets(18)),
        3 => Ok(Remainder::Counted),
        other => Err(ProxyError::UnknownAddressType(other)),
    }
}

/// How many octets follow the octet that counts a name.
pub fn socks_counted(count: u8) -> (r: usize)
    ensures
        r == count + 2,
{
    count as usize + 2
}

// ---------------------------------------------------------------------------
// DNS-over-HTTPS through a proxy
// ---------------------------------------------------------------------------
/// The head of the request that carries a query of some length.
pub open spec fn doh_request_text(
    upstream: SocketAddress,
    length: nat,
    auth: Option<Seq<char>>,
) -> Seq<char> {
    "POST https://"@ + socket_text(upstream) + "/dns-query HTTP/1.1\r\nHost: "@ + socket_text(
        upstream,
    ) + "\r\nContent-Type: application/dns-message\r\nContent-Length: "@ + decimal(length)
        + "\r\nAccept: application/dns-message\r\n"@ + authorization_line(auth)
        + "Connection: close\r\n\r\n"@
}

/// The head of the request that carries a query of some length.
pub fn doh_request(upstream: SocketAddress, length: usize, auth: Option<&str>) -> (r: String)
    requires
        upstream.ip is V4 ==> upstream.scope == 0,
    ensures
        r@ == doh_request_text(upstream, length as nat, optional_str(auth)),
{
    let target = socket_to_string(upstream);
    let line = join5(
        "POST https://",
        target.as_str(),
        "/dns-query HTTP/1.1\r\nHost: ",
        target.as_str(),
        "\r\nContent-Type: application/dns-message\r\nContent-Length: ",
    );
    let head = join3(
        line.as_str(),
        decimal_string(length as u64).as_str(),
        "\r\nAccept: application/dns-message\r\n",
    );
    join3(head.as_str(), authorization(auth).as_str(), "Connection: close\r\n\r\n")
}

/// Whether a header ends at `i`.
pub open spec fn blank_line_at(b: Seq<u8>, i: int) -> bool {
    0 <= i && i + 4 <= b.len() && b[i] == 0x0d && b[i + 1] == 0x0a && b[i + 2] == 0x0d && b[i + 3]
        == 0x0a
}

/// Whether the header ends at `i` and not before.
pub open spec fn header_ends_at(b: Seq<u8>, i: int) -> bool {
    blank_line_at(b, i) && forall|k: int| 0 <= k < i ==> !blank_line_at(b, k)
}

fn header_end(b: &[u8]) -> (r: Option<usize>)
    ensures
        match r {
            Some(i) => header_ends_at(b@, i as int),
            None => forall|k: int| !blank_line_at(b@, k),
        },
{
    let mut i: usize = 0;
    while b.len() >= 4 && i <= b.len() - 4
        invariant
            i <= b.len(),
            forall|k: int| 0 <= k < i ==> !blank_line_at(b@, k),
        decreases b.len() - i,
    {
        if b[i] == 0x0d && b[i + 1] == 0x0a && b[i + 2] == 0x0d && b[i + 3] == 0x0a {
            return Some(i);
        }
        i = i + 1;
    }
    assert forall|k: int| !blank_line_at(b@, k) by {
        if blank_line_at(b@, k) {
            assert(k < i);
        }
    }
    None
}

/// The first line of a text, without its line ending.
pub open spec fn first_line(s: Seq<char>) -> Seq<char> {
    let line = before(s, '\n');
    if holds(s, '\n') && line.len() > 0 && line.last() == '\r' {
        line.drop_last()
    } else {
        line
    }
}

fn status_line(text: &[char]) -> (r: Vec<char>)
    ensures
        r@ == first_line(text@),
{
    let at: usize = find_char(text, '\n');
    assert(before(text@, '\n') == text@.subrange(0, at as int));
    if at < text.len() && at > 0 && text[at - 1] == '\r' {
        let r = slice_to_vec(slice_subrange(text, 0, at - 1));
        assert(r@ =~= text@.subrange(0, at as int).drop_last());
        r
    } else {
        slice_to_vec(slice_subrange(text, 0, at))
    }
}

/// The body of the response to a request: what follows the first blank line. The status
/// line has to say "200".
pub fn doh_response(response: &[u8]) -> (r: Result<Vec<u8>, ProxyError>)
    ensures
        ({
            let octets = response@;
            let text = lossy_text(octets);
            match r {
                Ok(body) => says_200(first_line(text)) && exists|i: int| #[trigger]
                    header_ends_at(octets, i) && i + 4 < response@.len() && body@
                        == response@.subrange(i + 4, response@.len() as int),
                Err(ProxyError::MalformedResponse) => forall|i: int| !blank_line_at(octets, i),
                Err(ProxyError::RequestFailed(line)) => !says_200(first_line(text)) && line@
                    == first_line(text) && exists|i: int| header_ends_at(octets, i),
                Err(ProxyError::EmptyBody) => says_200(first_line(text)) && exists|i: int| #[trigger]
                    header_ends_at(octets, i) && i + 4 >= response@.len(),
                Err(_) => false,
            }
        }),
{
    let end: usize = match header_end(response) {
        Some(i) => i,
        None => {
            return Err(ProxyError::MalformedResponse);
        },
    };
    let chars = chars_of(from_utf8_lossy(response).as_str());
    let line = status_line(chars.as_slice());
    let ok = chars_of("200");
    if find_part(line.as_slice(), ok.as_slice()) >= line.len() {
        return Err(ProxyError::RequestFailed(string_of(line.as_slice())));
    }
    if response.len() < 4 || end >= response.len() - 4 {
        return Err(ProxyError::EmptyBody);
    }
    Ok(slice_to_vec(slice_subrange(response, end + 4, response.len())))
}

// ---------------------------------------------------------------------------
// Laws
// ---------------------------------------------------------------------------
/// Every mode is the one that its name names.
pub proof fn law_mode_round_trip(mode: ProxyMode)
    ensures
        mode_named(mode_name(mode)) == mode,
{
    reveal_strlit("connect");
    reveal_strlit("socks5");
    reveal_strlit("doh");
    let s = mode_name(mode);
    assert(crate::text::lower_chars(s) =~= s);
    assert("connect"@.len() == 7 && "socks5"@.len() == 6 && "doh"@.len() == 3);
}

/// A header ends at one place alone.
pub proof fn law_one_header_end(b: Seq<u8>, i: int, k: int)
    requires
        header_ends_at(b, i),
        header_ends_at(b, k),
    ensures
        i == k,
{
    if i < k {
        assert(!blank_line_at(b, i));
    }
    if k < i {
        assert(!blank_line_at(b, k));
    }
}

} // verus!
