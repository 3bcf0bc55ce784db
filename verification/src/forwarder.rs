//! Upstream forwarders: one type for every transport a query can be sent over, and the
//! health that decides whether it is worth sending one.
use std::collections::HashMap;
use vstd::prelude::*;
use vstd::slice::slice_subrange;
use vstd::string::*;

use crate::addr::{
    after, before, find_char, holds, ip_from_str, ip_of, ip_text, ip_to_string, lemma_index_of,
    lemma_index_of_unique, socket_char, socket_from_chars, socket_of, socket_text,
    socket_to_string, IpAddress, SocketAddress,
};
use crate::text::{
    chars_of, eq_text, find_part, join2, join3, join4, join5, lower_chars, occurrence, string_of,
    to_lower_chars, trim, trim_end, trim_start, trimmed, white_space,
};

verus! {

broadcast use {vstd::string::group_string_axioms, vstd::std_specs::hash::group_hash_axioms};

/// Consecutive failures after which a forwarder is skipped rather than tried.
pub const FAILURE_THRESHOLD: u32 = 3;

/// How long, in milliseconds, a forwarder stays skipped before one query is allowed
/// through to see whether it came back.
pub const OPEN_COOLDOWN_MS: u64 = 30_000;

/// A duration in milliseconds as a time stamp.
pub fn now_millis(elapsed: u128) -> (r: u64)
    ensures
        r == if elapsed <= u64::MAX {
            elapsed as u64
        } else {
            u64::MAX
        },
{
    if elapsed <= u64::MAX as u128 {
        elapsed as u64
    } else {
        u64::MAX
    }
}

// ---------------------------------------------------------------------------
// Transports
// ---------------------------------------------------------------------------
/// The transport a forwarder is reached over.
#[derive(Debug, Clone, Copy, PartialEq, Eq, Structural)]
pub enum Transport {
    /// Plaintext DNS over UDP (RFC 1035).
    Do53Udp,
    /// Plaintext DNS over TCP (RFC 7766).
    Do53Tcp,
    /// DNS-over-TLS (RFC 7858).
    Dot,
    /// DNS-over-HTTPS (RFC 8484).
    Doh,
    /// DNS-over-QUIC (RFC 9250).
    Doq,
}

/// Whether a transport encrypts the query in flight.
pub open spec fn encrypted(t: Transport) -> bool {
    t == Transport::Dot || t == Transport::Doh || t == Transport::Doq
}

/// The URL scheme of a transport.
pub open spec fn scheme_of(t: Transport) -> Seq<char> {
    match t {
        Transport::Do53Udp => "udp"@,
        Transport::Do53Tcp => "tcp"@,
        Transport::Dot => "tls"@,
        Transport::Doh => "https"@,
        Transport::Doq => "quic"@,
    }
}

/// The port assumed when a forwarder names none.
pub open spec fn port_of(t: Transport) -> u16 {
    match t {
        Transport::Do53Udp | Transport::Do53Tcp => 53,
        Transport::Dot | Transport::Doq => 853,
        Transport::Doh => 443,
    }
}

/// The transport that a scheme in any case stands for.
pub open spec fn transport_of(scheme: Seq<char>) -> Option<Transport> {
    let s = lower_chars(scheme);
    if s == "udp"@ || s == "do53"@ || s == "dns"@ {
        Some(Transport::Do53Udp)
    } else if s == "tcp"@ {
        Some(Transport::Do53Tcp)
    } else if s == "tls"@ || s == "dot"@ {
        Some(Transport::Dot)
    } else if s == "https"@ || s == "doh"@ {
        Some(Transport::Doh)
    } else if s == "quic"@ || s == "doq"@ {
        Some(Transport::Doq)
    } else {
        None
    }
}

impl Transport {
    /// Whether the transport encrypts the query in flight.
    pub fn is_encrypted(self) -> (r: bool)
        ensures
            r == encrypted(self),
    {
        match self {
            Transport::Do53Udp | Transport::Do53Tcp => false,
            _ => true,
        }
    }

    /// Whether the transport authenticates a server certificate, and so needs a name to
    /// validate it against.
    pub fn needs_server_name(self) -> (r: bool)
        ensures
            r == encrypted(self),
    {
        self.is_encrypted()
    }

    /// The URL scheme of this transport.
    pub fn scheme(self) -> (r: &'static str)
        ensures
            r@ == scheme_of(self),
    {
        match self {
            Transport::Do53Udp => "udp",
            Transport::Do53Tcp => "tcp",
            Transport::Dot => "tls",
            Transport::Doh => "https",
            Transport::Doq => "quic",
        }
    }

    /// The port assumed when a forwarder names none.
    pub fn default_port(self) -> (r: u16)
        ensures
            r == port_of(self),
    {
        match self {
            Transport::Do53Udp | Transport::Do53Tcp => 53,
            Transport::Dot | Transport::Doq => 853,
            Transport::Doh => 443,
        }
    }

    /// Parses a URL scheme: the protocol's name or its common abbreviation.
    pub fn from_scheme(scheme: &str) -> (r: Option<Transport>)
        ensures
            r == transport_of(scheme@),
    {
        let chars = chars_of(scheme);
        let lower = to_lower_chars(chars.as_slice());
        let text = string_of(lower.as_slice());
        let s = text.as_str();
        if eq_text(s, "udp") || eq_text(s, "do53") || eq_text(s, "dns") {
            Some(Transport::Do53Udp)
        } else if eq_text(s, "tcp") {
            Some(Transport::Do53Tcp)
        } else if eq_text(s, "tls") || eq_text(s, "dot") {
            Some(Transport::Dot)
        } else if eq_text(s, "https") || eq_text(s, "doh") {
            Some(Transport::Doh)
        } else if eq_text(s, "quic") || eq_text(s, "doq") {
            Some(Transport::Doq)
        } else {
            None
        }
    }
}

/// Facts about the schemes, spelled out.
proof fn lemma_scheme_chars(t: Transport)
    ensures
        scheme_of(t).len() >= 3,
        forall|i: int| 0 <= i < scheme_of(t).len() ==> 'a' <= #[trigger] scheme_of(t)[i] <= 'z',
        lower_chars(scheme_of(t)) == scheme_of(t),
{
    reveal_strlit("udp");
    reveal_strlit("tcp");
    reveal_strlit("tls");
    reveal_strlit("https");
    reveal_strlit("quic");
    assert(lower_chars(scheme_of(t)) =~= scheme_of(t));
}

/// The scheme of a transport stands for that transport.
pub proof fn law_scheme_round_trip(t: Transport)
    ensures
        transport_of(scheme_of(t)) == Some(t),
{
    lemma_scheme_chars(t);
    reveal_strlit("udp");
    reveal_strlit("do53");
    reveal_strlit("dns");
    reveal_strlit("tcp");
    reveal_strlit("tls");
    reveal_strlit("dot");
    reveal_strlit("https");
    reveal_strlit("doh");
    reveal_strlit("quic");
    reveal_strlit("doq");
    assert("udp"@[0] == 'u' && "dns"@[0] == 'd' && "tcp"@[1] == 'c' && "tls"@[1] == 'l'
        && "dot"@[0] == 'd' && "doh"@[0] == 'd' && "doq"@[0] == 'd' && "tcp"@[0] == 't'
        && "tls"@[0] == 't' && "quic"@[0] == 'q' && "do53"@[0] == 'd');
}

// ---------------------------------------------------------------------------
// Health
// ---------------------------------------------------------------------------
/// Per-forwarder health: a circuit breaker.
#[derive(Debug, Clone, Copy, PartialEq, Eq, Structural)]
pub struct Health {
    pub consecutive_failures: u32,
    /// The time stamp before which the forwarder is skipped. Zero means in service.
    pub open_until: u64,
}

/// Whether a query should be sent at time `now`.
pub open spec fn usable(h: Health, now: u64) -> bool {
    h.open_until == 0 || now >= h.open_until
}

/// The breaker's state after a failure at time `now`.
pub open spec fn after_failure(h: Health, now: u64) -> Health {
    let failures = (h.consecutive_failures + 1) as u32;
    Health {
        consecutive_failures: failures,
        open_until: if failures >= FAILURE_THRESHOLD {
            if now + OPEN_COOLDOWN_MS <= u64::MAX {
                (now + OPEN_COOLDOWN_MS) as u64
            } else {
                u64::MAX
            }
        } else {
            h.open_until
        },
    }
}

/// The state of a breaker that has seen nothing.
pub open spec fn healthy() -> Health {
    Health { consecutive_failures: 0, open_until: 0 }
}

impl Default for Health {
    fn default() -> (r: Health)
        ensures
            r == healthy(),
    {
        Health { consecutive_failures: 0, open_until: 0 }
    }
}

impl Health {
    /// Whether a query should be sent to this forwarder at time `now`: while closed, and
    /// again once the cooldown has elapsed.
    pub fn is_usable(&self, now: u64) -> (r: bool)
        ensures
            r == usable(*self, now),
    {
        self.open_until == 0 || now >= self.open_until
    }

    /// Records a definitive answer: the breaker closes outright.
    pub fn record_success(&mut self)
        ensures
            *final(self) == healthy(),
    {
        self.consecutive_failures = 0;
        self.open_until = 0;
    }

    /// Records a failure at time `now`, opening the breaker at the threshold.
    pub fn record_failure(&mut self, now: u64)
        requires
            old(self).consecutive_failures < u32::MAX,
        ensures
            *final(self) == after_failure(*old(self), now),
    {
        self.consecutive_failures = self.consecutive_failures + 1;
        if self.consecutive_failures >= FAILURE_THRESHOLD {
            self.open_until = if now <= u64::MAX - OPEN_COOLDOWN_MS {
                now + OPEN_COOLDOWN_MS
            } else {
                u64::MAX
            };
        }
    }

    /// Consecutive failures recorded since the last success.
    pub fn failures(&self) -> (r: u32)
        ensures
            r == self.consecutive_failures,
    {
        self.consecutive_failures
    }
}

/// The breaker's state after `n` failures in a row, all at time `now`.
pub open spec fn after_failures(h: Health, now: u64, n: nat) -> Health
    decreases n,
{
    if n == 0 {
        h
    } else {
        after_failure(after_failures(h, now, (n - 1) as nat), now)
    }
}

/// From a healthy start the breaker stays closed below the threshold, opens at it for the
/// length of the cooldown, and lets a probe through afterwards; one success puts it back
/// as it was at the start.
pub proof fn law_breaker_opens_at_the_threshold(now: u64, later: u64, n: nat)
    requires
        n < FAILURE_THRESHOLD,
        now + OPEN_COOLDOWN_MS <= u64::MAX,
    ensures
        usable(after_failures(healthy(), now, n), later),
        usable(after_failures(healthy(), now, FAILURE_THRESHOLD as nat), later) == (later >= now
            + OPEN_COOLDOWN_MS),
{
    reveal_with_fuel(after_failures, 4);
}

// ---------------------------------------------------------------------------
// Forwarders
// ---------------------------------------------------------------------------
/// How much a forwarder is preferred, most preferred first.
#[derive(Debug, Clone, Copy, PartialEq, Eq, PartialOrd, Ord, Structural)]
pub enum Preference {
    /// Any encrypted transport.
    Encrypted,
    /// Plaintext to an address on this network.
    PlaintextPrivate,
    /// Plaintext to a public address.
    PlaintextPublic,
}

/// The circuit breakers of forwarders, by number. Copies of a forwarder have the number in
/// common, and so the breaker: a list and the tiers it is split into judge an address by the
/// same failures.
#[derive(Debug)]
pub struct Breakers {
    /// The breakers that have something to remember. Any other has seen nothing.
    pub open: HashMap<u64, Health>,
    /// The number of the next breaker.
    pub next: u64,
}

impl Default for Breakers {
    fn default() -> (r: Breakers)
        ensures
            r.next == 0,
            forall|b: u64| #[trigger] r.state(b) == healthy(),
    {
        Breakers { open: HashMap::new(), next: 0 }
    }
}

impl Breakers {
    /// The state of a breaker.
    pub open spec fn state(self, breaker: u64) -> Health {
        if self.open@.dom().contains(breaker) {
            self.open@[breaker]
        } else {
            healthy()
        }
    }

    /// Whether there is a number for another breaker.
    pub open spec fn has_room(self) -> bool {
        self.next < u64::MAX
    }

    /// Whether these are breakers with one more number given out, whose breaker has seen
    /// nothing.
    pub open spec fn issued_one(self, before: Breakers) -> bool {
        &&& self.next == before.next + 1
        &&& forall|b: u64|
            #[trigger] self.state(b) == if b == before.next {
                healthy()
            } else {
                before.state(b)
            }
    }

    fn issue(&mut self) -> (r: u64)
        requires
            old(self).has_room(),
        ensures
            r == old(self).next,
            final(self).issued_one(*old(self)),
    {
        let number: u64 = self.next;
        self.open.remove(&number);
        self.next = number + 1;
        number
    }

    /// The state of a breaker.
    pub fn health(&self, breaker: u64) -> (r: Health)
        ensures
            r == self.state(breaker),
    {
        match self.open.get(&breaker) {
            Some(h) => *h,
            None => Health::default(),
        }
    }

    /// Records a definitive answer of a forwarder.
    pub fn record_success(&mut self, forwarder: &Forwarder)
        ensures
            final(self).next == old(self).next,
            final(self).state(forwarder.breaker) == healthy(),
            forall|b: u64|
                b != forwarder.breaker ==> #[trigger] final(self).state(b) == old(self).state(b),
    {
        self.open.remove(&forwarder.breaker);
    }

    /// Records a failure of a forwarder at time `now`.
    pub fn record_failure(&mut self, forwarder: &Forwarder, now: u64)
        requires
            old(self).state(forwarder.breaker).consecutive_failures < u32::MAX,
        ensures
            final(self).next == old(self).next,
            final(self).state(forwarder.breaker) == after_failure(
                old(self).state(forwarder.breaker),
                now,
            ),
            forall|b: u64|
                b != forwarder.breaker ==> #[trigger] final(self).state(b) == old(self).state(b),
    {
        let mut health = self.health(forwarder.breaker);
        health.record_failure(now);
        self.open.insert(forwarder.breaker, health);
    }
}

/// What a text denotes, with a breaker.
pub open spec fn in_service(f: Result<ForwarderView, ForwarderError>, breaker: u64) -> Result<
    ForwarderView,
    ForwarderError,
> {
    match f {
        Ok(f) => Ok(ForwarderView { breaker, ..f }),
        Err(e) => Err(e),
    }
}

/// The request path of DNS-over-HTTPS when a forwarder names none.
pub const DEFAULT_DOH_PATH: &'static str = "/dns-query";

/// An upstream that a query can be forwarded to.
#[derive(Debug)]
pub struct Forwarder {
    pub transport: Transport,
    /// The address dialed, always a literal.
    pub addr: SocketAddress,
    /// The name presented and validated against the certificate; none for plaintext.
    pub server_name: Option<String>,
    /// The same name, for the request's host.
    pub hostname: Option<String>,
    /// The request path of DNS-over-HTTPS; none for every other transport.
    pub path: Option<String>,
    /// The identity of this forwarder, stable across a reprogramming.
    pub label: String,
    /// The number of its circuit breaker, which all copies of this forwarder share.
    pub breaker: u64,
}

/// Why a text is no forwarder.
#[derive(Debug, Clone, Copy, PartialEq, Eq, Structural)]
pub enum ForwarderError {
    /// Nothing but white space.
    Empty,
    /// The scheme names no transport.
    UnsupportedTransport,
    /// Nothing follows the scheme.
    NoAddress,
    /// A path where the transport has none.
    PathNotAllowed,
    /// Nothing stands before the `@`.
    EmptyServerName,
    /// The address is none.
    BadAddress,
    /// The server name is none.
    BadServerName,
    /// A server name where the transport authenticates nothing.
    NameNotAllowed,
    /// The transport of a secure upstream is not encrypted.
    NotEncrypted,
}

/// The contents of a forwarder.
pub ghost struct ForwarderView {
    pub transport: Transport,
    pub addr: SocketAddress,
    pub server_name: Option<Seq<char>>,
    pub hostname: Option<Seq<char>>,
    pub path: Option<Seq<char>>,
    pub label: Seq<char>,
    pub breaker: u64,
}

pub open spec fn text_of(s: Option<String>) -> Option<Seq<char>> {
    match s {
        Some(t) => Some(t@),
        None => None,
    }
}

impl View for Forwarder {
    type V = ForwarderView;

    open spec fn view(&self) -> ForwarderView {
        ForwarderView {
            transport: self.transport,
            addr: self.addr,
            server_name: text_of(self.server_name),
            hostname: text_of(self.hostname),
            path: text_of(self.path),
            label: self.label@,
            breaker: self.breaker,
        }
    }
}

/// The contents of forwarders.
pub open spec fn forwarder_views(s: Seq<Forwarder>) -> Seq<ForwarderView> {
    Seq::new(s.len(), |i: int| s[i]@)
}

fn copy_text(s: &Option<String>) -> (r: Option<String>)
    ensures
        text_of(r) == text_of(*s),
{
    match s {
        Some(t) => Some(t.clone()),
        None => None,
    }
}

impl Clone for Forwarder {
    fn clone(&self) -> (r: Forwarder)
        ensures
            r@ == self@,
    {
        Forwarder {
            transport: self.transport,
            addr: self.addr,
            server_name: copy_text(&self.server_name),
            hostname: copy_text(&self.hostname),
            path: copy_text(&self.path),
            label: self.label.clone(),
            breaker: self.breaker,
        }
    }
}

/// Whether `rustls` takes a text for a server name.
pub uninterp spec fn server_name_ok(name: Seq<char>) -> bool;

/// `rustls::pki_types::ServerName::try_from`. Whether the text is a DNS name or an address
/// that a certificate can be validated against depends on the text alone.
#[verifier::external_body]
fn is_server_name(name: &str) -> (r: bool)
    ensures
        r == server_name_ok(name@),
{
    rustls::pki_types::ServerName::try_from(name).is_ok()
}

// ---------------------------------------------------------------------------
// Parsing
// ---------------------------------------------------------------------------
/// The last position of `c` in `s`; -1 where there is none.
pub open spec fn last_index_of(s: Seq<char>, c: char) -> int
    decreases s.len(),
{
    if s.len() == 0 {
        -1
    } else if s.last() == c {
        s.len() - 1
    } else {
        last_index_of(s.drop_last(), c)
    }
}

proof fn lemma_last_index_of_unique(s: Seq<char>, c: char, k: int)
    requires
        -1 <= k < s.len(),
        k >= 0 ==> s[k] == c,
        forall|i: int| k < i < s.len() ==> s[i] != c,
    ensures
        last_index_of(s, c) == k,
    decreases s.len(),
{
    if s.len() > 0 && s.last() != c {
        assert(s.last() == s[s.len() - 1]);
        let d = s.drop_last();
        assert forall|i: int| k < i < d.len() implies d[i] != c by {
            assert(d[i] == s[i]);
        }
        lemma_last_index_of_unique(d, c, k);
    } else if s.len() > 0 {
        assert(s[s.len() - 1] == c);
    }
}

proof fn lemma_last_index_of(s: Seq<char>, c: char)
    ensures
        -1 <= last_index_of(s, c) < s.len(),
        last_index_of(s, c) >= 0 ==> s[last_index_of(s, c)] == c,
        forall|i: int| last_index_of(s, c) < i < s.len() ==> s[i] != c,
    decreases s.len(),
{
    if s.len() > 0 && s.last() != c {
        let d = s.drop_last();
        lemma_last_index_of(d, c);
        assert forall|i: int| last_index_of(s, c) < i < s.len() implies s[i] != c by {
            if i < d.len() {
                assert(d[i] == s[i]);
            }
        }
    }
}

/// What the address part of a forwarder denotes.
pub open spec fn host_port_of(s: Seq<char>, port: u16) -> Option<SocketAddress> {
    let bare = if s.len() >= 2 && s[0] == '[' && s.last() == ']' {
        s.subrange(1, s.len() - 1)
    } else {
        s
    };
    if socket_of(s) is Some {
        socket_of(s)
    } else if ip_of(bare) is Some {
        Some(SocketAddress { ip: ip_of(bare)->0, port, scope: 0 })
    } else {
        None
    }
}

/// Parses `host:port`, or a bare host taking `default_port`.
pub fn parse_host_port(spec: &[char], default_port: u16) -> (r: Option<SocketAddress>)
    ensures
        r == host_port_of(spec@, default_port),
{
    if let Some(addr) = socket_from_chars(spec) {
        return Some(addr);
    }
    let n: usize = spec.len();
    let bare = if n >= 2 && spec[0] == '[' && spec[n - 1] == ']' {
        slice_subrange(spec, 1, n - 1)
    } else {
        spec
    };
    let text = string_of(bare);
    match ip_from_str(text.as_str()) {
        Some(ip) => Some(SocketAddress::new(ip, default_port)),
        None => None,
    }
}

pub open spec fn colon_slashes() -> Seq<char> {
    seq![':', '/', '/']
}

/// The transport of a forwarder's text and what follows the scheme.
pub open spec fn scheme_split(s: Seq<char>) -> Result<(Transport, Seq<char>), ForwarderError> {
    let at = occurrence(s, colon_slashes(), 0);
    if at == s.len() {
        Ok((Transport::Do53Udp, s))
    } else {
        match transport_of(s.subrange(0, at)) {
            Some(t) => Ok((t, s.subrange(at + 3, s.len() as int))),
            None => Err(ForwarderError::UnsupportedTransport),
        }
    }
}

/// The name and the address in `name@address`; the name may be left out.
pub open spec fn authority_split(s: Seq<char>) -> (Option<Seq<char>>, Seq<char>) {
    let at = last_index_of(s, '@');
    if at < 0 {
        (None, s)
    } else {
        (Some(s.subrange(0, at)), s.subrange(at + 1, s.len() as int))
    }
}

/// The label of a forwarder.
pub open spec fn label_of(t: Transport, addr: SocketAddress, hostname: Option<Seq<char>>) -> Seq<
    char,
> {
    if t == Transport::Do53Udp {
        socket_text(addr)
    } else {
        scheme_of(t) + "://"@ + match hostname {
            Some(n) => n,
            None => socket_text(addr),
        }
    }
}

/// A forwarder made of its parts, its breaker aside.
pub open spec fn assembled(
    t: Transport,
    addr: SocketAddress,
    name: Option<Seq<char>>,
    path: Option<Seq<char>>,
) -> Result<ForwarderView, ForwarderError> {
    let hostname = if encrypted(t) {
        match name {
            Some(n) => Some(n),
            None => Some(ip_text(addr.ip)),
        }
    } else {
        None
    };
    if encrypted(t) && !server_name_ok(hostname->0) {
        Err(ForwarderError::BadServerName)
    } else if !encrypted(t) && name is Some {
        Err(ForwarderError::NameNotAllowed)
    } else {
        Ok(
            ForwarderView {
                transport: t,
                addr,
                server_name: hostname,
                hostname,
                path: if path is None && t == Transport::Doh {
                    Some(DEFAULT_DOH_PATH@)
                } else {
                    path
                },
                label: label_of(t, addr, hostname),
                breaker: 0,
            },
        )
    }
}

/// The forwarder that a transport and what follows its scheme denote.
pub open spec fn forwarder_at(t: Transport, rest: Seq<char>) -> Result<
    ForwarderView,
    ForwarderError,
> {
    let has_path = holds(rest, '/');
    let authority = if has_path {
        before(rest, '/')
    } else {
        rest
    };
    let path = if has_path {
        Some(seq!['/'] + after(rest, '/'))
    } else {
        None
    };
    let (name, host_port) = authority_split(authority);
    if rest.len() == 0 {
        Err(ForwarderError::NoAddress)
    } else if has_path && t != Transport::Doh {
        Err(ForwarderError::PathNotAllowed)
    } else if name is Some && name->0.len() == 0 {
        Err(ForwarderError::EmptyServerName)
    } else {
        match host_port_of(host_port, port_of(t)) {
            None => Err(ForwarderError::BadAddress),
            Some(addr) => assembled(t, addr, name, path),
        }
    }
}

/// The forwarder that a text denotes, its breaker aside.
pub open spec fn forwarder_of(spec: Seq<char>) -> Result<ForwarderView, ForwarderError> {
    let s = trimmed(spec);
    if s.len() == 0 {
        Err(ForwarderError::Empty)
    } else {
        match scheme_split(s) {
            Err(e) => Err(e),
            Ok((t, rest)) => forwarder_at(t, rest),
        }
    }
}

fn find_last(s: &[char], c: char) -> (r: Option<usize>)
    ensures
        match r {
            Some(i) => last_index_of(s@, c) == i && i < s@.len(),
            None => last_index_of(s@, c) < 0,
        },
{
    let mut i: usize = s.len();
    while i > 0
        invariant
            i <= s.len(),
            forall|k: int| i <= k < s.len() ==> s@[k] != c,
        decreases i,
    {
        if s[i - 1] == c {
            proof {
                lemma_last_index_of_unique(s@, c, i - 1);
            }
            return Some(i - 1);
        }
        i = i - 1;
    }
    proof {
        lemma_last_index_of_unique(s@, c, -1);
    }
    None
}

/// What parsing gives, as the contents.
pub open spec fn parsed(r: Result<Forwarder, ForwarderError>) -> Result<
    ForwarderView,
    ForwarderError,
> {
    match r {
        Ok(f) => Ok(f@),
        Err(e) => Err(e),
    }
}

fn assemble(
    transport: Transport,
    addr: SocketAddress,
    name: Option<String>,
    path: Option<String>,
) -> (r: Result<Forwarder, ForwarderError>)
    requires
        addr.ip is V4 ==> addr.scope == 0,
    ensures
        parsed(r) == assembled(transport, addr, text_of(name), text_of(path)),
{
    let hostname = if transport.needs_server_name() {
        let n = match name {
            Some(n) => n,
            None => ip_to_string(addr.ip),
        };
        if !is_server_name(n.as_str()) {
            return Err(ForwarderError::BadServerName);
        }
        Some(n)
    } else {
        if name.is_some() {
            return Err(ForwarderError::NameNotAllowed);
        }
        None
    };
    let address = socket_to_string(addr);
    let label = if transport == Transport::Do53Udp {
        address
    } else {
        match &hostname {
            Some(n) => join3(transport.scheme(), "://", n.as_str()),
            None => join3(transport.scheme(), "://", address.as_str()),
        }
    };
    let path = if path.is_none() && transport == Transport::Doh {
        Some(DEFAULT_DOH_PATH.to_owned())
    } else {
        path
    };
    let server_name = copy_text(&hostname);
    Ok(
        Forwarder {
            transport,
            addr,
            server_name,
            hostname,
            path,
            label,
            breaker: 0,
        },
    )
}

proof fn lemma_host_port_scope(s: Seq<char>, port: u16)
    ensures
        host_port_of(s, port) is Some && host_port_of(s, port)->0.ip is V4 ==> host_port_of(
            s,
            port,
        )->0.scope == 0,
{
}

fn parse_rest(transport: Transport, rest: &[char]) -> (r: Result<Forwarder, ForwarderError>)
    ensures
        parsed(r) == forwarder_at(transport, rest@),
{
    if rest.len() == 0 {
        return Err(ForwarderError::NoAddress);
    }
    let slash: usize = find_char(rest, '/');
    let has_path = slash < rest.len();
    if has_path && transport != Transport::Doh {
        return Err(ForwarderError::PathNotAllowed);
    }
    assert(rest@.subrange(0, rest@.len() as int) =~= rest@);
    let authority = slice_subrange(rest, 0, slash);
    let path = if has_path {
        let tail = string_of(slice_subrange(rest, slash + 1, rest.len()));
        let p = join2("/", tail.as_str());
        proof {
            reveal_strlit("/");
            assert("/"@ =~= seq!['/']);
        }
        Some(p)
    } else {
        None
    };
    let (name, host_port) = match find_last(authority, '@') {
        Some(at) => (
            Some(string_of(slice_subrange(authority, 0, at))),
            slice_subrange(authority, at + 1, authority.len()),
        ),
        None => (None, authority),
    };
    if let Some(n) = &name {
        if n.as_str().is_empty() {
            return Err(ForwarderError::EmptyServerName);
        }
    }
    proof {
        lemma_host_port_scope(host_port@, port_of(transport));
    }
    match parse_host_port(host_port, transport.default_port()) {
        None => Err(ForwarderError::BadAddress),
        Some(addr) => assemble(transport, addr, name, path),
    }
}

impl Forwarder {
    /// Parses a forwarder from its string form.
    ///
    /// ```text
    /// 8.8.8.8:53                                   plaintext UDP
    /// tcp://8.8.8.8:53                             plaintext TCP
    /// tls://cloudflare-dns.com@1.1.1.1:853         DNS-over-TLS
    /// https://cloudflare-dns.com@1.1.1.1/dns-query DNS-over-HTTPS
    /// quic://dns.adguard.com@94.140.14.14:853      DNS-over-QUIC
    /// ```
    ///
    /// The forwarder gets a breaker of its own, which has seen nothing.
    pub fn parse(spec: &str, breakers: &mut Breakers) -> (r: Result<Forwarder, ForwarderError>)
        requires
            old(breakers).has_room(),
        ensures
            parsed(r) == in_service(forwarder_of(spec@), old(breakers).next),
            r is Ok ==> final(breakers).issued_one(*old(breakers)),
            r is Err ==> *final(breakers) == *old(breakers),
    {
        match Forwarder::read(spec) {
            Ok(f) => Ok(Forwarder { breaker: breakers.issue(), ..f }),
            Err(e) => Err(e),
        }
    }

    fn read(spec: &str) -> (r: Result<Forwarder, ForwarderError>)
        ensures
            parsed(r) == forwarder_of(spec@),
    {
        let chars = chars_of(spec);
        let s = trim(chars.as_slice());
        if s.len() == 0 {
            return Err(ForwarderError::Empty);
        }
        let mut mark: Vec<char> = Vec::new();
        mark.push(':');
        mark.push('/');
        mark.push('/');
        assert(mark@ =~= colon_slashes());
        let at: usize = find_part(s, mark.as_slice());
        if at == s.len() {
            return parse_rest(Transport::Do53Udp, s);
        }
        proof {
            lemma_occurrence(s@, colon_slashes(), 0);
        }
        let scheme = string_of(slice_subrange(s, 0, at));
        match Transport::from_scheme(scheme.as_str()) {
            Some(transport) => parse_rest(transport, slice_subrange(s, at + 3, s.len())),
            None => Err(ForwarderError::UnsupportedTransport),
        }
    }

    /// Builds a forwarder from a secure upstream given field by field.
    pub fn from_secure_config(
        transport: &str,
        hostname: &str,
        addr: &str,
        path: &str,
        breakers: &mut Breakers,
    ) -> (r: Result<Forwarder, ForwarderError>)
        requires
            old(breakers).has_room(),
        ensures
            parsed(r) == match transport_of(transport@) {
                None => Err(ForwarderError::UnsupportedTransport),
                Some(t) => if !encrypted(t) {
                    Err(ForwarderError::NotEncrypted)
                } else if t == Transport::Doh {
                    in_service(
                        forwarder_of(scheme_of(t) + "://"@ + hostname@ + "@"@ + addr@ + path@),
                        old(breakers).next,
                    )
                } else {
                    in_service(
                        forwarder_of(scheme_of(t) + "://"@ + hostname@ + "@"@ + addr@),
                        old(breakers).next,
                    )
                },
            },
            r is Ok ==> final(breakers).issued_one(*old(breakers)),
            r is Err ==> *final(breakers) == *old(breakers),
    {
        let t = match Transport::from_scheme(transport) {
            Some(t) => t,
            None => {
                return Err(ForwarderError::UnsupportedTransport);
            },
        };
        if !t.is_encrypted() {
            return Err(ForwarderError::NotEncrypted);
        }
        let base = join5(t.scheme(), "://", hostname, "@", addr);
        if t == Transport::Doh {
            let spec = join2(base.as_str(), path);
            Forwarder::parse(spec.as_str(), breakers)
        } else {
            Forwarder::parse(base.as_str(), breakers)
        }
    }

    /// A bare socket address is plaintext UDP.
    pub fn from(addr: SocketAddress, breakers: &mut Breakers) -> (r: Forwarder)
        requires
            addr.ip is V4 ==> addr.scope == 0,
            old(breakers).has_room(),
        ensures
            in_service(
                assembled(Transport::Do53Udp, addr, None, None),
                old(breakers).next,
            ) == Ok::<ForwarderView, ForwarderError>(r@),
            final(breakers).issued_one(*old(breakers)),
    {
        Forwarder {
            transport: Transport::Do53Udp,
            addr,
            server_name: None,
            hostname: None,
            path: None,
            label: socket_to_string(addr),
            breaker: breakers.issue(),
        }
    }

    /// The tier this forwarder belongs to, derived from what it is.
    pub fn preference(&self) -> (r: Preference)
        ensures
            r == preference_of(self@),
    {
        if self.transport.is_encrypted() {
            return Preference::Encrypted;
        }
        if is_private(self.addr.ip) {
            Preference::PlaintextPrivate
        } else {
            Preference::PlaintextPublic
        }
    }

    /// Whether a query should be sent to this forwarder at time `now`.
    pub fn is_usable(&self, breakers: &Breakers, now: u64) -> (r: bool)
        ensures
            r == usable(breakers.state(self.breaker), now),
    {
        breakers.health(self.breaker).is_usable(now)
    }

    /// The string form of this forwarder. What was parsed parses back from it to the same
    /// forwarder, but for its breaker.
    pub fn to_spec(&self) -> (r: String)
        requires
            self.addr.ip is V4 ==> self.addr.scope == 0,
        ensures
            r@ == spec_text(self@),
            is_parsed(self@) ==> forwarder_of(r@) == Ok::<ForwarderView, ForwarderError>(
                ForwarderView { breaker: 0, ..self@ },
            ),
    {
        let address = socket_to_string(self.addr);
        let ip = ip_to_string(self.addr.ip);
        let out = if self.transport == Transport::Do53Udp {
            address.clone()
        } else {
            let path = match &self.path {
                Some(p) => p.clone(),
                None => String::new(),
            };
            let named = match &self.hostname {
                Some(n) => !eq_text(n.as_str(), ip.as_str()),
                None => false,
            };
            if named {
                let head = match &self.hostname {
                    Some(n) => join4(self.transport.scheme(), "://", n.as_str(), "@"),
                    None => String::new(),
                };
                join3(head.as_str(), address.as_str(), path.as_str())
            } else {
                join4(self.transport.scheme(), "://", address.as_str(), path.as_str())
            }
        };
        proof {
            if is_parsed(self@) {
                lemma_spec_round_trip(self@);
            }
        }
        out
    }
}

/// The tier of a forwarder.
pub open spec fn preference_of(f: ForwarderView) -> Preference {
    if encrypted(f.transport) {
        Preference::Encrypted
    } else if private_address(f.addr.ip) {
        Preference::PlaintextPrivate
    } else {
        Preference::PlaintextPublic
    }
}

/// Whether an address is on this network: private, loopback or link-local IPv4; loopback,
/// unique-local or link-local IPv6.
pub open spec fn private_address(ip: IpAddress) -> bool {
    match ip {
        IpAddress::V4(a) => {
            ||| a / 0x100_0000 == 10
            ||| a / 0x10_0000 == 0xac1
            ||| a / 0x1_0000 == 0xc0a8
            ||| a / 0x100_0000 == 127
            ||| a / 0x1_0000 == 0xa9fe
        },
        IpAddress::V6(a) => {
            ||| a == 1
            ||| a / 0x200_0000_0000_0000_0000_0000_0000_0000 == 0x7e
            ||| a / 0x40_0000_0000_0000_0000_0000_0000_0000 == 0x3fa
        },
    }
}

/// Whether an address is on this network rather than the public internet.
pub fn is_private(ip: IpAddress) -> (r: bool)
    ensures
        r == private_address(ip),
{
    match ip {
        IpAddress::V4(a) => a / 0x100_0000 == 10 || a / 0x10_0000 == 0xac1 || a / 0x1_0000 == 0xc0a8
            || a / 0x100_0000 == 127 || a / 0x1_0000 == 0xa9fe,
        IpAddress::V6(a) => a == 1 || a / 0x200_0000_0000_0000_0000_0000_0000_0000 == 0x7e || a
            / 0x40_0000_0000_0000_0000_0000_0000_0000 == 0x3fa,
    }
}

// ---------------------------------------------------------------------------
// The string form
// ---------------------------------------------------------------------------
/// The string form of a forwarder.
pub open spec fn spec_text(f: ForwarderView) -> Seq<char> {
    let path = match f.path {
        Some(p) => p,
        None => Seq::empty(),
    };
    if f.transport == Transport::Do53Udp {
        socket_text(f.addr)
    } else if f.hostname is Some && f.hostname->0 != ip_text(f.addr.ip) {
        scheme_of(f.transport) + "://"@ + f.hostname->0 + "@"@ + socket_text(f.addr) + path
    } else {
        scheme_of(f.transport) + "://"@ + socket_text(f.addr) + path
    }
}

/// Whether a forwarder came from a text, whatever its breaker.
pub open spec fn is_parsed(f: ForwarderView) -> bool {
    exists|s: Seq<char>|
        #[trigger] forwarder_of(s) == Ok::<ForwarderView, ForwarderError>(
            ForwarderView { breaker: 0, ..f },
        )
}

proof fn lemma_occurrence(s: Seq<char>, part: Seq<char>, i: int)
    requires
        0 <= i <= s.len(),
        part.len() > 0,
    ensures
        i <= occurrence(s, part, i) <= s.len(),
        occurrence(s, part, i) < s.len() ==> occurrence(s, part, i) + part.len() <= s.len()
            && s.subrange(occurrence(s, part, i), occurrence(s, part, i) + part.len()) == part,
    decreases s.len() - i,
{
    if i < s.len() && i + part.len() <= s.len() && s.subrange(i, i + part.len()) != part {
        lemma_occurrence(s, part, i + 1);
    }
}

/// A part occurs first where its first element first occurs, if it occurs there.
proof fn lemma_occurrence_at(s: Seq<char>, part: Seq<char>, i: int, k: int)
    requires
        0 <= i <= k,
        part.len() > 0,
        k + part.len() <= s.len(),
        s.subrange(k, k + part.len()) == part,
        forall|j: int| i <= j < k ==> s[j] != part[0],
    ensures
        occurrence(s, part, i) == k,
    decreases k - i,
{
    if i < k {
        assert(s.subrange(i, i + part.len())[0] == s[i]);
        lemma_occurrence_at(s, part, i + 1, k);
    }
}

proof fn lemma_no_occurrence(s: Seq<char>, i: int)
    requires
        0 <= i,
        forall|j: int| 0 <= j < s.len() ==> s[j] != '/',
    ensures
        occurrence(s, colon_slashes(), i) == s.len(),
    decreases s.len() - i,
{
    if i < s.len() && i + 3 <= s.len() {
        assert(s.subrange(i, i + 3)[1] == s[i + 1]);
        assert(colon_slashes()[1] == '/');
        lemma_no_occurrence(s, i + 1);
    }
}

proof fn lemma_trimmed_fixed(s: Seq<char>)
    requires
        s.len() > 0,
        !white_space(s[0]),
        !white_space(s.last()),
    ensures
        trimmed(s) == s,
{
}

proof fn lemma_trim_start_last(s: Seq<char>)
    ensures
        trim_start(s).len() <= s.len(),
        trim_start(s).len() > 0 ==> trim_start(s).last() == s.last(),
    decreases s.len(),
{
    if s.len() > 0 && white_space(s[0]) {
        lemma_trim_start_last(s.drop_first());
    }
}

proof fn lemma_trim_end_last(s: Seq<char>)
    ensures
        trim_end(s).len() > 0 ==> !white_space(trim_end(s).last()),
    decreases s.len(),
{
    if s.len() > 0 && white_space(s.last()) {
        lemma_trim_end_last(s.drop_last());
    }
}

/// What parsing leaves in a forwarder, as far as the string form needs it.
spec fn parts_fit(f: ForwarderView) -> bool {
    &&& f.addr.ip is V4 ==> f.addr.scope == 0
    &&& assembled(f.transport, f.addr, f.hostname, f.path) == Ok::<ForwarderView, ForwarderError>(f)
    &&& f.transport != Transport::Doh ==> f.path is None
    &&& f.path is Some ==> f.path->0.len() > 0 && f.path->0[0] == '/' && !white_space(
        f.path->0.last(),
    )
    &&& f.hostname is Some ==> f.hostname->0.len() > 0 && forall|i: int|
        0 <= i < f.hostname->0.len() ==> f.hostname->0[i] != '/'
}

proof fn lemma_parsed_parts(spec: Seq<char>, f: ForwarderView)
    requires
        forwarder_of(spec) == Ok::<ForwarderView, ForwarderError>(f),
        ip_text(f.addr.ip).len() > 0,
        forall|i: int| 0 <= i < ip_text(f.addr.ip).len() ==> ip_text(f.addr.ip)[i] != '/',
    ensures
        parts_fit(f),
{
    reveal_strlit("/dns-query");
    let s = trimmed(spec);
    lemma_trim_end_last(trim_start(spec));
    lemma_occurrence(s, colon_slashes(), 0);
    let (t, rest) = scheme_split(s)->Ok_0;
    lemma_index_of(rest, '/');
    let has_path = holds(rest, '/');
    let authority = if has_path {
        before(rest, '/')
    } else {
        rest
    };
    let (name, host_port) = authority_split(authority);
    lemma_last_index_of(authority, '@');
    lemma_host_port_scope(host_port, port_of(t));
    assert(rest.len() > 0 ==> rest.last() == s.last());
    if has_path {
        let tail = after(rest, '/');
        if tail.len() > 0 {
            assert(tail.last() == rest.last());
            assert((seq!['/'] + tail).last() == tail.last());
        } else {
            assert((seq!['/'] + tail).last() == '/');
        }
    }
    if name is Some {
        assert forall|i: int| 0 <= i < name->0.len() implies name->0[i] != '/' by {
            assert(name->0[i] == authority[i]);
            assert(authority[i] == rest[i]);
        }
    }
}

/// Splitting what a string form has behind its scheme.
proof fn lemma_rest_round_trip(f: ForwarderView, name: Option<Seq<char>>, rest: Seq<char>)
    requires
        parts_fit(f),
        f.breaker == 0,
        name == f.hostname || (name is None && f.hostname == Some(ip_text(f.addr.ip))),
        socket_of(socket_text(f.addr)) == Some(f.addr),
        socket_text(f.addr).len() > 0,
        forall|i: int|
            0 <= i < socket_text(f.addr).len() ==> socket_char(#[trigger] socket_text(f.addr)[i]),
        rest == (match name {
            Some(n) => n + seq!['@'],
            None => Seq::empty(),
        }) + socket_text(f.addr) + (match f.path {
            Some(p) => p,
            None => Seq::empty(),
        }),
    ensures
        forwarder_at(f.transport, rest) == Ok::<ForwarderView, ForwarderError>(f),
{
    let address = socket_text(f.addr);
    let head = match name {
        Some(n) => n + seq!['@'],
        None => Seq::empty(),
    };
    let path = match f.path {
        Some(p) => p,
        None => Seq::empty(),
    };
    let authority = head + address;
    assert(rest =~= authority + path);
    assert forall|i: int| 0 <= i < authority.len() implies authority[i] != '/' by {
        if i >= head.len() {
            assert(authority[i] == address[i - head.len()]);
            assert(socket_char(address[i - head.len()]));
        } else {
            assert(authority[i] == head[i]);
            if name is Some && i < name->0.len() {
                assert(head[i] == name->0[i]);
            }
        }
    }
    assert forall|i: int| 0 <= i < authority.len() implies rest[i] != '/' by {
        assert(rest[i] == authority[i]);
    }
    if f.path is Some {
        assert(rest[authority.len() as int] == path[0]);
        lemma_index_of_unique(rest, '/', authority.len() as int);
        assert(before(rest, '/') =~= authority);
        assert(after(rest, '/') =~= path.drop_first());
        assert(seq!['/'] + after(rest, '/') =~= path);
    } else {
        assert(rest =~= authority);
        lemma_index_of_unique(rest, '/', rest.len() as int);
    }
    assert forall|i: int| head.len() <= i < authority.len() implies authority[i] != '@' by {
        assert(authority[i] == address[i - head.len()]);
        assert(socket_char(address[i - head.len()]));
    }
    match name {
        Some(n) => {
            assert(authority[n.len() as int] == '@');
            lemma_last_index_of_unique(authority, '@', n.len() as int);
            assert(authority.subrange(0, n.len() as int) =~= n);
            assert(authority.subrange(n.len() as int + 1, authority.len() as int) =~= address);
        },
        None => {
            assert(authority =~= address);
            lemma_last_index_of_unique(authority, '@', -1);
        },
    }
    assert(authority_split(authority) == (name, address));
    assert(host_port_of(address, port_of(f.transport)) == Some(f.addr));
}

proof fn lemma_spec_round_trip(v: ForwarderView)
    requires
        is_parsed(v),
        v.addr.ip is V4 ==> v.addr.scope == 0,
        ip_text(v.addr.ip).len() > 0,
        forall|i: int|
            0 <= i < ip_text(v.addr.ip).len() ==> crate::addr::ipv6_char(
                #[trigger] ip_text(v.addr.ip)[i],
            ),
        socket_of(socket_text(v.addr)) == Some(v.addr),
        socket_text(v.addr).len() > 0,
        forall|i: int|
            0 <= i < socket_text(v.addr).len() ==> socket_char(#[trigger] socket_text(v.addr)[i]),
    ensures
        forwarder_of(spec_text(v)) == Ok::<ForwarderView, ForwarderError>(
            ForwarderView { breaker: 0, ..v },
        ),
{
    let f = ForwarderView { breaker: 0, ..v };
    let spec = choose|s: Seq<char>|
        #[trigger] forwarder_of(s) == Ok::<ForwarderView, ForwarderError>(f);
    assert forall|i: int| 0 <= i < ip_text(f.addr.ip).len() implies ip_text(f.addr.ip)[i]
        != '/' by {
        assert(crate::addr::ipv6_char(ip_text(f.addr.ip)[i]));
    }
    lemma_parsed_parts(spec, f);
    let address = socket_text(f.addr);
    let path = match f.path {
        Some(p) => p,
        None => Seq::empty(),
    };
    let s = spec_text(f);
    assert(spec_text(v) == s);
    assert(socket_char(address[0]));
    assert(socket_char(address[address.len() - 1]));
    if f.transport == Transport::Do53Udp {
        assert forall|j: int| 0 <= j < s.len() implies s[j] != '/' by {
            assert(socket_char(address[j]));
        }
        lemma_trimmed_fixed(s);
        lemma_no_occurrence(s, 0);
        assert(Seq::<char>::empty() + address + path =~= s);
        lemma_rest_round_trip(f, None, s);
    } else {
        let named = f.hostname is Some && f.hostname->0 != ip_text(f.addr.ip);
        let name = if named {
            f.hostname
        } else {
            None
        };
        let head = match name {
            Some(n) => n + seq!['@'],
            None => Seq::empty(),
        };
        let rest = head + address + path;
        let scheme = scheme_of(f.transport);
        reveal_strlit("@");
        assert("@"@ =~= seq!['@']);
        if named {
            assert(s =~= scheme + "://"@ + rest);
        } else {
            assert(s =~= scheme + "://"@ + rest);
        }
        assert(rest.last() == if path.len() > 0 {
            path.last()
        } else {
            address.last()
        });
        lemma_scheme_and_rest(f.transport, rest);
        lemma_rest_round_trip(f, name, rest);
    }
}

proof fn lemma_scheme_and_rest(t: Transport, rest: Seq<char>)
    requires
        rest.len() > 0,
        !white_space(rest.last()),
    ensures
        trimmed(scheme_of(t) + "://"@ + rest) == scheme_of(t) + "://"@ + rest,
        scheme_split(scheme_of(t) + "://"@ + rest) == Ok::<(Transport, Seq<char>), ForwarderError>(
            (t, rest),
        ),
{
    let scheme = scheme_of(t);
    let s = scheme + "://"@ + rest;
    lemma_scheme_chars(t);
    law_scheme_round_trip(t);
    reveal_strlit("://");
    assert("://"@ =~= colon_slashes());
    assert(s[0] == scheme[0]);
    assert(s.last() == rest.last());
    lemma_trimmed_fixed(s);
    let n = scheme.len() as int;
    assert(s.subrange(n, n + 3) =~= colon_slashes());
    assert forall|j: int| 0 <= j < n implies s[j] != colon_slashes()[0] by {
        assert(s[j] == scheme[j]);
    }
    lemma_occurrence_at(s, colon_slashes(), 0, n);
    assert(s.subrange(0, n) =~= scheme);
    assert(s.subrange(n + 3, s.len() as int) =~= rest);
}

// ---------------------------------------------------------------------------
// How errors read
// ---------------------------------------------------------------------------
/// What stands before the scheme's mark in a forwarder's text, and what behind it; all of
/// the text where there is no mark.
pub open spec fn mark_split(s: Seq<char>) -> (Seq<char>, Seq<char>) {
    let at = occurrence(s, colon_slashes(), 0);
    if at == s.len() {
        (s, s)
    } else {
        (s.subrange(0, at), s.subrange(at + 3, s.len() as int))
    }
}

/// The name and the address in what stands behind the scheme's mark.
pub open spec fn name_and_address(rest: Seq<char>) -> (Option<Seq<char>>, Seq<char>) {
    authority_split(
        if holds(rest, '/') {
            before(rest, '/')
        } else {
            rest
        },
    )
}

/// The name that a server is known by: its address where none is given.
pub open spec fn server_named(rest: Seq<char>) -> Seq<char> {
    match name_and_address(rest) {
        (Some(name), _) => name,
        (None, address) => match host_port_of(address, 0) {
            Some(addr) => ip_text(addr.ip),
            None => Seq::empty(),
        },
    }
}

/// How it reads that a transport is unknown.
pub open spec fn unsupported_text(scheme: Seq<char>) -> Seq<char> {
    "unsupported forwarder transport '"@ + lower_chars(scheme)
        + "' (use udp, tcp, tls/dot, https/doh or quic/doq)"@
}

/// How it reads that a transport is not encrypted.
pub open spec fn not_encrypted_text(transport: Seq<char>) -> Seq<char> {
    "secure upstream transport '"@ + transport
        + "' is not encrypted (use tls/dot, https/doh or quic/doq)"@
}

/// How it reads behind a forwarder's text that it denotes none.
pub open spec fn complaint_text(rest: Seq<char>, e: ForwarderError) -> Seq<char> {
    match e {
        ForwarderError::NoAddress => " names no address"@,
        ForwarderError::PathNotAllowed => ": a path is only meaningful for https/doh"@,
        ForwarderError::EmptyServerName => ": empty server name before '@'"@,
        ForwarderError::BadAddress => ": invalid address '"@ + name_and_address(rest).1 + "'"@,
        ForwarderError::BadServerName => ": invalid server name '"@ + server_named(rest) + "'"@,
        _ => ": a server name is only meaningful for an encrypted transport"@,
    }
}

/// How it reads that a text denotes no forwarder.
pub open spec fn forwarder_error_text(spec: Seq<char>, e: ForwarderError) -> Seq<char> {
    let s = trimmed(spec);
    match e {
        ForwarderError::Empty => "empty forwarder"@,
        ForwarderError::UnsupportedTransport => unsupported_text(mark_split(s).0),
        ForwarderError::NotEncrypted => not_encrypted_text(s),
        _ => "forwarder '"@ + s + "'"@ + complaint_text(mark_split(s).1, e),
    }
}

fn split_mark(s: &[char]) -> (r: (&[char], &[char]))
    ensures
        (r.0@, r.1@) == mark_split(s@),
{
    let mut mark: Vec<char> = Vec::new();
    mark.push(':');
    mark.push('/');
    mark.push('/');
    assert(mark@ =~= colon_slashes());
    let at: usize = find_part(s, mark.as_slice());
    if at == s.len() {
        (s, s)
    } else {
        proof {
            lemma_occurrence(s@, colon_slashes(), 0);
        }
        (slice_subrange(s, 0, at), slice_subrange(s, at + 3, s.len()))
    }
}

fn split_authority(rest: &[char]) -> (r: (Option<String>, String))
    ensures
        (text_of(r.0), r.1@) == name_and_address(rest@),
{
    let slash: usize = find_char(rest, '/');
    assert(rest@.subrange(0, rest@.len() as int) =~= rest@);
    let authority = slice_subrange(rest, 0, slash);
    match find_last(authority, '@') {
        Some(at) => (
            Some(string_of(slice_subrange(authority, 0, at))),
            string_of(slice_subrange(authority, at + 1, authority.len())),
        ),
        None => (None, string_of(authority)),
    }
}

impl ForwarderError {
    /// How the error reads, for the text that does not parse.
    pub fn message(&self, spec: &str) -> (r: String)
        ensures
            r@ == forwarder_error_text(spec@, *self),
    {
        let chars = chars_of(spec);
        let trimmed_chars = trim(chars.as_slice());
        let text = string_of(trimmed_chars);
        let (scheme, rest) = split_mark(trimmed_chars);
        match self {
            ForwarderError::Empty => "empty forwarder".to_owned(),
            ForwarderError::UnsupportedTransport => {
                let scheme = string_of(scheme);
                self.transport_message(scheme.as_str())
            },
            ForwarderError::NotEncrypted => self.transport_message(text.as_str()),
            _ => {
                let complaint = self.complaint(rest);
                join4("forwarder '", text.as_str(), "'", complaint.as_str())
            },
        }
    }

    fn complaint(&self, rest: &[char]) -> (r: String)
        ensures
            r@ == complaint_text(rest@, *self),
    {
        let (name, address) = split_authority(rest);
        match self {
            ForwarderError::NoAddress => " names no address".to_owned(),
            ForwarderError::PathNotAllowed => {
                ": a path is only meaningful for https/doh".to_owned()
            },
            ForwarderError::EmptyServerName => ": empty server name before '@'".to_owned(),
            ForwarderError::BadAddress => join3(": invalid address '", address.as_str(), "'"),
            ForwarderError::BadServerName => {
                let name = match name {
                    Some(name) => name,
                    None => {
                        let chars = chars_of(address.as_str());
                        match parse_host_port(chars.as_slice(), 0) {
                            Some(addr) => ip_to_string(addr.ip),
                            None => String::new(),
                        }
                    },
                };
                join3(": invalid server name '", name.as_str(), "'")
            },
            _ => {
                ": a server name is only meaningful for an encrypted transport".to_owned()
            },
        }
    }

    /// How the error reads that a secure upstream's transport gives.
    pub fn transport_message(&self, transport: &str) -> (r: String)
        ensures
            r@ == if *self == ForwarderError::NotEncrypted {
                not_encrypted_text(transport@)
            } else {
                unsupported_text(transport@)
            },
    {
        match self {
            ForwarderError::NotEncrypted => join3(
                "secure upstream transport '",
                transport,
                "' is not encrypted (use tls/dot, https/doh or quic/doq)",
            ),
            _ => {
                let chars = chars_of(transport);
                let lower = to_lower_chars(chars.as_slice());
                let name = string_of(lower.as_slice());
                join3(
                    "unsupported forwarder transport '",
                    name.as_str(),
                    "' (use udp, tcp, tls/dot, https/doh or quic/doq)",
                )
            },
        }
    }
}

// ---------------------------------------------------------------------------
// Lists of forwarders
// ---------------------------------------------------------------------------
/// The first forwarder at or after `i` with a label.
pub open spec fn label_index(s: Seq<ForwarderView>, label: Seq<char>, i: int) -> int
    decreases s.len() - i,
{
    if i >= s.len() {
        s.len() as int
    } else if s[i].label == label {
        i
    } else {
        label_index(s, label, i + 1)
    }
}

/// A forwarder with the breaker of the first of `existing` that has its label.
pub open spec fn with_carried_health(existing: Seq<ForwarderView>, f: ForwarderView) -> ForwarderView {
    let i = label_index(existing, f.label, 0);
    if i < existing.len() {
        ForwarderView { breaker: existing[i].breaker, ..f }
    } else {
        f
    }
}

fn find_label(s: &[Forwarder], label: &str) -> (r: usize)
    ensures
        r == label_index(forwarder_views(s@), label@, 0),
        r <= s@.len(),
{
    let ghost all = forwarder_views(s@);
    let mut i: usize = 0;
    while i < s.len()
        invariant
            i <= s.len(),
            all == forwarder_views(s@),
            label_index(all, label@, 0) == label_index(all, label@, i as int),
        decreases s.len() - i,
    {
        assert(all[i as int] == s@[i as int]@);
        if eq_text(s[i].label.as_str(), label) {
            return i;
        }
        i = i + 1;
    }
    s.len()
}

/// Moves health from the forwarders currently in service onto their replacements,
/// matching by label: those then share the breakers of the ones in service.
pub fn carry_health(existing: &[Forwarder], incoming: &mut Vec<Forwarder>)
    ensures
        final(incoming)@.len() == old(incoming)@.len(),
        forall|i: int|
            0 <= i < old(incoming)@.len() ==> (#[trigger] final(incoming)@[i])@
                == with_carried_health(forwarder_views(existing@), old(incoming)@[i]@),
{
    let ghost before = incoming@;
    let ghost all = forwarder_views(existing@);
    let mut i: usize = 0;
    while i < incoming.len()
        invariant
            i <= incoming.len(),
            incoming@.len() == before.len(),
            all == forwarder_views(existing@),
            forall|k: int|
                0 <= k < i ==> (#[trigger] incoming@[k])@ == with_carried_health(all, before[k]@),
            forall|k: int| i <= k < incoming@.len() ==> #[trigger] incoming@[k] == before[k],
        decreases incoming.len() - i,
    {
        let at: usize = find_label(existing, incoming[i].label.as_str());
        if at < existing.len() {
            let mut f = incoming[i].clone();
            f.breaker = existing[at].breaker;
            assert(all[at as int] == existing@[at as int]@);
            assert(f@ == with_carried_health(all, before[i as int]@));
            incoming.set(i, f);
        }
        i = i + 1;
    }
}

/// The forwarders of one tier, in the order given, those with a label seen before left
/// out.
pub open spec fn tier_of(s: Seq<ForwarderView>, p: Preference) -> Seq<ForwarderView>
    decreases s.len(),
{
    if s.len() == 0 {
        Seq::empty()
    } else {
        let d = s.drop_last();
        if label_index(d, s.last().label, 0) == d.len() && preference_of(s.last()) == p {
            tier_of(d, p).push(s.last())
        } else {
            tier_of(d, p)
        }
    }
}

proof fn lemma_label_index(s: Seq<ForwarderView>, label: Seq<char>, i: int)
    requires
        0 <= i <= s.len(),
    ensures
        i <= label_index(s, label, i) <= s.len(),
        label_index(s, label, i) < s.len() ==> s[label_index(s, label, i)].label == label,
        forall|k: int| i <= k < label_index(s, label, i) ==> s[k].label != label,
    decreases s.len() - i,
{
    if i < s.len() && s[i].label != label {
        lemma_label_index(s, label, i + 1);
    }
}

proof fn lemma_label_index_prefix(s: Seq<ForwarderView>, label: Seq<char>, n: int)
    requires
        0 <= n <= s.len(),
    ensures
        (label_index(s.subrange(0, n), label, 0) == n) == (label_index(s, label, 0) >= n),
{
    let p = s.subrange(0, n);
    lemma_label_index(s, label, 0);
    lemma_label_index(p, label, 0);
    let a = label_index(s, label, 0);
    let b = label_index(p, label, 0);
    if b < n {
        assert(p[b].label == label);
        assert(s[b].label == label);
    }
    if a < n {
        assert(p[a].label == s[a].label);
    }
}

/// Splits forwarders into the three tiers, most preferred first, preserving the order
/// within each.
pub fn by_preference(forwarders: &[Forwarder]) -> (r: [Vec<Forwarder>; 3])
    ensures
        forwarder_views(r@[0]@) == tier_of(forwarder_views(forwarders@), Preference::Encrypted),
        forwarder_views(r@[1]@) == tier_of(
            forwarder_views(forwarders@),
            Preference::PlaintextPrivate,
        ),
        forwarder_views(r@[2]@) == tier_of(
            forwarder_views(forwarders@),
            Preference::PlaintextPublic,
        ),
{
    let mut encrypted_tier: Vec<Forwarder> = Vec::new();
    let mut private_tier: Vec<Forwarder> = Vec::new();
    let mut public_tier: Vec<Forwarder> = Vec::new();
    let ghost all = forwarder_views(forwarders@);
    let mut i: usize = 0;
    proof {
        assert(all.subrange(0, 0) =~= Seq::empty());
        assert(forwarder_views(encrypted_tier@) =~= Seq::empty());
        assert(forwarder_views(private_tier@) =~= Seq::empty());
        assert(forwarder_views(public_tier@) =~= Seq::empty());
    }
    while i < forwarders.len()
        invariant
            i <= forwarders.len(),
            all == forwarder_views(forwarders@),
            forwarder_views(encrypted_tier@) == tier_of(
                all.subrange(0, i as int),
                Preference::Encrypted,
            ),
            forwarder_views(private_tier@) == tier_of(
                all.subrange(0, i as int),
                Preference::PlaintextPrivate,
            ),
            forwarder_views(public_tier@) == tier_of(
                all.subrange(0, i as int),
                Preference::PlaintextPublic,
            ),
        decreases forwarders.len() - i,
    {
        let ghost e = forwarder_views(encrypted_tier@);
        let ghost pr = forwarder_views(private_tier@);
        let ghost pu = forwarder_views(public_tier@);
        let f = forwarders[i].clone();
        let ghost v = f@;
        let first: usize = find_label(forwarders, f.label.as_str());
        proof {
            assert(all[i as int] == forwarders@[i as int]@);
            let q = all.subrange(0, i + 1);
            assert(q.drop_last() =~= all.subrange(0, i as int));
            assert(q.last() == v);
            lemma_label_index_prefix(all, v.label, i as int);
        }
        if first >= i {
            match f.preference() {
                Preference::Encrypted => {
                    encrypted_tier.push(f);
                    assert(forwarder_views(encrypted_tier@) =~= e.push(v));
                },
                Preference::PlaintextPrivate => {
                    private_tier.push(f);
                    assert(forwarder_views(private_tier@) =~= pr.push(v));
                },
                Preference::PlaintextPublic => {
                    public_tier.push(f);
                    assert(forwarder_views(public_tier@) =~= pu.push(v));
                },
            }
        }
        i = i + 1;
    }
    assert(all.subrange(0, i as int) =~= all);
    [encrypted_tier, private_tier, public_tier]
}

proof fn lemma_tier_members(s: Seq<ForwarderView>, p: Preference, f: ForwarderView)
    ensures
        tier_of(s, p).contains(f) == exists|i: int|
            {
                &&& 0 <= i < s.len()
                &&& #[trigger] s[i] == f
                &&& preference_of(f) == p
                &&& label_index(s, f.label, 0) == i
            },
    decreases s.len(),
{
    if s.len() > 0 {
        let d = s.drop_last();
        let last = s.last();
        lemma_tier_members(d, p, f);
        assert(d =~= s.subrange(0, s.len() - 1));
        lemma_label_index_prefix(s, f.label, s.len() - 1);
        lemma_label_index(s, f.label, 0);
        lemma_label_index(d, f.label, 0);
        lemma_label_index_prefix(s, last.label, s.len() - 1);
        lemma_label_index(s, last.label, 0);
        assert(s[s.len() - 1] == last);
        let kept = label_index(d, last.label, 0) == d.len() && preference_of(last) == p;
        let before = tier_of(d, p);
        if kept {
            let t = before.push(last);
            assert(t[before.len() as int] == last);
            if before.contains(f) {
                let k = choose|k: int| 0 <= k < before.len() && before[k] == f;
                assert(t[k] == f);
            }
            if t.contains(f) {
                let k = choose|k: int| 0 <= k < t.len() && t[k] == f;
                if k < before.len() {
                    assert(before[k] == f);
                }
            }
        }
        let di = label_index(d, f.label, 0);
        let si = label_index(s, f.label, 0);
        if di < d.len() {
            assert(s[di] == d[di]);
            assert(si == di) by {
                if si < di {
                    assert(d[si] == s[si]);
                }
            }
        }
        if si < d.len() {
            assert(d[si] == s[si]);
            assert(di == si) by {
                if di < si {
                    assert(s[di] == d[di]);
                }
            }
        }
    }
}

/// The tiers hold the first forwarder of each label, in the tier of its preference and in
/// no other: none is lost, none is dialed twice.
pub proof fn law_tiers_partition(s: Seq<ForwarderView>, i: int, p: Preference)
    requires
        0 <= i < s.len(),
    ensures
        label_index(s, s[i].label, 0) == i ==> tier_of(s, p).contains(s[i]) == (preference_of(s[i])
            == p),
        exists|k: int|
            0 <= k <= i && (#[trigger] s[k]).label == s[i].label && tier_of(
                s,
                preference_of(s[k]),
            ).contains(s[k]),
{
    lemma_tier_members(s, p, s[i]);
    lemma_label_index(s, s[i].label, 0);
    let k = label_index(s, s[i].label, 0);
    assert(k <= i);
    lemma_label_index(s, s[k].label, 0);
    lemma_tier_members(s, preference_of(s[k]), s[k]);
    assert(s[k] == s[k]);
}

/// A forwarder in a tier is one of the list, with its breaker: what is recorded of the one
/// is known of the other.
pub proof fn law_tiers_share_breakers(s: Seq<ForwarderView>, p: Preference, f: ForwarderView)
    requires
        tier_of(s, p).contains(f),
    ensures
        exists|i: int|
            0 <= i < s.len() && (#[trigger] s[i]) == f && s[i].breaker == f.breaker && s[i].label
                == f.label,
{
    lemma_tier_members(s, p, f);
}

/// Forwarders that are parsed one after another do not share a breaker: what is recorded of
/// one is not held against the other.
pub proof fn law_forwarders_have_breakers_of_their_own(
    before: Breakers,
    between: Breakers,
    after: Breakers,
    a: Seq<char>,
    b: Seq<char>,
)
    requires
        between.issued_one(before),
        after.issued_one(between),
        forwarder_of(a) is Ok,
        forwarder_of(b) is Ok,
    ensures
        ({
            let x = in_service(forwarder_of(a), before.next)->Ok_0;
            let y = in_service(forwarder_of(b), between.next)->Ok_0;
            &&& x.breaker != y.breaker
            &&& after.state(x.breaker) == healthy()
            &&& after.state(y.breaker) == healthy()
        }),
{
}

/// A replacement shares the breaker of the forwarder in service that has its label.
pub proof fn law_replacements_share_breakers(existing: Seq<ForwarderView>, f: ForwarderView, i: int)
    requires
        0 <= i < existing.len(),
        existing[i].label == f.label,
    ensures
        exists|k: int|
            0 <= k <= i && (#[trigger] existing[k]).label == f.label && with_carried_health(
                existing,
                f,
            ).breaker == existing[k].breaker,
{
    lemma_label_index(existing, f.label, 0);
}

} // verus!
