//! The order in which a query is resolved.
//!
//! Resolving a query alternates between looking something up and deciding what that means.
//! The lookups are a caller's; the decisions are [`Resolution::step`]'s. Each step takes
//! what the last lookup found and gives either the next lookup or the reply.
use vstd::prelude::*;

use crate::message::{FORM_ERR, NOT_IMP, NO_ERROR, NX_DOMAIN, REFUSED};
use crate::record::RecordKind;

verus! {

/// Which stage of the resolution produced an answer.
#[derive(Debug, Clone, Copy, PartialEq, Eq, Structural)]
pub enum AnswerSource {
    Upstream,
    Error,
    Refused,
    Rbl,
    Cache,
    Scoped,
    TldPeer,
    AuthoritativeNxdomain,
    Local,
    ScopeFallback,
    Blocklist,
    Dns64,
}

/// What is known of a query before anything is looked up.
#[derive(Debug, Clone, Copy, PartialEq, Eq, Structural)]
pub struct QueryContext {
    /// The query arrived on a listener with an address of its own.
    pub on_listener: bool,
    /// The sender's address is known.
    pub has_source: bool,
    /// The sender is a peer of the overlay network.
    pub overlay_peer: bool,
    /// The sender may make the server ask others.
    pub may_recurse: bool,
    /// The name is one for reverse lookups.
    pub reverse: bool,
    /// The stored record type that is asked for.
    pub kind: Option<RecordKind>,
    /// The number of labels of the name.
    pub labels: usize,
    /// Answers are cached.
    pub caching: bool,
    /// The client asked for DNSSEC records.
    pub dnssec_ok: bool,
    /// IPv6 addresses are asked for, and may be made from IPv4 addresses.
    pub dns64: bool,
}

/// Who owns the top-level domain that a name falls under.
#[derive(Debug, Clone, Copy, PartialEq, Eq, Structural)]
pub enum Owner {
    /// It has not been asked yet.
    Unknown,
    /// No network.
    Nobody,
    /// The network that the query belongs to; for a query of no network, whichever.
    Own,
    /// Another network than the one that the query belongs to.
    Other,
}

/// Whose records a lookup is about.
#[derive(Debug, Clone, Copy, PartialEq, Eq, Structural)]
pub enum Subject {
    /// The name that was asked for.
    Qname,
    /// The target of the ANAME record that was found.
    AnameTarget,
    /// The ancestor of the name without its first labels.
    Ancestor(usize),
    /// A managed zone: that of the network at this position, or the global one found.
    Zone(usize),
}

/// A negative answer in the cache.
#[derive(Debug, Clone, Copy, PartialEq, Eq, Structural)]
pub enum NegativeKind {
    NxDomain,
    NoData,
}

/// Something to look up.
#[derive(Debug, Clone, Copy, PartialEq, Eq, Structural)]
pub enum Lookup {
    /// Whether the listener's address is the ingress of the domain that the name is under.
    Ingress,
    /// The network whose ingress the listener is.
    IngressScope,
    /// The network that the sender has joined.
    SourceScope,
    /// Whether there are networks at all.
    HasScopes,
    /// Whether a provider lists the address of a reverse name.
    RblProvider,
    /// Whether the local list holds that address.
    RblLocal,
    /// Cached records of the network.
    ScopedCache,
    /// Records of the network, of one type or of any.
    Scoped(Subject, Option<RecordKind>),
    /// Who owns the domain that the name is under.
    TldOwner,
    /// The peers that the owned domain can be asked at.
    TldPeers,
    /// What those peers answer.
    AskPeers,
    /// How many managed zones of the network the name is in.
    ScopedZones,
    /// Whether the name is in a zone served with authority.
    Authoritative,
    /// Cached local records.
    LocalCache,
    /// Exact, wildcard, CNAME and ANAME records of the name.
    Fallbacks,
    /// Global records, of one type or of any.
    Records(Subject, Option<RecordKind>),
    /// Records in the network that owns the domain.
    OwnerRecords(RecordKind),
    /// The managed zone that the name is in.
    ManagedZone,
    /// The zone served with authority that the name is in.
    AuthoritativeZone,
    /// Whether the name is exempt from blocklists.
    Allowlisted,
    /// Whether the local list holds the name.
    RblName,
    /// Whether a provider lists the name.
    RblNameProvider,
    /// Cached answers.
    Cache,
    /// A cached negative answer.
    NegativeCache,
    /// The answer of an upstream resolver.
    Upstream,
    /// IPv6 answers made from an upstream's IPv4 answers.
    UpstreamA,
}

/// What a lookup found.
#[derive(Debug, Clone, Copy, PartialEq, Eq, Structural)]
pub enum Event {
    /// Whether there was anything, or whether it is so.
    Found(bool),
    /// Who owns the domain.
    Owner(Owner),
    /// How many there are.
    Count(usize),
    /// Which kinds of record there are.
    Fallbacks { any: bool, aname: bool, cname: bool },
    /// The negative answer.
    Negative(Option<NegativeKind>),
    /// Whether an upstream answered, and whether its answer can be read and has no IPv6
    /// address.
    Upstream { answered: bool, lacks_v6: bool },
}

/// Where the records of a reply come from.
#[derive(Debug, Clone, Copy, PartialEq, Eq, Structural)]
pub enum Answers {
    /// There are none.
    Nothing,
    /// What the last lookup found, rewritten to the ingress where there is one.
    Scoped,
    /// The same, under the name that was asked for.
    ScopedRenamed,
    /// What the last lookup found.
    Plain,
    /// The same, under the name that was asked for.
    Renamed,
    /// The CNAME records that were found with the others.
    Cname,
    /// A DNAME at the ancestor without the first labels, and where it leads.
    Dname(usize),
    /// IPv6 addresses made from the IPv4 addresses that were found.
    Synthesized,
}

/// What a cache is told with a reply.
#[derive(Debug, Clone, Copy, PartialEq, Eq, Structural)]
pub enum Remember {
    Nothing,
    /// Remember the records for the network; forget negatives for the name.
    Scoped,
    /// Remember the records; forget negatives for the name.
    Local,
}

/// A reply.
#[derive(Debug, Clone, Copy, PartialEq, Eq, Structural)]
pub struct Reply {
    pub rcode: u16,
    pub authoritative: bool,
    pub answers: Answers,
    /// Whether the reply has an OPT record where the query had one.
    pub edns: bool,
    pub source: AnswerSource,
    pub remember: Remember,
}

/// What to do next.
#[derive(Debug, Clone, Copy, PartialEq, Eq, Structural)]
pub enum Action {
    /// Look this up and step on.
    Ask(Lookup),
    /// Send this reply.
    Respond(Reply),
    /// Send what the peers answered.
    RelayPeers,
    /// Send what the upstream answered, or fail as it did.
    RelayUpstream,
    /// The last event does not answer the last lookup.
    Stuck,
}

/// Where a resolution stands: what the last lookup was for.
#[derive(Debug, Clone, Copy, PartialEq, Eq, Structural)]
pub enum Stage {
    Ingress,
    IngressScope,
    SourceScope,
    HasScopes,
    ScopedRblProvider,
    ScopedRblLocal,
    ScopedCache,
    ScopedExact,
    ScopedAname,
    ScopedAnameTarget,
    ScopedCname,
    ScopedDname(usize),
    ScopedOwner,
    ScopedPeers,
    ScopedAskPeers,
    ScopedZones,
    /// A zone's position, and the number of zones.
    ScopedZone(usize, usize),
    RblProvider,
    RblLocal,
    Authoritative,
    LocalCache,
    Fallbacks,
    /// Whether there are CNAME records to fall back to.
    AnameTarget(bool),
    LanOwner,
    LanExact,
    LanCname,
    LanPeers,
    LanAskPeers,
    Dname(usize),
    ManagedZone,
    ManagedZoneRecords,
    AuthoritativeZone,
    Allowlisted,
    RblName,
    RblNameProvider,
    Cache,
    NegativeCache,
    Upstream,
    UpstreamA,
    CacheAgain,
    Done,
}

/// A resolution under way.
#[derive(Debug, Clone, Copy, PartialEq, Eq, Structural)]
pub struct Resolution {
    pub stage: Stage,
    /// The query belongs to a network.
    pub scoped: bool,
    /// Address answers are rewritten to the listener's address.
    pub ingress: bool,
    /// The name is in a zone served with authority.
    pub authoritative: bool,
    /// Who owns the domain that the name is under, once that was asked.
    pub owner: Owner,
    /// Blocklists have nothing against the name.
    pub cleared: bool,
    /// No local record answers the query.
    pub missed: bool,
}

// ---------------------------------------------------------------------------
// Replies
// ---------------------------------------------------------------------------
/// A reply without records.
pub open spec fn bare(rcode: u16, authoritative: bool, source: AnswerSource) -> Action {
    Action::Respond(
        Reply {
            rcode,
            authoritative,
            answers: Answers::Nothing,
            edns: true,
            source,
            remember: Remember::Nothing,
        },
    )
}

/// A reply with records.
pub open spec fn full(
    authoritative: bool,
    answers: Answers,
    source: AnswerSource,
    remember: Remember,
) -> Action {
    Action::Respond(
        Reply { rcode: NO_ERROR, authoritative, answers, edns: true, source, remember },
    )
}

/// A reply with a DNAME.
pub open spec fn dname_reply(i: usize, source: AnswerSource) -> Action {
    Action::Respond(
        Reply {
            rcode: NO_ERROR,
            authoritative: true,
            answers: Answers::Dname(i),
            edns: false,
            source,
            remember: Remember::Nothing,
        },
    )
}

fn bare_reply(rcode: u16, authoritative: bool, source: AnswerSource) -> (r: Action)
    ensures
        r == bare(rcode, authoritative, source),
{
    Action::Respond(
        Reply {
            rcode,
            authoritative,
            answers: Answers::Nothing,
            edns: true,
            source,
            remember: Remember::Nothing,
        },
    )
}

fn full_reply(
    authoritative: bool,
    answers: Answers,
    source: AnswerSource,
    remember: Remember,
) -> (r: Action)
    ensures
        r == full(authoritative, answers, source, remember),
{
    Action::Respond(
        Reply { rcode: NO_ERROR, authoritative, answers, edns: true, source, remember },
    )
}

fn dname_response(i: usize, source: AnswerSource) -> (r: Action)
    ensures
        r == dname_reply(i, source),
{
    Action::Respond(
        Reply {
            rcode: NO_ERROR,
            authoritative: true,
            answers: Answers::Dname(i),
            edns: false,
            source,
            remember: Remember::Nothing,
        },
    )
}

// ---------------------------------------------------------------------------
// Before the first lookup
// ---------------------------------------------------------------------------
/// What the header of a message decides.
#[derive(Debug, Clone, Copy, PartialEq, Eq, Structural)]
pub enum Opening {
    /// An error response that is a header alone.
    Error(u16),
    /// An error response with an OPT record: the EDNS version is not supported.
    BadVersion,
    /// A query to resolve.
    Resolve,
}

/// What a message's header decides; `readable` is whether it can be read.
pub open spec fn opening_of(
    readable: bool,
    edns_version: Option<u8>,
    is_query: bool,
    opcode: u8,
    questions: usize,
) -> Opening {
    if !readable {
        Opening::Error(FORM_ERR)
    } else if edns_version is Some && edns_version->0 > 0 {
        Opening::BadVersion
    } else if !is_query || opcode != 0 {
        Opening::Error(NOT_IMP)
    } else if questions == 0 {
        Opening::Error(FORM_ERR)
    } else {
        Opening::Resolve
    }
}

/// Decides what a message's header decides.
pub fn open_query(
    readable: bool,
    edns_version: Option<u8>,
    is_query: bool,
    opcode: u8,
    questions: usize,
) -> (r: Opening)
    ensures
        r == opening_of(readable, edns_version, is_query, opcode, questions),
{
    if !readable {
        return Opening::Error(FORM_ERR);
    }
    if let Some(version) = edns_version {
        if version > 0 {
            return Opening::BadVersion;
        }
    }
    if !is_query || opcode != 0 {
        Opening::Error(NOT_IMP)
    } else if questions == 0 {
        Opening::Error(FORM_ERR)
    } else {
        Opening::Resolve
    }
}

// ---------------------------------------------------------------------------
// Moving on
// ---------------------------------------------------------------------------
/// A resolution that waits for a lookup.
pub open spec fn asking(s: Resolution, stage: Stage, lookup: Lookup) -> (Resolution, Action) {
    (Resolution { stage, ..s }, Action::Ask(lookup))
}

/// A resolution that is over.
pub open spec fn ending(s: Resolution, action: Action) -> (Resolution, Action) {
    (Resolution { stage: Stage::Done, ..s }, action)
}

/// Upstream, the last resort.
pub open spec fn to_upstream(s: Resolution) -> (Resolution, Action) {
    asking(s, Stage::Upstream, Lookup::Upstream)
}

/// The answers cached from upstream.
pub open spec fn to_cache(c: QueryContext, s: Resolution) -> (Resolution, Action) {
    let cleared = Resolution { cleared: true, ..s };
    if c.caching {
        asking(cleared, Stage::Cache, Lookup::Cache)
    } else {
        to_upstream(cleared)
    }
}

/// The blocklists. Reverse names were checked by their address.
pub open spec fn to_blocklists(c: QueryContext, s: Resolution) -> (Resolution, Action) {
    if c.reverse {
        to_cache(c, s)
    } else {
        asking(s, Stage::Allowlisted, Lookup::Allowlisted)
    }
}

/// The guard: everything behind it asks others, which not every sender may cause.
pub open spec fn to_guard(c: QueryContext, s: Resolution) -> (Resolution, Action) {
    if !c.may_recurse {
        ending(s, bare(REFUSED, false, AnswerSource::Upstream))
    } else {
        to_blocklists(c, s)
    }
}

/// DNAME records at the ancestors from `i` on, then the zones.
pub open spec fn to_dname(c: QueryContext, s: Resolution, i: usize) -> (Resolution, Action) {
    if i < c.labels {
        asking(
            s,
            Stage::Dname(i),
            Lookup::Records(Subject::Ancestor(i), Some(RecordKind::DNAME)),
        )
    } else {
        asking(s, Stage::ManagedZone, Lookup::ManagedZone)
    }
}

/// The owner of the domain, for a query of no network; then DNAME records.
pub open spec fn to_lan(c: QueryContext, s: Resolution) -> (Resolution, Action) {
    if s.scoped {
        to_dname(c, s, 1)
    } else {
        asking(s, Stage::LanOwner, Lookup::TldOwner)
    }
}

/// The peers of the owned domain, for a query of no network.
pub open spec fn to_lan_peers(s: Resolution) -> (Resolution, Action) {
    asking(s, Stage::LanPeers, Lookup::TldPeers)
}

/// Exact, wildcard, CNAME and ANAME records.
pub open spec fn to_fallbacks(s: Resolution) -> (Resolution, Action) {
    asking(s, Stage::Fallbacks, Lookup::Fallbacks)
}

/// Local records.
pub open spec fn to_local(c: QueryContext, s: Resolution) -> (Resolution, Action) {
    if c.kind is None {
        to_lan(c, s)
    } else if c.caching {
        asking(s, Stage::LocalCache, Lookup::LocalCache)
    } else {
        to_fallbacks(s)
    }
}

/// The global records.
pub open spec fn to_global(c: QueryContext, s: Resolution) -> (Resolution, Action) {
    if !s.scoped && c.reverse {
        asking(s, Stage::RblProvider, Lookup::RblProvider)
    } else {
        asking(s, Stage::Authoritative, Lookup::Authoritative)
    }
}

/// The managed zones of the network from position `i` on, then the global records.
pub open spec fn to_scoped_zone(c: QueryContext, s: Resolution, i: usize, n: usize) -> (
    Resolution,
    Action,
) {
    if i < n {
        asking(s, Stage::ScopedZone(i, n), Lookup::Scoped(Subject::Zone(i), None))
    } else {
        to_global(c, s)
    }
}

/// DNAME records of the network at the ancestors from `i` on, then the owner.
pub open spec fn to_scoped_dname(c: QueryContext, s: Resolution, i: usize) -> (Resolution, Action) {
    if i < c.labels {
        asking(
            s,
            Stage::ScopedDname(i),
            Lookup::Scoped(Subject::Ancestor(i), Some(RecordKind::DNAME)),
        )
    } else {
        asking(s, Stage::ScopedOwner, Lookup::TldOwner)
    }
}

/// A CNAME of the network, where a stored type is asked for.
pub open spec fn to_scoped_cname(s: Resolution) -> (Resolution, Action) {
    asking(s, Stage::ScopedCname, Lookup::Scoped(Subject::Qname, Some(RecordKind::CNAME)))
}

/// Whether addresses are asked for.
pub open spec fn wants_address(c: QueryContext) -> bool {
    c.kind == Some(RecordKind::A) || c.kind == Some(RecordKind::AAAA)
}

/// The records of the network.
pub open spec fn to_scoped_exact(c: QueryContext, s: Resolution) -> (Resolution, Action) {
    asking(s, Stage::ScopedExact, Lookup::Scoped(Subject::Qname, c.kind))
}

/// The network's records, from its cache on.
pub open spec fn to_scoped_records(c: QueryContext, s: Resolution) -> (Resolution, Action) {
    if c.kind is None {
        to_scoped_dname(c, s, 1)
    } else if c.caching {
        asking(s, Stage::ScopedCache, Lookup::ScopedCache)
    } else {
        to_scoped_exact(c, s)
    }
}

/// A query of a network.
pub open spec fn to_scoped(c: QueryContext, s: Resolution) -> (Resolution, Action) {
    let scoped = Resolution { scoped: true, ..s };
    if c.reverse {
        asking(scoped, Stage::ScopedRblProvider, Lookup::RblProvider)
    } else {
        to_scoped_records(c, scoped)
    }
}

/// The network of a query that did not arrive on an ingress.
pub open spec fn to_source(c: QueryContext, s: Resolution) -> (Resolution, Action) {
    if c.has_source {
        asking(s, Stage::SourceScope, Lookup::SourceScope)
    } else {
        to_global(c, s)
    }
}

/// The first lookup.
pub open spec fn to_start(c: QueryContext) -> (Resolution, Action) {
    let s = Resolution {
        stage: Stage::Done,
        scoped: false,
        ingress: false,
        authoritative: false,
        owner: Owner::Unknown,
        cleared: false,
        missed: false,
    };
    if c.on_listener {
        asking(s, Stage::Ingress, Lookup::Ingress)
    } else {
        to_source(c, s)
    }
}

/// Where the query belongs.
pub open spec fn entry_step(c: QueryContext, s: Resolution, found: bool) -> (Resolution, Action) {
    match s.stage {
        Stage::Ingress => asking(
            Resolution { ingress: found, ..s },
            Stage::IngressScope,
            Lookup::IngressScope,
        ),
        Stage::IngressScope => if found {
            to_scoped(c, s)
        } else {
            to_source(c, s)
        },
        Stage::SourceScope => if found {
            to_scoped(c, s)
        } else {
            asking(s, Stage::HasScopes, Lookup::HasScopes)
        },
        Stage::HasScopes => if found && c.overlay_peer {
            ending(s, bare(REFUSED, false, AnswerSource::Refused))
        } else {
            to_global(c, s)
        },
        _ => ending(s, Action::Stuck),
    }
}

/// What a network says.
pub open spec fn scoped_step(c: QueryContext, s: Resolution, found: bool) -> (Resolution, Action) {
    match s.stage {
        Stage::ScopedRblProvider => if found {
            ending(s, bare(NX_DOMAIN, true, AnswerSource::Rbl))
        } else {
            asking(s, Stage::ScopedRblLocal, Lookup::RblLocal)
        },
        Stage::ScopedRblLocal => if found {
            ending(s, bare(NX_DOMAIN, true, AnswerSource::Rbl))
        } else {
            to_scoped_records(c, s)
        },
        Stage::ScopedCache => if found {
            ending(s, full(true, Answers::Scoped, AnswerSource::Cache, Remember::Nothing))
        } else {
            to_scoped_exact(c, s)
        },
        Stage::ScopedExact => if found {
            ending(s, full(true, Answers::Scoped, AnswerSource::Scoped, Remember::Scoped))
        } else if wants_address(c) {
            asking(
                s,
                Stage::ScopedAname,
                Lookup::Scoped(Subject::Qname, Some(RecordKind::ANAME)),
            )
        } else {
            to_scoped_cname(s)
        },
        Stage::ScopedAname => if found {
            asking(s, Stage::ScopedAnameTarget, Lookup::Scoped(Subject::AnameTarget, c.kind))
        } else {
            to_scoped_cname(s)
        },
        Stage::ScopedAnameTarget => if found {
            ending(
                s,
                full(true, Answers::ScopedRenamed, AnswerSource::Scoped, Remember::Nothing),
            )
        } else {
            to_scoped_cname(s)
        },
        Stage::ScopedCname => if found {
            ending(s, full(true, Answers::Plain, AnswerSource::Scoped, Remember::Nothing))
        } else {
            to_scoped_dname(c, s, 1)
        },
        Stage::ScopedDname(i) => if found {
            ending(s, dname_reply(i, AnswerSource::Scoped))
        } else if i < usize::MAX {
            to_scoped_dname(c, s, (i + 1) as usize)
        } else {
            ending(s, Action::Stuck)
        },
        Stage::ScopedPeers => if found {
            asking(s, Stage::ScopedAskPeers, Lookup::AskPeers)
        } else {
            ending(s, bare(NX_DOMAIN, true, AnswerSource::AuthoritativeNxdomain))
        },
        Stage::ScopedAskPeers => if found {
            ending(s, Action::RelayPeers)
        } else {
            ending(s, bare(NX_DOMAIN, true, AnswerSource::AuthoritativeNxdomain))
        },
        Stage::ScopedZone(i, n) => if found {
            ending(s, bare(NX_DOMAIN, true, AnswerSource::AuthoritativeNxdomain))
        } else if i < usize::MAX {
            to_scoped_zone(c, s, (i + 1) as usize, n)
        } else {
            ending(s, Action::Stuck)
        },
        _ => ending(s, Action::Stuck),
    }
}

/// What the server itself holds.
pub open spec fn local_step(c: QueryContext, s: Resolution, found: bool) -> (Resolution, Action) {
    match s.stage {
        Stage::RblProvider => if found {
            ending(s, bare(NX_DOMAIN, false, AnswerSource::Rbl))
        } else {
            asking(s, Stage::RblLocal, Lookup::RblLocal)
        },
        Stage::RblLocal => if found {
            ending(s, bare(NX_DOMAIN, false, AnswerSource::Rbl))
        } else {
            asking(s, Stage::Authoritative, Lookup::Authoritative)
        },
        Stage::Authoritative => to_local(c, Resolution { authoritative: found, ..s }),
        Stage::LocalCache => if found {
            ending(
                s,
                full(s.authoritative, Answers::Plain, AnswerSource::Cache, Remember::Nothing),
            )
        } else {
            to_fallbacks(s)
        },
        Stage::AnameTarget(cname) => if found {
            ending(
                s,
                full(s.authoritative, Answers::Renamed, AnswerSource::Local, Remember::Nothing),
            )
        } else if cname {
            ending(
                s,
                full(s.authoritative, Answers::Cname, AnswerSource::Local, Remember::Nothing),
            )
        } else {
            to_lan(c, Resolution { missed: true, ..s })
        },
        Stage::Dname(i) => if found {
            ending(s, dname_reply(i, AnswerSource::Local))
        } else if i < usize::MAX {
            to_dname(c, s, (i + 1) as usize)
        } else {
            ending(s, Action::Stuck)
        },
        Stage::ManagedZone => if found {
            asking(
                s,
                Stage::ManagedZoneRecords,
                Lookup::Records(Subject::Zone(0), None),
            )
        } else {
            asking(s, Stage::AuthoritativeZone, Lookup::AuthoritativeZone)
        },
        Stage::ManagedZoneRecords => if found {
            ending(s, bare(NX_DOMAIN, true, AnswerSource::AuthoritativeNxdomain))
        } else {
            asking(s, Stage::AuthoritativeZone, Lookup::AuthoritativeZone)
        },
        Stage::AuthoritativeZone => if found {
            ending(s, bare(NX_DOMAIN, true, AnswerSource::AuthoritativeNxdomain))
        } else {
            to_guard(c, s)
        },
        _ => ending(s, Action::Stuck),
    }
}

/// What the network that owns the domain holds.
pub open spec fn lan_step(c: QueryContext, s: Resolution, found: bool) -> (Resolution, Action) {
    match s.stage {
        Stage::LanExact => if found {
            ending(
                s,
                full(true, Answers::Scoped, AnswerSource::ScopeFallback, Remember::Nothing),
            )
        } else {
            asking(s, Stage::LanCname, Lookup::OwnerRecords(RecordKind::CNAME))
        },
        Stage::LanCname => if found {
            ending(
                s,
                full(true, Answers::Plain, AnswerSource::ScopeFallback, Remember::Nothing),
            )
        } else {
            to_lan_peers(s)
        },
        Stage::LanPeers => if found {
            asking(s, Stage::LanAskPeers, Lookup::AskPeers)
        } else {
            ending(s, bare(NX_DOMAIN, true, AnswerSource::AuthoritativeNxdomain))
        },
        Stage::LanAskPeers => if found {
            ending(s, Action::RelayPeers)
        } else {
            ending(s, bare(NX_DOMAIN, true, AnswerSource::AuthoritativeNxdomain))
        },
        _ => ending(s, Action::Stuck),
    }
}

/// What others say, and what blocklists have against the name.
pub open spec fn outward_step(c: QueryContext, s: Resolution, found: bool) -> (Resolution, Action) {
    match s.stage {
        Stage::Allowlisted => if found {
            to_cache(c, s)
        } else {
            asking(s, Stage::RblName, Lookup::RblName)
        },
        Stage::RblName => if found {
            ending(s, bare(NX_DOMAIN, false, AnswerSource::Blocklist))
        } else {
            asking(s, Stage::RblNameProvider, Lookup::RblNameProvider)
        },
        Stage::RblNameProvider => if found {
            ending(s, bare(NX_DOMAIN, false, AnswerSource::Blocklist))
        } else {
            to_cache(c, s)
        },
        Stage::Cache => if found {
            ending(s, full(false, Answers::Plain, AnswerSource::Cache, Remember::Nothing))
        } else {
            asking(s, Stage::NegativeCache, Lookup::NegativeCache)
        },
        Stage::UpstreamA => if found {
            ending(s, full(false, Answers::Synthesized, AnswerSource::Dns64, Remember::Nothing))
        } else {
            after_upstream(c, s)
        },
        Stage::CacheAgain => if found {
            ending(s, full(false, Answers::Plain, AnswerSource::Upstream, Remember::Nothing))
        } else {
            ending(s, Action::RelayUpstream)
        },
        _ => ending(s, Action::Stuck),
    }
}

/// The part of the resolution that a stage belongs to.
#[derive(Debug, Clone, Copy, PartialEq, Eq, Structural)]
pub enum Part {
    Entry,
    Scoped,
    Local,
    Lan,
    Outward,
    /// It waits for another event than "found" or "not found".
    Other,
}

/// The part that a stage whose lookup finds something or nothing belongs to.
pub open spec fn part_of(stage: Stage) -> Part {
    match stage {
        Stage::Ingress
        | Stage::IngressScope
        | Stage::SourceScope
        | Stage::HasScopes => Part::Entry,
        Stage::ScopedRblProvider
        | Stage::ScopedRblLocal
        | Stage::ScopedCache
        | Stage::ScopedExact
        | Stage::ScopedAname
        | Stage::ScopedAnameTarget
        | Stage::ScopedCname
        | Stage::ScopedDname(_)
        | Stage::ScopedPeers
        | Stage::ScopedAskPeers
        | Stage::ScopedZone(_, _) => Part::Scoped,
        Stage::RblProvider
        | Stage::RblLocal
        | Stage::Authoritative
        | Stage::LocalCache
        | Stage::AnameTarget(_)
        | Stage::Dname(_)
        | Stage::ManagedZone
        | Stage::ManagedZoneRecords
        | Stage::AuthoritativeZone => Part::Local,
        Stage::LanExact
        | Stage::LanCname
        | Stage::LanPeers
        | Stage::LanAskPeers => Part::Lan,
        Stage::Allowlisted
        | Stage::RblName
        | Stage::RblNameProvider
        | Stage::Cache
        | Stage::UpstreamA
        | Stage::CacheAgain => Part::Outward,
        _ => Part::Other,
    }
}

/// What comes of a "found" or "not found".
pub open spec fn found_step(c: QueryContext, s: Resolution, found: bool) -> (Resolution, Action) {
    match part_of(s.stage) {
        Part::Entry => entry_step(c, s, found),
        Part::Scoped => scoped_step(c, s, found),
        Part::Local => local_step(c, s, found),
        Part::Lan => lan_step(c, s, found),
        Part::Outward => outward_step(c, s, found),
        Part::Other => ending(s, Action::Stuck),
    }
}

/// What follows an upstream's answer: it is served as the cache would serve it, unless the
/// client wants signatures.
pub open spec fn after_upstream(c: QueryContext, s: Resolution) -> (Resolution, Action) {
    if c.caching && !c.dnssec_ok {
        asking(s, Stage::CacheAgain, Lookup::Cache)
    } else {
        ending(s, Action::RelayUpstream)
    }
}

/// What comes of an event.
pub open spec fn step_of(c: QueryContext, s: Resolution, event: Event) -> (Resolution, Action) {
    match event {
        Event::Found(found) => found_step(c, s, found),
        Event::Owner(owner) => match (s.stage, owner) {
            (Stage::ScopedOwner, Owner::Nobody) => asking(
                Resolution { owner, ..s },
                Stage::ScopedZones,
                Lookup::ScopedZones,
            ),
            (Stage::ScopedOwner, Owner::Own) => asking(
                Resolution { owner, ..s },
                Stage::ScopedPeers,
                Lookup::TldPeers,
            ),
            (Stage::ScopedOwner, Owner::Other) => ending(
                Resolution { owner, ..s },
                bare(NX_DOMAIN, true, AnswerSource::AuthoritativeNxdomain),
            ),
            (Stage::LanOwner, Owner::Nobody) => to_dname(c, Resolution { owner, ..s }, 1),
            (Stage::LanOwner, Owner::Own) => match c.kind {
                Some(kind) => asking(
                    Resolution { owner, ..s },
                    Stage::LanExact,
                    Lookup::OwnerRecords(kind),
                ),
                None => to_lan_peers(Resolution { owner, ..s }),
            },
            _ => ending(s, Action::Stuck),
        },
        Event::Count(n) => match s.stage {
            Stage::ScopedZones => to_scoped_zone(c, s, 0, n),
            _ => ending(s, Action::Stuck),
        },
        Event::Fallbacks { any, aname, cname } => match s.stage {
            Stage::Fallbacks => if any {
                ending(
                    s,
                    full(s.authoritative, Answers::Plain, AnswerSource::Local, Remember::Local),
                )
            } else if wants_address(c) && aname {
                asking(
                    s,
                    Stage::AnameTarget(cname),
                    Lookup::Records(Subject::AnameTarget, c.kind),
                )
            } else if cname {
                ending(
                    s,
                    full(s.authoritative, Answers::Cname, AnswerSource::Local, Remember::Nothing),
                )
            } else {
                to_lan(c, Resolution { missed: true, ..s })
            },
            _ => ending(s, Action::Stuck),
        },
        Event::Negative(negative) => match s.stage {
            Stage::NegativeCache => match negative {
                Some(NegativeKind::NxDomain) => ending(
                    s,
                    bare(NX_DOMAIN, false, AnswerSource::Cache),
                ),
                Some(NegativeKind::NoData) => ending(s, bare(NO_ERROR, false, AnswerSource::Cache)),
                None => to_upstream(s),
            },
            _ => ending(s, Action::Stuck),
        },
        Event::Upstream { answered, lacks_v6 } => match s.stage {
            Stage::Upstream => if !answered {
                ending(s, Action::RelayUpstream)
            } else if c.dns64 && lacks_v6 {
                asking(s, Stage::UpstreamA, Lookup::UpstreamA)
            } else {
                after_upstream(c, s)
            },
            _ => ending(s, Action::Stuck),
        },
    }
}

// ---------------------------------------------------------------------------
// The steps
// ---------------------------------------------------------------------------
fn ask(s: Resolution, stage: Stage, lookup: Lookup) -> (r: (Resolution, Action))
    ensures
        r == asking(s, stage, lookup),
{
    (Resolution { stage, ..s }, Action::Ask(lookup))
}

fn end(s: Resolution, action: Action) -> (r: (Resolution, Action))
    ensures
        r == ending(s, action),
{
    (Resolution { stage: Stage::Done, ..s }, action)
}

fn go_upstream(s: Resolution) -> (r: (Resolution, Action))
    ensures
        r == to_upstream(s),
{
    ask(s, Stage::Upstream, Lookup::Upstream)
}

fn go_cache(c: &QueryContext, s: Resolution) -> (r: (Resolution, Action))
    ensures
        r == to_cache(*c, s),
{
    let cleared = Resolution { cleared: true, ..s };
    if c.caching {
        ask(cleared, Stage::Cache, Lookup::Cache)
    } else {
        go_upstream(cleared)
    }
}

fn go_guard(c: &QueryContext, s: Resolution) -> (r: (Resolution, Action))
    ensures
        r == to_guard(*c, s),
{
    if !c.may_recurse {
        end(s, bare_reply(REFUSED, false, AnswerSource::Upstream))
    } else if c.reverse {
        go_cache(c, s)
    } else {
        ask(s, Stage::Allowlisted, Lookup::Allowlisted)
    }
}

fn go_dname(c: &QueryContext, s: Resolution, i: usize) -> (r: (Resolution, Action))
    ensures
        r == to_dname(*c, s, i),
{
    if i < c.labels {
        ask(s, Stage::Dname(i), Lookup::Records(Subject::Ancestor(i), Some(RecordKind::DNAME)))
    } else {
        ask(s, Stage::ManagedZone, Lookup::ManagedZone)
    }
}

fn go_lan(c: &QueryContext, s: Resolution) -> (r: (Resolution, Action))
    ensures
        r == to_lan(*c, s),
{
    if s.scoped {
        go_dname(c, s, 1)
    } else {
        ask(s, Stage::LanOwner, Lookup::TldOwner)
    }
}

fn go_local(c: &QueryContext, s: Resolution) -> (r: (Resolution, Action))
    ensures
        r == to_local(*c, s),
{
    if c.kind.is_none() {
        go_lan(c, s)
    } else if c.caching {
        ask(s, Stage::LocalCache, Lookup::LocalCache)
    } else {
        ask(s, Stage::Fallbacks, Lookup::Fallbacks)
    }
}

fn go_global(c: &QueryContext, s: Resolution) -> (r: (Resolution, Action))
    ensures
        r == to_global(*c, s),
{
    if !s.scoped && c.reverse {
        ask(s, Stage::RblProvider, Lookup::RblProvider)
    } else {
        ask(s, Stage::Authoritative, Lookup::Authoritative)
    }
}

fn go_scoped_zone(c: &QueryContext, s: Resolution, i: usize, n: usize) -> (r: (Resolution, Action))
    ensures
        r == to_scoped_zone(*c, s, i, n),
{
    if i < n {
        ask(s, Stage::ScopedZone(i, n), Lookup::Scoped(Subject::Zone(i), None))
    } else {
        go_global(c, s)
    }
}

fn go_scoped_dname(c: &QueryContext, s: Resolution, i: usize) -> (r: (Resolution, Action))
    ensures
        r == to_scoped_dname(*c, s, i),
{
    if i < c.labels {
        ask(
            s,
            Stage::ScopedDname(i),
            Lookup::Scoped(Subject::Ancestor(i), Some(RecordKind::DNAME)),
        )
    } else {
        ask(s, Stage::ScopedOwner, Lookup::TldOwner)
    }
}

fn go_scoped_cname(s: Resolution) -> (r: (Resolution, Action))
    ensures
        r == to_scoped_cname(s),
{
    ask(s, Stage::ScopedCname, Lookup::Scoped(Subject::Qname, Some(RecordKind::CNAME)))
}

fn asks_address(c: &QueryContext) -> (r: bool)
    ensures
        r == wants_address(*c),
{
    match c.kind {
        Some(RecordKind::A) | Some(RecordKind::AAAA) => true,
        _ => false,
    }
}

fn go_scoped_exact(c: &QueryContext, s: Resolution) -> (r: (Resolution, Action))
    ensures
        r == to_scoped_exact(*c, s),
{
    ask(s, Stage::ScopedExact, Lookup::Scoped(Subject::Qname, c.kind))
}

fn go_scoped_records(c: &QueryContext, s: Resolution) -> (r: (Resolution, Action))
    ensures
        r == to_scoped_records(*c, s),
{
    if c.kind.is_none() {
        go_scoped_dname(c, s, 1)
    } else if c.caching {
        ask(s, Stage::ScopedCache, Lookup::ScopedCache)
    } else {
        go_scoped_exact(c, s)
    }
}

fn go_scoped(c: &QueryContext, s: Resolution) -> (r: (Resolution, Action))
    ensures
        r == to_scoped(*c, s),
{
    let scoped = Resolution { scoped: true, ..s };
    if c.reverse {
        ask(scoped, Stage::ScopedRblProvider, Lookup::RblProvider)
    } else {
        go_scoped_records(c, scoped)
    }
}

fn go_source(c: &QueryContext, s: Resolution) -> (r: (Resolution, Action))
    ensures
        r == to_source(*c, s),
{
    if c.has_source {
        ask(s, Stage::SourceScope, Lookup::SourceScope)
    } else {
        go_global(c, s)
    }
}

fn go_after_upstream(c: &QueryContext, s: Resolution) -> (r: (Resolution, Action))
    ensures
        r == after_upstream(*c, s),
{
    if c.caching && !c.dnssec_ok {
        ask(s, Stage::CacheAgain, Lookup::Cache)
    } else {
        end(s, Action::RelayUpstream)
    }
}

fn nxdomain(s: Resolution, authoritative: bool, source: AnswerSource) -> (r: (Resolution, Action))
    ensures
        r == ending(s, bare(NX_DOMAIN, authoritative, source)),
{
    end(s, bare_reply(NX_DOMAIN, authoritative, source))
}

fn reply_with(
    s: Resolution,
    authoritative: bool,
    answers: Answers,
    source: AnswerSource,
    remember: Remember,
) -> (r: (Resolution, Action))
    ensures
        r == ending(s, full(authoritative, answers, source, remember)),
{
    end(s, full_reply(authoritative, answers, source, remember))
}

impl Resolution {
    /// What is looked up first.
    pub fn begin(c: &QueryContext) -> (r: (Resolution, Action))
        ensures
            r == to_start(*c),
            on_course(*c, r.0),
    {
        let s = Resolution {
            stage: Stage::Done,
            scoped: false,
            ingress: false,
            authoritative: false,
            owner: Owner::Unknown,
            cleared: false,
            missed: false,
        };
        if c.on_listener {
            ask(s, Stage::Ingress, Lookup::Ingress)
        } else {
            go_source(c, s)
        }
    }

    fn entry(self, c: &QueryContext, found: bool) -> (r: (Resolution, Action))
        requires
            part_of(self.stage) == Part::Entry,
        ensures
            r == entry_step(*c, self, found),
    {
        let s = self;
        if found {
            match s.stage {
                Stage::Ingress => ask(
                    Resolution { ingress: true, ..s },
                    Stage::IngressScope,
                    Lookup::IngressScope,
                ),
                Stage::IngressScope | Stage::SourceScope => go_scoped(c, s),
                Stage::HasScopes => if c.overlay_peer {
                    end(s, bare_reply(REFUSED, false, AnswerSource::Refused))
                } else {
                    go_global(c, s)
                },
                _ => end(s, Action::Stuck),
            }
        } else {
            match s.stage {
                Stage::Ingress => ask(
                    Resolution { ingress: false, ..s },
                    Stage::IngressScope,
                    Lookup::IngressScope,
                ),
                Stage::IngressScope => go_source(c, s),
                Stage::SourceScope => ask(s, Stage::HasScopes, Lookup::HasScopes),
                Stage::HasScopes => go_global(c, s),
                _ => end(s, Action::Stuck),
            }
        }
    }

    fn scoped(self, c: &QueryContext, found: bool) -> (r: (Resolution, Action))
        requires
            part_of(self.stage) == Part::Scoped,
        ensures
            r == scoped_step(*c, self, found),
    {
        let s = self;
        if found {
            match s.stage {
                Stage::ScopedRblProvider | Stage::ScopedRblLocal => nxdomain(
                    s,
                    true,
                    AnswerSource::Rbl,
                ),
                Stage::ScopedCache => reply_with(
                    s,
                    true,
                    Answers::Scoped,
                    AnswerSource::Cache,
                    Remember::Nothing,
                ),
                Stage::ScopedExact => reply_with(
                    s,
                    true,
                    Answers::Scoped,
                    AnswerSource::Scoped,
                    Remember::Scoped,
                ),
                Stage::ScopedAname => ask(
                    s,
                    Stage::ScopedAnameTarget,
                    Lookup::Scoped(Subject::AnameTarget, c.kind),
                ),
                Stage::ScopedAnameTarget => reply_with(
                    s,
                    true,
                    Answers::ScopedRenamed,
                    AnswerSource::Scoped,
                    Remember::Nothing,
                ),
                Stage::ScopedCname => reply_with(
                    s,
                    true,
                    Answers::Plain,
                    AnswerSource::Scoped,
                    Remember::Nothing,
                ),
                Stage::ScopedDname(i) => end(s, dname_response(i, AnswerSource::Scoped)),
                Stage::ScopedPeers => ask(s, Stage::ScopedAskPeers, Lookup::AskPeers),
                Stage::ScopedAskPeers => end(s, Action::RelayPeers),
                Stage::ScopedZone(_, _) => nxdomain(
                    s,
                    true,
                    AnswerSource::AuthoritativeNxdomain,
                ),
                _ => end(s, Action::Stuck),
            }
        } else {
            match s.stage {
                Stage::ScopedRblProvider => ask(s, Stage::ScopedRblLocal, Lookup::RblLocal),
                Stage::ScopedRblLocal => go_scoped_records(c, s),
                Stage::ScopedCache => go_scoped_exact(c, s),
                Stage::ScopedExact => if asks_address(c) {
                    ask(
                        s,
                        Stage::ScopedAname,
                        Lookup::Scoped(Subject::Qname, Some(RecordKind::ANAME)),
                    )
                } else {
                    go_scoped_cname(s)
                },
                Stage::ScopedAname | Stage::ScopedAnameTarget => go_scoped_cname(s),
                Stage::ScopedCname => go_scoped_dname(c, s, 1),
                Stage::ScopedDname(i) => if i < usize::MAX {
                    go_scoped_dname(c, s, i + 1)
                } else {
                    end(s, Action::Stuck)
                },
                Stage::ScopedPeers | Stage::ScopedAskPeers => nxdomain(s, true, AnswerSource::AuthoritativeNxdomain),
                Stage::ScopedZone(i, n) => if i < usize::MAX {
                    go_scoped_zone(c, s, i + 1, n)
                } else {
                    end(s, Action::Stuck)
                },
                _ => end(s, Action::Stuck),
            }
        }
    }

    fn local(self, c: &QueryContext, found: bool) -> (r: (Resolution, Action))
        requires
            part_of(self.stage) == Part::Local,
        ensures
            r == local_step(*c, self, found),
    {
        let s = self;
        if found {
            match s.stage {
                Stage::RblProvider | Stage::RblLocal => nxdomain(s, false, AnswerSource::Rbl),
                Stage::Authoritative => go_local(c, Resolution { authoritative: true, ..s }),
                Stage::LocalCache => reply_with(
                    s,
                    s.authoritative,
                    Answers::Plain,
                    AnswerSource::Cache,
                    Remember::Nothing,
                ),
                Stage::AnameTarget(_) => reply_with(
                    s,
                    s.authoritative,
                    Answers::Renamed,
                    AnswerSource::Local,
                    Remember::Nothing,
                ),
                Stage::Dname(i) => end(s, dname_response(i, AnswerSource::Local)),
                Stage::ManagedZone => ask(
                    s,
                    Stage::ManagedZoneRecords,
                    Lookup::Records(Subject::Zone(0), None),
                ),
                Stage::ManagedZoneRecords | Stage::AuthoritativeZone => nxdomain(
                    s,
                    true,
                    AnswerSource::AuthoritativeNxdomain,
                ),
                _ => end(s, Action::Stuck),
            }
        } else {
            match s.stage {
                Stage::RblProvider => ask(s, Stage::RblLocal, Lookup::RblLocal),
                Stage::RblLocal => ask(s, Stage::Authoritative, Lookup::Authoritative),
                Stage::Authoritative => go_local(c, Resolution { authoritative: false, ..s }),
                Stage::LocalCache => ask(s, Stage::Fallbacks, Lookup::Fallbacks),
                Stage::AnameTarget(cname) => if cname {
                    reply_with(
                        s,
                        s.authoritative,
                        Answers::Cname,
                        AnswerSource::Local,
                        Remember::Nothing,
                    )
                } else {
                    go_lan(c, Resolution { missed: true, ..s })
                },
                Stage::Dname(i) => if i < usize::MAX {
                    go_dname(c, s, i + 1)
                } else {
                    end(s, Action::Stuck)
                },
                Stage::ManagedZone | Stage::ManagedZoneRecords => ask(
                    s,
                    Stage::AuthoritativeZone,
                    Lookup::AuthoritativeZone,
                ),
                Stage::AuthoritativeZone => go_guard(c, s),
                _ => end(s, Action::Stuck),
            }
        }
    }

    fn lan(self, c: &QueryContext, found: bool) -> (r: (Resolution, Action))
        requires
            part_of(self.stage) == Part::Lan,
        ensures
            r == lan_step(*c, self, found),
    {
        let s = self;
        if found {
            match s.stage {
                Stage::LanExact => reply_with(
                    s,
                    true,
                    Answers::Scoped,
                    AnswerSource::ScopeFallback,
                    Remember::Nothing,
                ),
                Stage::LanCname => reply_with(
                    s,
                    true,
                    Answers::Plain,
                    AnswerSource::ScopeFallback,
                    Remember::Nothing,
                ),
                Stage::LanPeers => ask(s, Stage::LanAskPeers, Lookup::AskPeers),
                Stage::LanAskPeers => end(s, Action::RelayPeers),
                _ => end(s, Action::Stuck),
            }
        } else {
            match s.stage {
                Stage::LanExact => ask(
                    s,
                    Stage::LanCname,
                    Lookup::OwnerRecords(RecordKind::CNAME),
                ),
                Stage::LanCname => ask(s, Stage::LanPeers, Lookup::TldPeers),
                Stage::LanPeers | Stage::LanAskPeers => nxdomain(s, true, AnswerSource::AuthoritativeNxdomain),
                _ => end(s, Action::Stuck),
            }
        }
    }

    fn outward(self, c: &QueryContext, found: bool) -> (r: (Resolution, Action))
        requires
            part_of(self.stage) == Part::Outward,
        ensures
            r == outward_step(*c, self, found),
    {
        let s = self;
        if found {
            match s.stage {
                Stage::Allowlisted => go_cache(c, s),
                Stage::RblName | Stage::RblNameProvider => nxdomain(
                    s,
                    false,
                    AnswerSource::Blocklist,
                ),
                Stage::Cache => reply_with(
                    s,
                    false,
                    Answers::Plain,
                    AnswerSource::Cache,
                    Remember::Nothing,
                ),
                Stage::UpstreamA => reply_with(
                    s,
                    false,
                    Answers::Synthesized,
                    AnswerSource::Dns64,
                    Remember::Nothing,
                ),
                Stage::CacheAgain => reply_with(
                    s,
                    false,
                    Answers::Plain,
                    AnswerSource::Upstream,
                    Remember::Nothing,
                ),
                _ => end(s, Action::Stuck),
            }
        } else {
            match s.stage {
                Stage::Allowlisted => ask(s, Stage::RblName, Lookup::RblName),
                Stage::RblName => ask(s, Stage::RblNameProvider, Lookup::RblNameProvider),
                Stage::RblNameProvider => go_cache(c, s),
                Stage::Cache => ask(s, Stage::NegativeCache, Lookup::NegativeCache),
                Stage::UpstreamA => go_after_upstream(c, s),
                Stage::CacheAgain => end(s, Action::RelayUpstream),
                _ => end(s, Action::Stuck),
            }
        }
    }

    fn part(&self) -> (r: Part)
        ensures
            r == part_of(self.stage),
    {
        match self.stage {
            Stage::Ingress
            | Stage::IngressScope
            | Stage::SourceScope
            | Stage::HasScopes => Part::Entry,
            Stage::ScopedRblProvider
            | Stage::ScopedRblLocal
            | Stage::ScopedCache
            | Stage::ScopedExact
            | Stage::ScopedAname
            | Stage::ScopedAnameTarget
            | Stage::ScopedCname
            | Stage::ScopedDname(_)
            | Stage::ScopedPeers
            | Stage::ScopedAskPeers
            | Stage::ScopedZone(_, _) => Part::Scoped,
            Stage::RblProvider
            | Stage::RblLocal
            | Stage::Authoritative
            | Stage::LocalCache
            | Stage::AnameTarget(_)
            | Stage::Dname(_)
            | Stage::ManagedZone
            | Stage::ManagedZoneRecords
            | Stage::AuthoritativeZone => Part::Local,
            Stage::LanExact
            | Stage::LanCname
            | Stage::LanPeers
            | Stage::LanAskPeers => Part::Lan,
            Stage::Allowlisted
            | Stage::RblName
            | Stage::RblNameProvider
            | Stage::Cache
            | Stage::UpstreamA
            | Stage::CacheAgain => Part::Outward,
            _ => Part::Other,
        }
    }

    fn found(self, c: &QueryContext, found: bool) -> (r: (Resolution, Action))
        ensures
            r == found_step(*c, self, found),
    {
        match self.part() {
            Part::Entry => self.entry(c, found),
            Part::Scoped => self.scoped(c, found),
            Part::Local => self.local(c, found),
            Part::Lan => self.lan(c, found),
            Part::Outward => self.outward(c, found),
            Part::Other => end(self, Action::Stuck),
        }
    }

    fn owned(self, c: &QueryContext, owner: Owner) -> (r: (Resolution, Action))
        ensures
            r == step_of(*c, self, Event::Owner(owner)),
    {
        let s = Resolution { owner, ..self };
        match (self.stage, owner) {
            (Stage::ScopedOwner, Owner::Nobody) => ask(
                s,
                Stage::ScopedZones,
                Lookup::ScopedZones,
            ),
            (Stage::ScopedOwner, Owner::Own) => ask(s, Stage::ScopedPeers, Lookup::TldPeers),
            (Stage::ScopedOwner, Owner::Other) => nxdomain(
                s,
                true,
                AnswerSource::AuthoritativeNxdomain,
            ),
            (Stage::LanOwner, Owner::Nobody) => go_dname(c, s, 1),
            (Stage::LanOwner, Owner::Own) => match c.kind {
                Some(kind) => ask(s, Stage::LanExact, Lookup::OwnerRecords(kind)),
                None => ask(s, Stage::LanPeers, Lookup::TldPeers),
            },
            _ => end(self, Action::Stuck),
        }
    }

    /// Takes what the last lookup found, and says what to do next.
    pub fn step(self, c: &QueryContext, event: Event) -> (r: (Resolution, Action))
        requires
            on_course(*c, self),
        ensures
            r == step_of(*c, self, event),
            on_course(*c, r.0),
    {
        let s = self;
        proof {
            lemma_sound(*c, s, event);
        }
        match event {
            Event::Found(found) => s.found(c, found),
            Event::Owner(owner) => s.owned(c, owner),
            Event::Count(n) => match s.stage {
                Stage::ScopedZones => go_scoped_zone(c, s, 0, n),
                _ => end(s, Action::Stuck),
            },
            Event::Fallbacks { any, aname, cname } => match s.stage {
                Stage::Fallbacks => if any {
                    reply_with(
                        s,
                        s.authoritative,
                        Answers::Plain,
                        AnswerSource::Local,
                        Remember::Local,
                    )
                } else if asks_address(c) && aname {
                    ask(
                        s,
                        Stage::AnameTarget(cname),
                        Lookup::Records(Subject::AnameTarget, c.kind),
                    )
                } else if cname {
                    reply_with(
                        s,
                        s.authoritative,
                        Answers::Cname,
                        AnswerSource::Local,
                        Remember::Nothing,
                    )
                } else {
                    go_lan(c, Resolution { missed: true, ..s })
                },
                _ => end(s, Action::Stuck),
            },
            Event::Negative(negative) => match s.stage {
                Stage::NegativeCache => match negative {
                    Some(NegativeKind::NxDomain) => nxdomain(s, false, AnswerSource::Cache),
                    Some(NegativeKind::NoData) => end(
                        s,
                        bare_reply(NO_ERROR, false, AnswerSource::Cache),
                    ),
                    None => go_upstream(s),
                },
                _ => end(s, Action::Stuck),
            },
            Event::Upstream { answered, lacks_v6 } => match s.stage {
                Stage::Upstream => if !answered {
                    end(s, Action::RelayUpstream)
                } else if c.dns64 && lacks_v6 {
                    ask(s, Stage::UpstreamA, Lookup::UpstreamA)
                } else {
                    go_after_upstream(c, s)
                },
                _ => end(s, Action::Stuck),
            },
        }
    }
}

// ---------------------------------------------------------------------------
// Laws
// ---------------------------------------------------------------------------
/// Whether a stage lies behind the guard: it asks others, or what others said before.
pub open spec fn behind_guard(stage: Stage) -> bool {
    match stage {
        Stage::Allowlisted
        | Stage::RblName
        | Stage::RblNameProvider
        | Stage::Cache
        | Stage::NegativeCache
        | Stage::Upstream
        | Stage::UpstreamA
        | Stage::CacheAgain => true,
        _ => false,
    }
}

/// Whether a stage lies behind the blocklists.
pub open spec fn behind_blocklists(stage: Stage) -> bool {
    match stage {
        Stage::Cache
        | Stage::NegativeCache
        | Stage::Upstream
        | Stage::UpstreamA
        | Stage::CacheAgain => true,
        _ => false,
    }
}

/// Whether a stage lies behind the question who owns the domain.
pub open spec fn behind_owner(s: Resolution) -> bool {
    match s.stage {
        Stage::ScopedZones
        | Stage::ScopedZone(_, _)
        | Stage::Dname(_)
        | Stage::ManagedZone
        | Stage::ManagedZoneRecords
        | Stage::AuthoritativeZone => true,
        Stage::Authoritative
        | Stage::LocalCache
        | Stage::Fallbacks
        | Stage::AnameTarget(_) => s.scoped,
        stage => behind_guard(stage),
    }
}

/// Whether a stage lies behind the local records.
pub open spec fn behind_local(stage: Stage) -> bool {
    match stage {
        Stage::LanOwner
        | Stage::LanExact
        | Stage::LanCname
        | Stage::LanPeers
        | Stage::LanAskPeers
        | Stage::Dname(_)
        | Stage::ManagedZone
        | Stage::ManagedZoneRecords
        | Stage::AuthoritativeZone => true,
        _ => behind_guard(stage),
    }
}

/// What holds of every resolution under way.
pub open spec fn on_course(c: QueryContext, s: Resolution) -> bool {
    &&& behind_guard(s.stage) ==> c.may_recurse
    &&& behind_blocklists(s.stage) ==> s.cleared
    &&& behind_local(s.stage) && c.kind is Some ==> s.missed
    &&& behind_owner(s) ==> s.owner == Owner::Nobody
    &&& (s.stage == Stage::RblProvider || s.stage == Stage::RblLocal || s.stage == Stage::LanOwner)
        ==> !s.scoped
    &&& (match s.stage {
        Stage::Ingress | Stage::IngressScope | Stage::SourceScope | Stage::HasScopes => !s.scoped,
        _ => true,
    })
}

/// Whether a lookup goes out to others, or reads what others said.
pub open spec fn leaves_the_house(lookup: Lookup) -> bool {
    lookup == Lookup::Upstream || lookup == Lookup::UpstreamA || lookup == Lookup::Cache || lookup
        == Lookup::NegativeCache || lookup == Lookup::RblNameProvider
}

/// The position of a stage in the order of stages.
pub open spec fn stage_order(stage: Stage) -> int {
    match stage {
        Stage::Ingress => 0,
        Stage::IngressScope => 1,
        Stage::SourceScope => 2,
        Stage::HasScopes => 3,
        Stage::ScopedRblProvider => 4,
        Stage::ScopedRblLocal => 5,
        Stage::ScopedCache => 6,
        Stage::ScopedExact => 7,
        Stage::ScopedAname => 8,
        Stage::ScopedAnameTarget => 9,
        Stage::ScopedCname => 10,
        Stage::ScopedDname(_) => 11,
        Stage::ScopedOwner => 12,
        Stage::ScopedPeers => 13,
        Stage::ScopedAskPeers => 14,
        Stage::ScopedZones => 15,
        Stage::ScopedZone(_, _) => 16,
        Stage::RblProvider => 17,
        Stage::RblLocal => 18,
        Stage::Authoritative => 19,
        Stage::LocalCache => 20,
        Stage::Fallbacks => 21,
        Stage::AnameTarget(_) => 22,
        Stage::LanOwner => 23,
        Stage::LanExact => 24,
        Stage::LanCname => 25,
        Stage::LanPeers => 26,
        Stage::LanAskPeers => 27,
        Stage::Dname(_) => 28,
        Stage::ManagedZone => 29,
        Stage::ManagedZoneRecords => 30,
        Stage::AuthoritativeZone => 31,
        Stage::Allowlisted => 32,
        Stage::RblName => 33,
        Stage::RblNameProvider => 34,
        Stage::Cache => 35,
        Stage::NegativeCache => 36,
        Stage::Upstream => 37,
        Stage::UpstreamA => 38,
        Stage::CacheAgain => 39,
        Stage::Done => 40,
    }
}

/// How many more ancestors or zones a stage can go through.
pub open spec fn rounds_left(c: QueryContext, stage: Stage) -> int {
    match stage {
        Stage::ScopedDname(i) | Stage::Dname(i) => c.labels - i,
        Stage::ScopedZone(i, n) => n - i,
        _ => 0,
    }
}

/// Whether a lookup is for what upstreams say or said.
pub open spec fn is_upstream(lookup: Lookup) -> bool {
    lookup == Lookup::Upstream || lookup == Lookup::UpstreamA || lookup == Lookup::Cache || lookup
        == Lookup::NegativeCache
}

/// Whether a stage is later than another, or the same with fewer rounds left.
pub open spec fn later(c: QueryContext, next: Stage, stage: Stage) -> bool {
    stage_order(next) > stage_order(stage) || (stage_order(next) == stage_order(stage) && 0
        < rounds_left(c, next) < rounds_left(c, stage))
}

/// Whether a step may clear a name of the blocklists.
pub open spec fn clears(c: QueryContext, s: Resolution, event: Event) -> bool {
    ||| c.reverse
    ||| s.stage == Stage::Allowlisted && event == Event::Found(true)
    ||| s.stage == Stage::RblNameProvider && event == Event::Found(false)
}

/// Whether a step may find that no local record answers: there is neither a record of the
/// type nor, in its place, an alias that leads anywhere.
pub open spec fn misses(s: Resolution, event: Event) -> bool {
    ||| s.stage == Stage::AnameTarget(false) && event == Event::Found(false)
    ||| s.stage == Stage::Fallbacks && (event matches Event::Fallbacks { any, aname: _, cname }
        && !any && !cname)
}

/// What holds of every step.
spec fn sound(c: QueryContext, s: Resolution, event: Event, r: (Resolution, Action)) -> bool {
    &&& on_course(c, r.0)
    &&& r.1 matches Action::Ask(lookup) ==> leaves_the_house(lookup) ==> behind_guard(r.0.stage)
    &&& r.1 matches Action::Ask(lookup) ==> is_upstream(lookup) ==> behind_blocklists(r.0.stage)
    &&& r.0.cleared && !s.cleared ==> clears(c, s, event)
    &&& r.0.missed && !s.missed ==> misses(s, event)
    &&& r.0.ingress && !s.ingress ==> s.stage == Stage::Ingress && event == Event::Found(true)
    &&& behind_guard(r.0.stage) && !behind_guard(s.stage) ==> s.stage == Stage::AuthoritativeZone
        && event == Event::Found(false)
    &&& s.stage != Stage::Done ==> later(c, r.0.stage, s.stage)
    &&& r.0.stage == Stage::Done <==> !(r.1 is Ask)
}

proof fn lemma_entry(c: QueryContext, s: Resolution, found: bool)
    requires
        on_course(c, s),
        part_of(s.stage) == Part::Entry,
    ensures
        sound(c, s, Event::Found(found), entry_step(c, s, found)),
{
}

proof fn lemma_scoped(c: QueryContext, s: Resolution, found: bool)
    requires
        on_course(c, s),
        part_of(s.stage) == Part::Scoped,
    ensures
        sound(c, s, Event::Found(found), scoped_step(c, s, found)),
{
}

proof fn lemma_local(c: QueryContext, s: Resolution, found: bool)
    requires
        on_course(c, s),
        part_of(s.stage) == Part::Local,
    ensures
        sound(c, s, Event::Found(found), local_step(c, s, found)),
{
}

proof fn lemma_lan(c: QueryContext, s: Resolution, found: bool)
    requires
        on_course(c, s),
        part_of(s.stage) == Part::Lan,
    ensures
        sound(c, s, Event::Found(found), lan_step(c, s, found)),
{
}

proof fn lemma_outward(c: QueryContext, s: Resolution, found: bool)
    requires
        on_course(c, s),
        part_of(s.stage) == Part::Outward,
    ensures
        sound(c, s, Event::Found(found), outward_step(c, s, found)),
{
}

proof fn lemma_sound(c: QueryContext, s: Resolution, event: Event)
    requires
        on_course(c, s),
    ensures
        sound(c, s, event, step_of(c, s, event)),
{
    match event {
        Event::Found(found) => match part_of(s.stage) {
            Part::Entry => lemma_entry(c, s, found),
            Part::Scoped => lemma_scoped(c, s, found),
            Part::Local => lemma_local(c, s, found),
            Part::Lan => lemma_lan(c, s, found),
            Part::Outward => lemma_outward(c, s, found),
            Part::Other => {},
        },
        _ => {},
    }
}

/// A sender that may not make the server ask others never does: nothing it sends leads to
/// an upstream, to a blocklist provider by name, or to what upstreams answered before.
pub proof fn law_strangers_never_recurse(c: QueryContext, s: Resolution, event: Event)
    requires
        on_course(c, s),
        !c.may_recurse,
    ensures
        step_of(c, s, event).1 matches Action::Ask(lookup) ==> !leaves_the_house(lookup),
        to_start(c).1 matches Action::Ask(lookup) ==> !leaves_the_house(lookup),
{
    lemma_sound(c, s, event);
}

/// A name under a domain that a network owns is never asked for upstream: where the owner
/// is known to be somebody, no step leads out.
pub proof fn law_owned_names_stay_in_the_house(c: QueryContext, s: Resolution, event: Event)
    requires
        on_course(c, s),
    ensures
        step_of(c, s, event).1 matches Action::Ask(lookup) ==> leaves_the_house(lookup)
            ==> step_of(c, s, event).0.owner == Owner::Nobody,
{
    lemma_sound(c, s, event);
}

/// An answer from upstream, fresh or cached, is only looked for once the blocklists have
/// nothing against the name: it is exempt, or neither list holds it, or it was checked by
/// its address.
pub proof fn law_blocklists_come_before_upstream(c: QueryContext, s: Resolution, event: Event)
    requires
        on_course(c, s),
    ensures
        step_of(c, s, event).1 matches Action::Ask(lookup) ==> is_upstream(lookup)
            ==> step_of(c, s, event).0.cleared,
        step_of(c, s, event).0.cleared && !s.cleared ==> clears(c, s, event),
{
    lemma_sound(c, s, event);
}

/// Local records come first: where a stored type is asked for, an answer from upstream is
/// only looked for once it is known that no local record answers.
pub proof fn law_local_records_come_first(c: QueryContext, s: Resolution, event: Event)
    requires
        on_course(c, s),
        c.kind is Some,
    ensures
        step_of(c, s, event).1 matches Action::Ask(lookup) ==> leaves_the_house(lookup)
            ==> step_of(c, s, event).0.missed,
        step_of(c, s, event).0.missed && !s.missed ==> misses(s, event),
{
    lemma_sound(c, s, event);
}

/// A name in a zone that the server holds is never asked for upstream: the way there leads
/// through the question whether there is such a zone, answered with no.
pub proof fn law_held_zones_stay_in_the_house(c: QueryContext, s: Resolution, event: Event)
    requires
        on_course(c, s),
        !behind_guard(s.stage),
    ensures
        step_of(c, s, event).1 matches Action::Ask(lookup) ==> leaves_the_house(lookup)
            ==> s.stage == Stage::AuthoritativeZone && event == Event::Found(false),
{
    lemma_sound(c, s, event);
}

/// Answers are rewritten to the listener's address only where it is the ingress of the
/// domain that the name is under.
pub proof fn law_rewriting_is_confined(c: QueryContext, s: Resolution, event: Event)
    requires
        on_course(c, s),
    ensures
        step_of(c, s, event).0.ingress && !s.ingress ==> s.stage == Stage::Ingress && event
            == Event::Found(true),
        !to_start(c).0.ingress,
{
    lemma_sound(c, s, event);
}

/// An exempt name is not even asked for at a provider.
pub proof fn law_exempt_names_are_not_asked_for(c: QueryContext, s: Resolution)
    requires
        s.stage == Stage::Allowlisted,
    ensures
        step_of(c, s, Event::Found(true)).1 != Action::Ask(Lookup::RblNameProvider),
        step_of(c, s, Event::Found(true)).1 != Action::Ask(Lookup::RblName),
        step_of(c, s, Event::Found(true)).0.cleared,
{
}

/// Every step goes forward: to a later stage, or to the next ancestor or zone of the same
/// stage, of which there are only so many. So every resolution comes to an end.
pub proof fn law_every_resolution_ends(c: QueryContext, s: Resolution, event: Event)
    requires
        on_course(c, s),
        s.stage != Stage::Done,
    ensures
        later(c, step_of(c, s, event).0.stage, s.stage),
        step_of(c, s, event).0.stage == Stage::Done <==> !(step_of(c, s, event).1 is Ask),
{
    lemma_sound(c, s, event);
}

} // verus!
