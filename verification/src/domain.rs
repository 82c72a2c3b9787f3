//! The observation model: entities, sockets, flows, HTTP observations and
//! aggregated edges, together with the small enumerations the supervisor
//! shares across modules.

use vstd::prelude::*;

verus! {

/// An IP address held as plain machine words so that contracts can speak of
/// it; the four octets of a v4 address pack big-endian into the `u32`, the
/// eight groups of a v6 address big-endian into the `u128`.
#[derive(Clone, Copy, Debug, PartialEq, Eq, Structural)]
pub enum IpAddress {
    V4(u32),
    V6(u128),
}

#[derive(Clone, Copy, Debug, PartialEq, Eq, Structural)]
pub enum Transport {
    Tcp,
    Udp,
    Other { code: u8 },
}

#[derive(Clone, Copy, Debug, PartialEq, Eq, Structural)]
pub struct Socket {
    pub ip: IpAddress,
    pub port: u16,
}

/// The resolved identity of a participant in an observation.
#[derive(Clone, Debug)]
pub enum EntityId {
    Workload { name: String, instance: Option<String> },
    External { ip: IpAddress, dns_name: Option<String> },
    Host { name: String },
    Unknown,
}

pub open spec fn opt_str_eq(a: Option<String>, b: Option<String>) -> bool {
    match (a, b) {
        (Some(x), Some(y)) => x@ == y@,
        (None, None) => true,
        _ => false,
    }
}

/// Equality of entities up to string contents.
pub open spec fn entity_eq(a: EntityId, b: EntityId) -> bool {
    match (a, b) {
        (
            EntityId::Workload { name: an, instance: ai },
            EntityId::Workload { name: bn, instance: bi },
        ) => an@ == bn@ && opt_str_eq(ai, bi),
        (
            EntityId::External { ip: aip, dns_name: ad },
            EntityId::External { ip: bip, dns_name: bd },
        ) => aip == bip && opt_str_eq(ad, bd),
        (EntityId::Host { name: an }, EntityId::Host { name: bn }) => an@ == bn@,
        (EntityId::Unknown, EntityId::Unknown) => true,
        _ => false,
    }
}

pub fn opt_string_eq(a: &Option<String>, b: &Option<String>) -> (r: bool)
    ensures
        r == opt_str_eq(*a, *b),
{
    match (a, b) {
        (Some(x), Some(y)) => crate::strings::str_eq(x.as_str(), y.as_str()),
        (None, None) => true,
        _ => false,
    }
}

impl EntityId {
    /// Equality up to string contents, usable from executable code.
    pub fn same_as(&self, other: &EntityId) -> (r: bool)
        ensures
            r == entity_eq(*self, *other),
    {
        match (self, other) {
            (
                EntityId::Workload { name: an, instance: ai },
                EntityId::Workload { name: bn, instance: bi },
            ) => crate::strings::str_eq(an.as_str(), bn.as_str()) && opt_string_eq(ai, bi),
            (
                EntityId::External { ip: aip, dns_name: ad },
                EntityId::External { ip: bip, dns_name: bd },
            ) => aip == bip && opt_string_eq(ad, bd),
            (EntityId::Host { name: an }, EntityId::Host { name: bn }) => crate::strings::str_eq(
                an.as_str(),
                bn.as_str(),
            ),
            (EntityId::Unknown, EntityId::Unknown) => true,
            _ => false,
        }
    }
}

#[derive(Clone, Copy, Debug, PartialEq, Eq, Structural)]
pub struct FlowKey {
    pub src: Socket,
    pub dst: Socket,
    pub transport: Transport,
}

#[derive(Clone, Copy, Debug)]
pub struct FlowMetrics {
    pub bytes_in: Option<u64>,
    pub bytes_out: Option<u64>,
    pub packets: Option<u64>,
    pub duration_ms: Option<u64>,
}

#[derive(Clone, Debug)]
pub struct Peer {
    pub src: Option<EntityId>,
    pub dst: Option<EntityId>,
    pub raw: Option<FlowKey>,
}

/// How much of a call the pipeline could see. The order is meaningful:
/// semantics above envelope above bare flow.
#[derive(Clone, Copy, Debug, PartialEq, Eq, Structural)]
pub enum Visibility {
    L4Flow,
    L7Envelope,
    L7Semantics,
}

pub open spec fn visibility_rank(v: Visibility) -> int {
    match v {
        Visibility::L4Flow => 0,
        Visibility::L7Envelope => 1,
        Visibility::L7Semantics => 2,
    }
}

/// The monotone merge of two visibilities: whichever sees more.
pub open spec fn spec_merge_visibility(a: Visibility, b: Visibility) -> Visibility {
    if visibility_rank(a) >= visibility_rank(b) {
        a
    } else {
        b
    }
}

impl Visibility {
    /// Merging keeps the higher level: the merge is monotone in both
    /// arguments and never loses visibility already gained.
    pub fn merge(current: &Visibility, next: &Visibility) -> (r: Visibility)
        ensures
            r == spec_merge_visibility(*current, *next),
            visibility_rank(r) == if visibility_rank(*current) >= visibility_rank(*next) {
                visibility_rank(*current)
            } else {
                visibility_rank(*next)
            },
            visibility_rank(r) >= visibility_rank(*current),
            visibility_rank(r) >= visibility_rank(*next),
    {
        match (current, next) {
            (Visibility::L7Semantics, _) | (_, Visibility::L7Semantics) => Visibility::L7Semantics,
            (Visibility::L7Envelope, _) | (_, Visibility::L7Envelope) => Visibility::L7Envelope,
            _ => Visibility::L4Flow,
        }
    }
}

#[derive(Clone, Copy, Debug, PartialEq, Eq, Structural)]
pub enum Confidence {
    Exact,
    Likely,
    Uncertain,
}

#[derive(Clone, Debug)]
pub struct ObservationAttrs {
    pub visibility: Visibility,
    pub confidence: Confidence,
    pub tags: Vec<(String, String)>,
}

#[derive(Clone, Debug)]
pub struct Correlation {
    pub request_id: Option<String>,
    pub trace_id: Option<String>,
    pub span_id: Option<String>,
}

impl Correlation {
    pub fn empty() -> (r: Correlation)
        ensures
            r.request_id is None,
            r.trace_id is None,
            r.span_id is None,
    {
        Correlation { request_id: None, trace_id: None, span_id: None }
    }
}

/// Header maps are association lists with pairwise distinct keys.
pub type Headers = Vec<(String, String)>;

#[derive(Clone, Debug)]
pub struct HttpObservation {
    pub at_ms: u64,
    pub peer: Peer,
    pub method: Option<String>,
    pub path: Option<String>,
    pub status: Option<u16>,
    pub duration_ms: Option<u64>,
    pub bytes_in: Option<u64>,
    pub bytes_out: Option<u64>,
    pub request_headers: Headers,
    pub response_headers: Headers,
    pub request_body: Option<String>,
    pub response_body: Option<String>,
    pub correlation: Correlation,
    pub attrs: ObservationAttrs,
}

#[derive(Clone, Debug)]
pub struct FlowObservation {
    pub at_ms: u64,
    pub flow: FlowKey,
    pub metrics: FlowMetrics,
    pub peer: Peer,
    pub attrs: ObservationAttrs,
}

#[derive(Clone, Debug)]
pub enum Observation {
    Flow(FlowObservation),
    Http(HttpObservation),
}

#[derive(Clone, Debug)]
pub struct TrafficCall {
    pub seq: u64,
    pub at_ms: u64,
    pub peer: Peer,
    pub method: Option<String>,
    pub path: Option<String>,
    pub status: Option<u16>,
    pub duration_ms: Option<u64>,
    pub bytes_in: Option<u64>,
    pub bytes_out: Option<u64>,
    pub request_headers: Headers,
    pub response_headers: Headers,
    pub request_body: Option<String>,
    pub response_body: Option<String>,
    pub correlation: Correlation,
    pub attrs: ObservationAttrs,
}

#[derive(Clone, Copy, Debug, Default)]
pub struct Capabilities {
    pub l4_flows: bool,
    pub http: bool,
    pub grpc: bool,
    pub can_see_bodies: bool,
    pub can_correlate: bool,
}

/// Aggregation key for an edge between two entities.
#[derive(Clone, Debug)]
pub enum EdgeKey {
    Flow { from: EntityId, to: EntityId, transport: Transport, port: u16 },
    Http { from: EntityId, to: EntityId, method: String, route: String },
    Grpc { from: EntityId, to: EntityId, service: String, method: String },
}

/// Equality of edge keys up to string contents.
pub open spec fn edge_key_eq(a: EdgeKey, b: EdgeKey) -> bool {
    match (a, b) {
        (
            EdgeKey::Flow { from: af, to: at, transport: atr, port: ap },
            EdgeKey::Flow { from: bf, to: bt, transport: btr, port: bp },
        ) => entity_eq(af, bf) && entity_eq(at, bt) && atr == btr && ap == bp,
        (
            EdgeKey::Http { from: af, to: at, method: am, route: ar },
            EdgeKey::Http { from: bf, to: bt, method: bm, route: br },
        ) => entity_eq(af, bf) && entity_eq(at, bt) && am@ == bm@ && ar@ == br@,
        (
            EdgeKey::Grpc { from: af, to: at, service: asv, method: am },
            EdgeKey::Grpc { from: bf, to: bt, service: bsv, method: bm },
        ) => entity_eq(af, bf) && entity_eq(at, bt) && asv@ == bsv@ && am@ == bm@,
        _ => false,
    }
}

impl EdgeKey {
    pub fn same_as(&self, other: &EdgeKey) -> (r: bool)
        ensures
            r == edge_key_eq(*self, *other),
    {
        match (self, other) {
            (
                EdgeKey::Flow { from: af, to: at, transport: atr, port: ap },
                EdgeKey::Flow { from: bf, to: bt, transport: btr, port: bp },
            ) => af.same_as(bf) && at.same_as(bt) && atr == btr && ap == bp,
            (
                EdgeKey::Http { from: af, to: at, method: am, route: ar },
                EdgeKey::Http { from: bf, to: bt, method: bm, route: br },
            ) => af.same_as(bf) && at.same_as(bt) && crate::strings::str_eq(
                am.as_str(),
                bm.as_str(),
            ) && crate::strings::str_eq(ar.as_str(), br.as_str()),
            (
                EdgeKey::Grpc { from: af, to: at, service: asv, method: am },
                EdgeKey::Grpc { from: bf, to: bt, service: bsv, method: bm },
            ) => af.same_as(bf) && at.same_as(bt) && crate::strings::str_eq(
                asv.as_str(),
                bsv.as_str(),
            ) && crate::strings::str_eq(am.as_str(), bm.as_str()),
            _ => false,
        }
    }
}

#[derive(Clone, Debug)]
pub struct EdgeStats {
    pub count: u64,
    pub bytes_in: u64,
    pub bytes_out: u64,
    pub errors: u64,
    pub p50_ms: Option<u64>,
    pub p95_ms: Option<u64>,
    pub visibility: Visibility,
}

#[derive(Clone, Debug)]
pub struct TrafficEdge {
    pub key: EdgeKey,
    pub stats: EdgeStats,
    pub last_seen_ms: u64,
}

/// One aggregated line of container output offered to log subscribers.
#[derive(Clone, Debug)]
pub struct LogEvent {
    pub seq: u64,
    pub service: String,
    pub line: String,
}

#[derive(Clone, Debug)]
pub struct ServiceInfo {
    pub name: String,
    pub endpoints: Vec<String>,
    pub endpoint: Option<String>,
    pub exposed: bool,
}

#[derive(Clone, Copy, Debug, PartialEq, Eq, Structural)]
pub enum EngineKind {
    Podman,
    Docker,
}

#[derive(Clone, Copy, Debug, PartialEq, Eq, Structural)]
pub enum Provider {
    PodmanCompose,
    Other,
}

#[derive(Clone, Copy, Debug, PartialEq, Eq, Structural)]
pub enum Scope {
    Running,
    All,
}

} // verus!
