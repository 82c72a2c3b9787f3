//! The traffic observation pipeline: proxy access records and tap traces,
//! already parsed into the plain JSON model, are resolved to workload
//! identities and promoted into the uniform observation model.

use vstd::prelude::*;

use crate::domain::{
    Confidence, Correlation, EntityId, FlowKey, FlowMetrics, FlowObservation, Headers,
    HttpObservation, IpAddress, Observation, ObservationAttrs, Peer, Socket, Transport, Visibility,
};
use crate::json::{obj_get, object_get, object_get2, Json};
use crate::strings::{chars_slice, chars_trim, lower_seq, str_chars};

verus! {

/// One line of a proxy's JSON access log, field by field.
pub struct EnvoyAccessLog {
    pub timestamp: Option<String>,
    pub method: Option<String>,
    pub path: Option<String>,
    pub authority: Option<String>,
    pub protocol: Option<String>,
    pub response_code: Option<u16>,
    pub duration_ms: Option<u64>,
    pub downstream_remote_address: Option<String>,
    pub upstream_host: Option<String>,
    pub bytes_received: Option<u64>,
    pub bytes_sent: Option<u64>,
    pub request_id: Option<String>,
    pub request_user_agent: Option<String>,
    pub request_content_type: Option<String>,
    pub request_accept: Option<String>,
    pub request_forwarded_for: Option<String>,
    pub request_forwarded_proto: Option<String>,
    pub request_body: Option<String>,
    pub response_content_type: Option<String>,
    pub response_content_length: Option<String>,
    pub response_body: Option<String>,
}

/// The string at a key of a JSON object, when one is there.
pub open spec fn spec_str_field(obj: Seq<(String, Json)>, key: Seq<char>) -> Option<Seq<char>> {
    match obj_get(obj, key) {
        Some(Json::Str(s)) => Some(s@),
        _ => None,
    }
}

/// The unsigned value at a key of a JSON object, when one is there.
pub open spec fn spec_u64_field(obj: Seq<(String, Json)>, key: Seq<char>) -> Option<u64> {
    match obj_get(obj, key) {
        Some(v) => crate::json::spec_u64_like(v),
        None => None,
    }
}

/// The port-sized value at a key of a JSON object, when one is there.
pub open spec fn spec_u16_field(obj: Seq<(String, Json)>, key: Seq<char>) -> Option<u16> {
    match spec_u64_field(obj, key) {
        Some(n) => if n <= 65535 {
            Some(n as u16)
        } else {
            None
        },
        None => None,
    }
}

/// An optional string reading as an optional text.
pub open spec fn opt_text_eq(a: Option<String>, b: Option<Seq<char>>) -> bool {
    match (a, b) {
        (Some(x), Some(y)) => x@ == y,
        (None, None) => true,
        _ => false,
    }
}

fn string_field(obj: &Vec<(String, Json)>, key: &str) -> (r: Option<String>)
    ensures
        opt_text_eq(r, spec_str_field(obj@, key@)),
{
    match object_get(obj, key) {
        Some(Json::Str(s)) => Some(s.clone()),
        _ => None,
    }
}

fn u64_field(obj: &Vec<(String, Json)>, key: &str) -> (r: Option<u64>)
    ensures
        r == spec_u64_field(obj@, key@),
{
    match object_get(obj, key) {
        Some(v) => v.as_u64_like(),
        None => None,
    }
}

fn u16_field(obj: &Vec<(String, Json)>, key: &str) -> (r: Option<u16>)
    ensures
        r == spec_u16_field(obj@, key@),
{
    match u64_field(obj, key) {
        Some(n) => if n <= 65535 {
            Some(n as u16)
        } else {
            None
        },
        None => None,
    }
}

/// Reads an access-log line, already parsed as JSON, into its fields;
/// `None` when the line is not a JSON object.
pub fn parse_envoy_log_line(value: &Json) -> (r: Option<EnvoyAccessLog>)
    ensures
        r is Some <==> *value matches Json::Object(_),
{
    let obj = match value.as_object() {
        Some(o) => o,
        None => {
            return None;
        },
    };
    Some(build_envoy_access_log(obj))
}

/// Each field of the record is the value at its key, or absent when the key
/// is missing or of another shape.
pub fn build_envoy_access_log(obj: &Vec<(String, Json)>) -> (r: EnvoyAccessLog)
    ensures
        opt_text_eq(r.timestamp, spec_str_field(obj@, "timestamp"@)),
        opt_text_eq(r.method, spec_str_field(obj@, "method"@)),
        opt_text_eq(r.path, spec_str_field(obj@, "path"@)),
        opt_text_eq(r.authority, spec_str_field(obj@, "authority"@)),
        opt_text_eq(r.protocol, spec_str_field(obj@, "protocol"@)),
        r.response_code == spec_u16_field(obj@, "response_code"@),
        r.duration_ms == spec_u64_field(obj@, "duration_ms"@),
        opt_text_eq(
            r.downstream_remote_address,
            spec_str_field(obj@, "downstream_remote_address"@),
        ),
        opt_text_eq(r.upstream_host, spec_str_field(obj@, "upstream_host"@)),
        r.bytes_received == spec_u64_field(obj@, "bytes_received"@),
        r.bytes_sent == spec_u64_field(obj@, "bytes_sent"@),
        opt_text_eq(r.request_id, spec_str_field(obj@, "request_id"@)),
        opt_text_eq(r.request_user_agent, spec_str_field(obj@, "request_user_agent"@)),
        opt_text_eq(r.request_content_type, spec_str_field(obj@, "request_content_type"@)),
        opt_text_eq(r.request_accept, spec_str_field(obj@, "request_accept"@)),
        opt_text_eq(r.request_forwarded_for, spec_str_field(obj@, "request_forwarded_for"@)),
        opt_text_eq(r.request_forwarded_proto, spec_str_field(obj@, "request_forwarded_proto"@)),
        opt_text_eq(r.request_body, spec_str_field(obj@, "request_body"@)),
        opt_text_eq(r.response_content_type, spec_str_field(obj@, "response_content_type"@)),
        opt_text_eq(r.response_content_length, spec_str_field(obj@, "response_content_length"@)),
        opt_text_eq(r.response_body, spec_str_field(obj@, "response_body"@)),
{
    EnvoyAccessLog {
        timestamp: string_field(obj, "timestamp"),
        method: string_field(obj, "method"),
        path: string_field(obj, "path"),
        authority: string_field(obj, "authority"),
        protocol: string_field(obj, "protocol"),
        response_code: u16_field(obj, "response_code"),
        duration_ms: u64_field(obj, "duration_ms"),
        downstream_remote_address: string_field(obj, "downstream_remote_address"),
        upstream_host: string_field(obj, "upstream_host"),
        bytes_received: u64_field(obj, "bytes_received"),
        bytes_sent: u64_field(obj, "bytes_sent"),
        request_id: string_field(obj, "request_id"),
        request_user_agent: string_field(obj, "request_user_agent"),
        request_content_type: string_field(obj, "request_content_type"),
        request_accept: string_field(obj, "request_accept"),
        request_forwarded_for: string_field(obj, "request_forwarded_for"),
        request_forwarded_proto: string_field(obj, "request_forwarded_proto"),
        request_body: string_field(obj, "request_body"),
        response_content_type: string_field(obj, "response_content_type"),
        response_content_length: string_field(obj, "response_content_length"),
        response_body: string_field(obj, "response_body"),
    }
}

/// One inspected container: its id, its compose service label, and its
/// network addresses.
pub struct ContainerInfo {
    pub id: String,
    pub service: Option<String>,
    pub ips: Vec<IpAddress>,
}

/// The compose service label of one inspect record: the docker label, or
/// podman's.
pub open spec fn spec_service_label(m: Seq<(String, Json)>) -> Option<Seq<char>> {
    match obj_get(m, "Config"@) {
        Some(Json::Object(c)) => (match obj_get(c@, "Labels"@) {
            Some(Json::Object(l)) => (match spec_str_field(l@, "com.docker.compose.service"@) {
                Some(s) => Some(s),
                None => spec_str_field(l@, "io.podman.compose.service"@),
            }),
            _ => None,
        }),
        _ => None,
    }
}

/// The address a bare IP text denotes: a dotted quad, or an IPv6 value.
pub open spec fn spec_ip_text(s: Seq<char>) -> Option<IpAddress> {
    let t = crate::strings::trim_seq(s);
    match spec_ipv4(t) {
        Some(x) => Some(IpAddress::V4(x)),
        None => (match spec_ipv6(t) {
            Some(x) => Some(IpAddress::V6(x)),
            None => None,
        }),
    }
}

/// The record lists `ip` as one of its networks' addresses.
pub open spec fn record_has_ip(m: Seq<(String, Json)>, ip: IpAddress) -> bool {
    match obj_get(m, "NetworkSettings"@) {
        Some(Json::Object(ns)) => (match obj_get(ns@, "Networks"@) {
            Some(Json::Object(nets)) => exists|t: int|
                0 <= t < nets@.len() && (match (#[trigger] nets@[t]).1 {
                    Json::Object(n) => (match spec_str_field(n@, "IPAddress"@) {
                        Some(s) => spec_ip_text(s) == Some(ip),
                        None => false,
                    }),
                    _ => false,
                }),
            _ => false,
        }),
        _ => false,
    }
}

fn parse_ip_text(s: &str) -> (r: Option<IpAddress>)
    ensures
        r == spec_ip_text(s@),
{
    let t = chars_trim(&str_chars(s));
    match parse_ipv4(&t) {
        Some(ip) => Some(ip),
        None => match parse_ipv6(&t) {
            Some(x) => Some(IpAddress::V6(x)),
            None => None,
        },
    }
}

/// Reads one engine inspect record: the id under `Id`, the compose service
/// label, and every network address it holds.
pub fn parse_inspect_record(m: &Vec<(String, Json)>) -> (r: ContainerInfo)
    ensures
        (match spec_str_field(m@, "Id"@) {
            Some(s) => r.id@ == s,
            None => r.id@.len() == 0,
        }),
        opt_text_eq(r.service, spec_service_label(m@)),
        forall|p: int| 0 <= p < r.ips@.len() ==> record_has_ip(m@, #[trigger] r.ips@[p]),
{
    let id = match string_field(m, "Id") {
        Some(s) => s,
        None => String::new(),
    };
    let service = match object_get(m, "Config") {
        Some(Json::Object(c)) => match object_get(c, "Labels") {
            Some(Json::Object(l)) => match string_field(l, "com.docker.compose.service") {
                Some(s) => Some(s),
                None => string_field(l, "io.podman.compose.service"),
            },
            _ => None,
        },
        _ => None,
    };
    let mut ips: Vec<IpAddress> = Vec::new();
    match object_get(m, "NetworkSettings") {
        Some(Json::Object(ns)) => {
            match object_get(ns, "Networks") {
                Some(Json::Object(nets)) => {
                    let mut t: usize = 0;
                    while t < nets.len()
                        invariant
                            t <= nets@.len(),
                            obj_get(m@, "NetworkSettings"@) == Some(Json::Object(*ns)),
                            obj_get(ns@, "Networks"@) == Some(Json::Object(*nets)),
                            forall|p: int|
                                0 <= p < ips@.len() ==> record_has_ip(m@, #[trigger] ips@[p]),
                        decreases nets@.len() - t,
                    {
                        match &nets[t].1 {
                            Json::Object(n) => {
                                match string_field(n, "IPAddress") {
                                    Some(s) => {
                                        match parse_ip_text(s.as_str()) {
                                            Some(ip) => {
                                                ips.push(ip);
                                                proof {
                                                    assert(record_has_ip(m@, ip)) by {
                                                        assert((match nets@[t as int].1 {
                                                            Json::Object(n2) => (match spec_str_field(
                                                                n2@,
                                                                "IPAddress"@,
                                                            ) {
                                                                Some(s2) => spec_ip_text(s2)
                                                                    == Some(ip),
                                                                None => false,
                                                            }),
                                                            _ => false,
                                                        }));
                                                    }
                                                }
                                            },
                                            None => {},
                                        }
                                    },
                                    None => {},
                                }
                            },
                            _ => {},
                        }
                        t = t + 1;
                    }
                },
                _ => {},
            }
        },
        _ => {},
    }
    ContainerInfo { id, service, ips }
}

/// One resolver row taken from some inspected container: its address, and
/// the workload named by that container's service label.
pub open spec fn resolver_row_from(infos: Seq<ContainerInfo>, row: (IpAddress, EntityId)) -> bool {
    exists|a: int, p: int|
        #![trigger infos[a].ips@[p]]
        0 <= a < infos.len() && 0 <= p < infos[a].ips@.len() && row.0 == infos[a].ips@[p] && (
        match infos[a].service {
            Some(s) => row.1 == (EntityId::Workload { name: s, instance: None }),
            None => false,
        })
}

/// Builds the runtime resolver from inspected containers: one row per
/// address, naming the workload whose record held it.
pub fn resolver_from_containers(infos: &Vec<ContainerInfo>) -> (r: RuntimeResolver)
    ensures
        forall|t: int|
            0 <= t < r.ip_map@.len() ==> resolver_row_from(infos@, #[trigger] r.ip_map@[t]),
{
    let mut ip_map: Vec<(IpAddress, EntityId)> = Vec::new();
    let mut i: usize = 0;
    while i < infos.len()
        invariant
            i <= infos@.len(),
            forall|t: int|
                0 <= t < ip_map@.len() ==> resolver_row_from(infos@, #[trigger] ip_map@[t]),
        decreases infos@.len() - i,
    {
        match &infos[i].service {
            Some(name) => {
                let mut p: usize = 0;
                while p < infos[i].ips.len()
                    invariant
                        p <= infos@[i as int].ips@.len(),
                        i < infos@.len(),
                        infos@[i as int].service == Some(*name),
                        forall|t: int|
                            0 <= t < ip_map@.len() ==> resolver_row_from(
                                infos@,
                                #[trigger] ip_map@[t],
                            ),
                    decreases infos@[i as int].ips@.len() - p,
                {
                    let ip = match infos[i].ips[p] {
                        IpAddress::V4(a) => IpAddress::V4(a),
                        IpAddress::V6(a) => IpAddress::V6(a),
                    };
                    let ghost mp = ip_map@;
                    ip_map.push(
                        (ip, EntityId::Workload { name: name.clone(), instance: None }),
                    );
                    proof {
                        assert(forall|t: int| 0 <= t < mp.len() ==> #[trigger] ip_map@[t] == mp[t]);
                        assert(resolver_row_from(infos@, ip_map@[mp.len() as int])) by {
                            assert(ip_map@[mp.len() as int].0 == infos@[i as int].ips@[p as int]);
                            assert(ip_map@[mp.len() as int].1 == (EntityId::Workload {
                                name: infos@[i as int].service->Some_0,
                                instance: None,
                            }));
                        }
                    }
                    p = p + 1;
                }
            },
            None => {},
        }
        i = i + 1;
    }
    RuntimeResolver { ip_map }
}

/// The first entity bound to an address in a resolver map.
pub open spec fn spec_resolve(m: Seq<(IpAddress, EntityId)>, ip: IpAddress) -> Option<EntityId>
    decreases m.len(),
{
    if m.len() == 0 {
        None
    } else if m[0].0 == ip {
        Some(m[0].1)
    } else {
        spec_resolve(m.drop_first(), ip)
    }
}

/// The read-mostly snapshot resolver: container IPs indexed to workloads.
pub struct RuntimeResolver {
    pub ip_map: Vec<(IpAddress, EntityId)>,
}

impl RuntimeResolver {
    /// Resolves a socket's address to the workload that owns it: the first
    /// map entry with the socket's IP, or `None` when no entry has it.
    pub fn resolve_entity(&self, socket: &Socket) -> (r: Option<EntityId>)
        ensures
            r == spec_resolve(self.ip_map@, socket.ip),
            match r {
                Some(e) => exists|t: int|
                    0 <= t < self.ip_map@.len() && (#[trigger] self.ip_map@[t]).0 == socket.ip && e
                        == self.ip_map@[t].1 && (forall|u: int|
                        0 <= u < t ==> (#[trigger] self.ip_map@[u]).0 != socket.ip),
                None => forall|t: int|
                    0 <= t < self.ip_map@.len() ==> (#[trigger] self.ip_map@[t]).0 != socket.ip,
            },
    {
        let mut i: usize = 0;
        proof {
            assert(self.ip_map@.subrange(0, self.ip_map@.len() as int) =~= self.ip_map@);
        }
        while i < self.ip_map.len()
            invariant
                i <= self.ip_map@.len(),
                forall|u: int| 0 <= u < i ==> (#[trigger] self.ip_map@[u]).0 != socket.ip,
                spec_resolve(self.ip_map@, socket.ip) == spec_resolve(
                    self.ip_map@.subrange(i as int, self.ip_map@.len() as int),
                    socket.ip,
                ),
            decreases self.ip_map@.len() - i,
        {
            proof {
                let cur = self.ip_map@.subrange(i as int, self.ip_map@.len() as int);
                assert(cur.drop_first() =~= self.ip_map@.subrange(
                    i + 1,
                    self.ip_map@.len() as int,
                ));
            }
            if self.ip_map[i].0 == socket.ip {
                return Some(dup_entity(&self.ip_map[i].1));
            }
            i = i + 1;
        }
        None
    }
}

/// A copy of an entity, equal to the original.
fn dup_entity(e: &EntityId) -> (r: EntityId)
    ensures
        r == *e,
{
    match e {
        EntityId::Workload { name, instance } => EntityId::Workload {
            name: name.clone(),
            instance: match instance {
                Some(s) => Some(s.clone()),
                None => None,
            },
        },
        EntityId::External { ip, dns_name } => EntityId::External {
            ip: match ip {
                IpAddress::V4(a) => IpAddress::V4(*a),
                IpAddress::V6(a) => IpAddress::V6(*a),
            },
            dns_name: match dns_name {
                Some(s) => Some(s.clone()),
                None => None,
            },
        },
        EntityId::Host { name } => EntityId::Host { name: name.clone() },
        EntityId::Unknown => EntityId::Unknown,
    }
}

pub open spec fn ipv4_octet(s: Seq<char>) -> Option<u8> {
    if s.len() >= 1 && s.len() <= 3 && crate::strings::all_digits(s) && crate::strings::dec_value(
        s,
    ) <= 255 {
        Some(crate::strings::dec_value(s) as u8)
    } else {
        None
    }
}

fn parse_octet(v: &Vec<char>) -> (r: Option<u8>)
    ensures
        r == ipv4_octet(v@),
{
    if v.len() < 1 || v.len() > 3 {
        return None;
    }
    match crate::strings::parse_u64_digits(v) {
        Some(n) => if n <= 255 {
            Some(n as u8)
        } else {
            proof {
                crate::strings::lemma_dec_value_nonneg(v@);
            }
            None
        },
        None => {
            proof {
                if crate::strings::all_digits(v@) {
                    crate::strings::lemma_dec_value_nonneg(v@);
                }
            }
            None
        },
    }
}

/// Parses a dotted-quad IPv4 address.
/// The split of a text on one separator, as a function of the text.
pub open spec fn split_on(s: Seq<char>, c: char) -> Seq<Seq<char>>
    decreases s.len(),
{
    match crate::ports::first_idx_of(s, c) {
        Some(i) => if 0 <= i < s.len() {
            seq![s.subrange(0, i)] + split_on(s.subrange(i + 1, s.len() as int), c)
        } else {
            seq![s]
        },
        None => seq![s],
    }
}

/// An exec split equal to `split_on`, part by part.
pub(crate) fn split_chars(v: &Vec<char>, c: char) -> (r: Vec<Vec<char>>)
    ensures
        r@.len() == split_on(v@, c).len(),
        forall|k: int|
            0 <= k < r@.len() ==> (#[trigger] r@[k])@ == split_on(v@, c)[k],
    decreases v@.len(),
{
    proof {
        crate::ports::lemma_first_idx_of(v@, c);
    }
    match crate::strings::chars_find(v, c) {
        Some(i) => {
            proof {
                crate::ports::lemma_first_idx_at(v@, c, i as int);
            }
            let n = v.len();
            let head = chars_slice(v, 0, i);
            let tail = chars_slice(v, i + 1, n);
            let rest = split_chars(&tail, c);
            let mut out: Vec<Vec<char>> = Vec::new();
            out.push(head);
            let ghost restg = rest@;
            let mut t = rest;
            out.append(&mut t);
            proof {
                assert(out@ =~= seq![out@[0]] + restg);
                assert forall|k: int|
                    0 <= k < out@.len() implies (#[trigger] out@[k])@ == split_on(v@, c)[k] by {
                    if k > 0 {
                        assert(out@[k] == restg[k - 1]);
                        assert(restg[k - 1]@ == split_on(tail@, c)[k - 1]);
                    }
                }
            }
            out
        },
        None => {
            let n = v.len();
            let whole = chars_slice(v, 0, n);
            let mut out: Vec<Vec<char>> = Vec::new();
            out.push(whole);
            proof {
                assert(out@[0]@ =~= v@);
            }
            out
        },
    }
}

/// The dotted-quad value of a text, high octet first.
pub open spec fn spec_ipv4(s: Seq<char>) -> Option<u32> {
    let parts = split_on(s, '.');
    if parts.len() == 4 {
        match (ipv4_octet(parts[0]), ipv4_octet(parts[1]), ipv4_octet(parts[2]), ipv4_octet(
            parts[3],
        )) {
            (Some(a), Some(b), Some(c), Some(d)) => Some(
                ((a as int) * 0x1000000 + (b as int) * 0x10000 + (c as int) * 0x100 + (
                d as int)) as u32,
            ),
            _ => None,
        }
    } else {
        None
    }
}

pub fn parse_ipv4(v: &Vec<char>) -> (r: Option<IpAddress>)
    ensures
        r == (match spec_ipv4(v@) {
            Some(x) => Some(IpAddress::V4(x)),
            None => None::<IpAddress>,
        }),
{
    let parts = split_chars(v, '.');
    if parts.len() != 4 {
        return None;
    }
    let a = match parse_octet(&parts[0]) {
        Some(x) => x,
        None => {
            return None;
        },
    };
    let b = match parse_octet(&parts[1]) {
        Some(x) => x,
        None => {
            return None;
        },
    };
    let c = match parse_octet(&parts[2]) {
        Some(x) => x,
        None => {
            return None;
        },
    };
    let d = match parse_octet(&parts[3]) {
        Some(x) => x,
        None => {
            return None;
        },
    };
    Some(
        IpAddress::V4(
            (a as u32) * 0x1000000 + (b as u32) * 0x10000 + (c as u32) * 0x100 + (d as u32),
        ),
    )
}

/// One hexadecimal digit.
pub open spec fn is_hex(c: char) -> bool {
    ('0' <= c && c <= '9') || ('a' <= c && c <= 'f') || ('A' <= c && c <= 'F')
}

pub open spec fn all_hex(s: Seq<char>) -> bool {
    forall|i: int| 0 <= i < s.len() ==> is_hex(#[trigger] s[i])
}

pub open spec fn hex_val(c: char) -> int {
    if '0' <= c && c <= '9' {
        c as int - 48
    } else if 'a' <= c && c <= 'f' {
        c as int - 87
    } else {
        c as int - 55
    }
}

/// The value of a hex digit string, high digit first.
pub open spec fn hex_seq_val(s: Seq<char>) -> int
    decreases s.len(),
{
    if s.len() == 0 {
        0
    } else {
        hex_seq_val(s.drop_last()) * 16 + hex_val(s.last())
    }
}

pub open spec fn pow16(n: int) -> int
    decreases n,
{
    if n <= 0 {
        1
    } else {
        16 * pow16(n - 1)
    }
}

proof fn lemma_hex_bound(s: Seq<char>)
    requires
        all_hex(s),
    ensures
        0 <= hex_seq_val(s) < pow16(s.len() as int),
    decreases s.len(),
{
    if s.len() > 0 {
        assert(all_hex(s.drop_last())) by {
            assert(forall|i: int| 0 <= i < s.len() - 1 ==> s.drop_last()[i] == #[trigger] s[i]);
        }
        lemma_hex_bound(s.drop_last());
        assert(0 <= hex_val(s.last()) < 16);
    }
}

/// One IPv6 group: one to four hex digits.
pub open spec fn hex_group(s: Seq<char>) -> Option<u16> {
    if 1 <= s.len() <= 4 && all_hex(s) {
        Some(hex_seq_val(s) as u16)
    } else {
        None
    }
}

/// The group values of a list, or nothing when one is malformed.
pub open spec fn groups_vals(gs: Seq<Seq<char>>) -> Option<Seq<u16>>
    decreases gs.len(),
{
    if gs.len() == 0 {
        Some(Seq::empty())
    } else {
        match (hex_group(gs[0]), groups_vals(gs.drop_first())) {
            (Some(v), Some(t)) => Some(seq![v] + t),
            _ => None,
        }
    }
}

/// Sixteen-bit groups packed big-endian.
pub open spec fn pack16(gs: Seq<u16>) -> int
    decreases gs.len(),
{
    if gs.len() == 0 {
        0
    } else {
        pack16(gs.drop_last()) * 0x10000 + gs.last()
    }
}

pub open spec fn pow2_16(n: int) -> int
    decreases n,
{
    if n <= 0 {
        1
    } else {
        0x10000 * pow2_16(n - 1)
    }
}

proof fn lemma_pack_bound(gs: Seq<u16>)
    ensures
        0 <= pack16(gs) < pow2_16(gs.len() as int),
    decreases gs.len(),
{
    if gs.len() > 0 {
        lemma_pack_bound(gs.drop_last());
    }
}

/// A run of sixteen-bit zero groups.
pub open spec fn zero_groups(n: int) -> Seq<u16> {
    Seq::new(n as nat, |i: int| 0u16)
}

/// The first position where two colons stand together.
pub open spec fn first_dcolon(s: Seq<char>, i: int) -> Option<int>
    decreases s.len() - i,
{
    if i < 0 || i + 1 >= s.len() {
        None
    } else if s[i] == ':' && s[i + 1] == ':' {
        Some(i)
    } else {
        first_dcolon(s, i + 1)
    }
}

/// The value of an IPv6 text: eight hex groups, or two group runs around
/// one `::` compression standing for the missing zero groups. The embedded
/// dotted-quad tail form is not read.
pub open spec fn spec_ipv6(s: Seq<char>) -> Option<u128> {
    match first_dcolon(s, 0) {
        Some(i) => ({
            let left = s.subrange(0, i);
            let right = s.subrange(i + 2, s.len() as int);
            let lg = if left.len() == 0 {
                Some(Seq::<u16>::empty())
            } else {
                groups_vals(split_on(left, ':'))
            };
            let rg = if right.len() == 0 {
                Some(Seq::<u16>::empty())
            } else {
                groups_vals(split_on(right, ':'))
            };
            match (lg, rg) {
                (Some(l), Some(rr)) => if l.len() + rr.len() <= 7 {
                    Some(pack16(l + zero_groups(8 - l.len() - rr.len()) + rr) as u128)
                } else {
                    None
                },
                _ => None,
            }
        }),
        None => (match groups_vals(split_on(s, ':')) {
            Some(g) => if g.len() == 8 {
                Some(pack16(g) as u128)
            } else {
                None
            },
            None => None,
        }),
    }
}

fn hex_group_u16(v: &Vec<char>) -> (r: Option<u16>)
    ensures
        r == hex_group(v@),
{
    if v.len() < 1 || v.len() > 4 {
        return None;
    }
    let mut acc: u32 = 0;
    let mut i: usize = 0;
    proof {
        assert(v@.subrange(0, 0) =~= Seq::<char>::empty());
    }
    while i < v.len()
        invariant
            i <= v@.len(),
            v@.len() <= 4,
            all_hex(v@.subrange(0, i as int)),
            acc == hex_seq_val(v@.subrange(0, i as int)),
            acc < 0x10000,
        decreases v@.len() - i,
    {
        let c = v[i];
        let d: u32 = if '0' <= c && c <= '9' {
            (c as u32) - 48
        } else if 'a' <= c && c <= 'f' {
            (c as u32) - 87
        } else if 'A' <= c && c <= 'F' {
            (c as u32) - 55
        } else {
            proof {
                assert(!is_hex(v@[i as int]));
            }
            return None;
        };
        proof {
            let pre = v@.subrange(0, i as int);
            let cur = v@.subrange(0, i + 1);
            assert(cur.drop_last() =~= pre);
            assert(all_hex(cur)) by {
                assert(forall|k: int| 0 <= k < i ==> cur[k] == #[trigger] pre[k]);
                assert(is_hex(cur[i as int]));
            }
            lemma_hex_bound(pre);
            assert(pow16(pre.len() as int) <= 4096) by {
                assert(pow16(0) == 1);
                assert(pow16(1) == 16);
                assert(pow16(2) == 256);
                assert(pow16(3) == 4096);
                if pre.len() == 0 {
                } else if pre.len() == 1 {
                } else if pre.len() == 2 {
                } else {
                }
            }
            assert(acc < 4096);
            assert(d as int == hex_val(v@[i as int]));
            assert(d <= 15);
            assert(hex_seq_val(cur) == hex_seq_val(pre) * 16 + hex_val(v@[i as int]));
        }
        acc = acc * 16 + d;
        i = i + 1;
    }
    proof {
        assert(v@.subrange(0, v@.len() as int) =~= v@);
    }
    Some(acc as u16)
}

fn groups_u16(parts: &Vec<Vec<char>>, from: usize) -> (r: Option<Vec<u16>>)
    requires
        from <= parts@.len(),
    ensures
        ({
            let gs = parts@.map_values(|p: Vec<char>| p@).subrange(from as int, parts@.len() as int);
            match r {
                Some(out) => groups_vals(gs) == Some(out@),
                None => groups_vals(gs) is None,
            }
        }),
    decreases parts@.len() - from,
{
    let ghost gs = parts@.map_values(|p: Vec<char>| p@).subrange(from as int, parts@.len() as int);
    if from >= parts.len() {
        proof {
            assert(gs =~= Seq::<Seq<char>>::empty());
        }
        return Some(Vec::new());
    }
    proof {
        assert(gs[0] == parts@[from as int]@);
        assert(gs.drop_first() =~= parts@.map_values(|p: Vec<char>| p@).subrange(
            from + 1,
            parts@.len() as int,
        ));
    }
    match hex_group_u16(&parts[from]) {
        Some(v0) => match groups_u16(parts, from + 1) {
            Some(rest) => {
                let mut out: Vec<u16> = Vec::new();
                out.push(v0);
                let ghost restg = rest@;
                let mut t = rest;
                out.append(&mut t);
                proof {
                    assert(out@ =~= seq![v0] + restg);
                }
                Some(out)
            },
            None => None,
        },
        None => None,
    }
}

fn pack_groups(gs: &Vec<u16>) -> (r: u128)
    requires
        gs@.len() <= 8,
    ensures
        r as int == pack16(gs@),
{
    proof {
        assert(pow2_16(0) == 1);
        assert(pow2_16(1) == 0x10000);
        assert(pow2_16(2) == 0x1_0000_0000);
        assert(pow2_16(3) == 0x1_0000_0000_0000);
        assert(pow2_16(4) == 0x1_0000_0000_0000_0000);
        assert(pow2_16(5) == 0x1_0000_0000_0000_0000_0000);
        assert(pow2_16(6) == 0x1_0000_0000_0000_0000_0000_0000);
        assert(pow2_16(7) == 0x1_0000_0000_0000_0000_0000_0000_0000);
        assert(pow2_16(8) == 0x1_0000_0000_0000_0000_0000_0000_0000_0000);
    }
    let mut acc: u128 = 0;
    let mut i: usize = 0;
    proof {
        assert(gs@.subrange(0, 0) =~= Seq::<u16>::empty());
    }
    while i < gs.len()
        invariant
            i <= gs@.len(),
            gs@.len() <= 8,
            acc as int == pack16(gs@.subrange(0, i as int)),
            (acc as int) < pow2_16(i as int),
            pow2_16(0) == 1,
            pow2_16(1) == 0x10000,
            pow2_16(2) == 0x1_0000_0000,
            pow2_16(3) == 0x1_0000_0000_0000,
            pow2_16(4) == 0x1_0000_0000_0000_0000,
            pow2_16(5) == 0x1_0000_0000_0000_0000_0000,
            pow2_16(6) == 0x1_0000_0000_0000_0000_0000_0000,
            pow2_16(7) == 0x1_0000_0000_0000_0000_0000_0000_0000,
            pow2_16(8) == 0x1_0000_0000_0000_0000_0000_0000_0000_0000,
        decreases gs@.len() - i,
    {
        proof {
            let pre = gs@.subrange(0, i as int);
            let cur = gs@.subrange(0, i + 1);
            assert(cur.drop_last() =~= pre);
            assert(pow2_16(i as int) * 0x10000 == pow2_16(i + 1));
        }
        acc = acc * 0x10000 + (gs[i] as u128);
        i = i + 1;
    }
    proof {
        assert(gs@.subrange(0, gs@.len() as int) =~= gs@);
    }
    acc
}

fn find_dcolon(v: &Vec<char>, i: usize) -> (r: Option<usize>)
    requires
        i <= v@.len(),
    ensures
        match r {
            Some(x) => first_dcolon(v@, i as int) == Some(x as int) && x + 1 < v@.len(),
            None => first_dcolon(v@, i as int) is None,
        },
    decreases v@.len() - i,
{
    if i >= v.len() {
        return None;
    }
    if i + 1 >= v.len() {
        return None;
    }
    if v[i] == ':' && v[i + 1] == ':' {
        return Some(i);
    }
    find_dcolon(v, i + 1)
}

/// The value of a bracketless IPv6 text.
pub fn parse_ipv6(v: &Vec<char>) -> (r: Option<u128>)
    ensures
        r == spec_ipv6(v@),
{
    let n = v.len();
    let found = find_dcolon(v, 0);
    match found {
        Some(i) => {
            let left = chars_slice(v, 0, i);
            let right = chars_slice(v, i + 2, n);
            let lg: Option<Vec<u16>> = if left.len() == 0 {
                Some(Vec::new())
            } else {
                let parts = split_chars(&left, ':');
                proof {
                    assert(parts@.map_values(|p: Vec<char>| p@).subrange(
                        0,
                        parts@.len() as int,
                    ) =~= parts@.map_values(|p: Vec<char>| p@));
                    assert forall|k: int|
                        0 <= k < parts@.len() implies parts@.map_values(|p: Vec<char>| p@)[k]
                        == split_on(left@, ':')[k] by {
                        assert(parts@.map_values(|p: Vec<char>| p@)[k] == parts@[k]@);
                    }
                    assert(parts@.map_values(|p: Vec<char>| p@) =~= split_on(left@, ':'));
                }
                groups_u16(&parts, 0)
            };
            let rg: Option<Vec<u16>> = if right.len() == 0 {
                Some(Vec::new())
            } else {
                let parts = split_chars(&right, ':');
                proof {
                    assert(parts@.map_values(|p: Vec<char>| p@).subrange(
                        0,
                        parts@.len() as int,
                    ) =~= parts@.map_values(|p: Vec<char>| p@));
                    assert forall|k: int|
                        0 <= k < parts@.len() implies parts@.map_values(|p: Vec<char>| p@)[k]
                        == split_on(right@, ':')[k] by {
                        assert(parts@.map_values(|p: Vec<char>| p@)[k] == parts@[k]@);
                    }
                    assert(parts@.map_values(|p: Vec<char>| p@) =~= split_on(right@, ':'));
                }
                groups_u16(&parts, 0)
            };
            match (lg, rg) {
                (Some(l), Some(rr)) => {
                    if l.len() <= 7 && rr.len() <= 7 - l.len() {
                        let fill = 8 - l.len() - rr.len();
                        let mut full: Vec<u16> = Vec::new();
                        let mut a: usize = 0;
                        while a < l.len()
                            invariant
                                a <= l@.len(),
                                full@ =~= l@.subrange(0, a as int),
                            decreases l@.len() - a,
                        {
                            full.push(l[a]);
                            a = a + 1;
                        }
                        let mut z: usize = 0;
                        while z < fill
                            invariant
                                z <= fill,
                                full@ =~= l@.subrange(0, l@.len() as int) + zero_groups(z as int),
                            decreases fill - z,
                        {
                            full.push(0);
                            proof {
                                assert(zero_groups(z + 1) =~= zero_groups(z as int).push(0u16));
                            }
                            z = z + 1;
                        }
                        let mut b: usize = 0;
                        while b < rr.len()
                            invariant
                                b <= rr@.len(),
                                full@ =~= l@.subrange(0, l@.len() as int) + zero_groups(
                                    fill as int,
                                ) + rr@.subrange(0, b as int),
                            decreases rr@.len() - b,
                        {
                            full.push(rr[b]);
                            b = b + 1;
                        }
                        proof {
                            assert(l@.subrange(0, l@.len() as int) =~= l@);
                            assert(rr@.subrange(0, rr@.len() as int) =~= rr@);
                            assert(full@ =~= l@ + zero_groups(fill as int) + rr@);
                        }
                        Some(pack_groups(&full))
                    } else {
                        None
                    }
                },
                _ => None,
            }
        },
        None => {
            let parts = split_chars(v, ':');
            proof {
                assert(parts@.map_values(|p: Vec<char>| p@).subrange(
                    0,
                    parts@.len() as int,
                ) =~= parts@.map_values(|p: Vec<char>| p@));
                assert forall|k: int|
                    0 <= k < parts@.len() implies parts@.map_values(|p: Vec<char>| p@)[k]
                    == split_on(v@, ':')[k] by {
                    assert(parts@.map_values(|p: Vec<char>| p@)[k] == parts@[k]@);
                }
                assert(parts@.map_values(|p: Vec<char>| p@) =~= split_on(v@, ':'));
            }
            match groups_u16(&parts, 0) {
                Some(g) => {
                    if g.len() == 8 {
                        Some(pack_groups(&g))
                    } else {
                        None
                    }
                },
                None => None,
            }
        },
    }
}

/// The last position of a character in a text.
pub open spec fn last_idx_of(s: Seq<char>, c: char) -> Option<int>
    decreases s.len(),
{
    if s.len() == 0 {
        None
    } else if s.last() == c {
        Some(s.len() - 1)
    } else {
        last_idx_of(s.drop_last(), c)
    }
}

pub proof fn lemma_last_idx_of(s: Seq<char>, c: char)
    ensures
        match last_idx_of(s, c) {
            Some(i) => 0 <= i < s.len() && s[i] == c && forall|j: int|
                i < j < s.len() ==> s[j] != c,
            None => forall|j: int| 0 <= j < s.len() ==> s[j] != c,
        },
    decreases s.len(),
{
    if s.len() > 0 && s.last() != c {
        lemma_last_idx_of(s.drop_last(), c);
        assert(forall|j: int| 0 <= j < s.len() - 1 ==> s.drop_last()[j] == #[trigger] s[j]);
    }
}

/// The socket an `ip:port` text denotes: the text is trimmed, the port
/// follows the last colon, and the address is a dotted quad or a bracketed
/// IPv6 value.
pub open spec fn spec_socket(raw: Seq<char>) -> Option<Socket> {
    let rv = crate::strings::trim_seq(raw);
    if rv.len() == 0 {
        None
    } else {
        match last_idx_of(rv, ':') {
            Some(ci) => ({
                let host = rv.subrange(0, ci);
                let pt = rv.subrange(ci + 1, rv.len() as int);
                if pt.len() > 0 && crate::strings::all_digits(pt) && crate::strings::dec_value(pt)
                    <= 65535 {
                    let p = crate::strings::dec_value(pt) as u16;
                    if host.len() >= 2 && host[0] == '[' && host.last() == ']' {
                        match spec_ipv6(host.subrange(1, host.len() - 1)) {
                            Some(x) => Some(Socket { ip: IpAddress::V6(x), port: p }),
                            None => None,
                        }
                    } else {
                        match spec_ipv4(host) {
                            Some(x) => Some(Socket { ip: IpAddress::V4(x), port: p }),
                            None => None,
                        }
                    }
                } else {
                    None
                }
            }),
            None => None,
        }
    }
}

/// Splits `ip:port` text into a socket: a dotted quad, or a bracketed
/// IPv6 address.
pub fn parse_socket(raw: &str) -> (r: Option<Socket>)
    ensures
        r == spec_socket(raw@),
{
    let rv = chars_trim(&str_chars(raw));
    if rv.len() == 0 {
        return None;
    }
    proof {
        lemma_last_idx_of(rv@, ':');
    }
    let colon = match crate::strings::chars_rfind(&rv, ':') {
        Some(i) => i,
        None => {
            return None;
        },
    };
    proof {
        assert(last_idx_of(rv@, ':') == Some(colon as int)) by {
            lemma_last_idx_of(rv@, ':');
        }
    }
    let n = rv.len();
    let host = chars_slice(&rv, 0, colon);
    let port_text = chars_slice(&rv, colon + 1, n);
    let port = match crate::strings::parse_u64_digits(&port_text) {
        Some(x) => if x <= 65535 {
            x as u16
        } else {
            return None;
        },
        None => {
            return None;
        },
    };
    if host.len() >= 2 && host[0] == '[' && host[host.len() - 1] == ']' {
        let hn = host.len();
        let inner = chars_slice(&host, 1, hn - 1);
        match parse_ipv6(&inner) {
            Some(x) => Some(Socket { ip: IpAddress::V6(x), port }),
            None => None,
        }
    } else {
        match parse_ipv4(&host) {
            Some(ip) => Some(Socket { ip, port }),
            None => None,
        }
    }
}

/// `Exact` when both ends resolved, `Likely` otherwise.
pub fn resolve_confidence(src: &Option<EntityId>, dst: &Option<EntityId>) -> (r: Confidence)
    ensures
        r == Confidence::Exact <==> (src is Some && dst is Some),
{
    if src.is_some() && dst.is_some() {
        Confidence::Exact
    } else {
        Confidence::Likely
    }
}

/// The raw flow of a call when both sockets are known.
pub fn build_peer(
    src: Option<EntityId>,
    dst: Option<EntityId>,
    downstream: Option<Socket>,
    upstream: Option<Socket>,
) -> (r: Peer)
    ensures
        r.src == src,
        r.dst == dst,
        r.raw is Some <==> (downstream is Some && upstream is Some),
        match (downstream, upstream) {
            (Some(d), Some(u)) => r.raw == Some(
                (FlowKey { src: d, dst: u, transport: Transport::Tcp }),
            ),
            _ => r.raw is None,
        },
{
    let raw = match (downstream, upstream) {
        (Some(s), Some(d)) => Some(FlowKey { src: s, dst: d, transport: Transport::Tcp }),
        _ => None,
    };
    Peer { src, dst, raw }
}

/// A record with a method, path or authority is an L7 envelope; anything
/// else is a bare flow.
pub fn build_attrs(log: &EnvoyAccessLog, confidence: Confidence) -> (r: ObservationAttrs)
    ensures
        r.visibility == if log.method is Some || log.path is Some || log.authority is Some {
            Visibility::L7Semantics
        } else {
            Visibility::L4Flow
        },
        r.confidence == confidence,
{
    let visibility = if log.method.is_some() || log.path.is_some() || log.authority.is_some() {
        Visibility::L7Semantics
    } else {
        Visibility::L4Flow
    };
    ObservationAttrs { visibility, confidence, tags: Vec::new() }
}

/// The destination of a call: for a service proxy its own user-facing
/// service name; for the egress proxy the external entity the authority
/// names, or the upstream address.
pub fn resolve_dst_entity(
    log: &EnvoyAccessLog,
    is_egress: bool,
    service_name: &str,
    upstream: Option<&Socket>,
) -> (r: Option<EntityId>)
    ensures
        !is_egress ==> (r matches Some(e) && e matches EntityId::Workload { name, instance }
            && name@ == service_name@ && instance is None),
        is_egress ==> match r {
            Some(e) => e matches EntityId::External { .. },
            None => true,
        },
{
    if !is_egress {
        return Some(EntityId::Workload { name: service_name.to_owned(), instance: None });
    }
    let authority: Option<&String> = match &log.authority {
        Some(a) => Some(a),
        None => match &log.upstream_host {
            Some(u) => Some(u),
            None => None,
        },
    };
    match authority {
        Some(a) => {
            match parse_external_entity(a.as_str()) {
                Some(e) => Some(e),
                None => match upstream {
                    Some(s) => Some(EntityId::External { ip: s.ip, dns_name: None }),
                    None => None,
                },
            }
        },
        None => match upstream {
            Some(s) => Some(EntityId::External { ip: s.ip, dns_name: None }),
            None => None,
        },
    }
}

/// An authority as an external entity: a literal address, or a DNS name
/// with a placeholder address.
/// The host part of an external authority: trimmed, cut at the last colon,
/// brackets stripped.
pub open spec fn spec_external_host(raw: Seq<char>) -> Seq<char> {
    let rv = crate::strings::trim_seq(raw);
    let cut = match last_idx_of(rv, ':') {
        Some(i) => rv.subrange(0, i),
        None => rv,
    };
    crate::ports::strip_matches(crate::ports::strip_matches(cut, '['), ']')
}

/// Reads an authority as an external entity: a dotted-quad host is a
/// literal address, any other nonempty host a DNS name under the
/// placeholder address; an empty text or host is nothing.
pub fn parse_external_entity(raw: &str) -> (r: Option<EntityId>)
    ensures
        ({
            let host = spec_external_host(raw@);
            if crate::strings::trim_seq(raw@).len() == 0 || host.len() == 0 {
                r is None
            } else {
                match spec_ipv4(host) {
                    Some(x) => (r matches Some(e) && e == (EntityId::External {
                        ip: IpAddress::V4(x),
                        dns_name: None,
                    })),
                    None => (r matches Some(EntityId::External { ip, dns_name }) && ip
                        == IpAddress::V4(0) && (dns_name matches Some(n) && n@ == host)),
                }
            }
        }),
        match r {
            Some(e) => e matches EntityId::External { .. },
            None => true,
        },
{
    let rv = chars_trim(&str_chars(raw));
    if rv.len() == 0 {
        return None;
    }
    proof {
        lemma_last_idx_of(rv@, ':');
    }
    let host = match crate::strings::chars_rfind(&rv, ':') {
        Some(i) => {
            proof {
                assert(last_idx_of(rv@, ':') == Some(i as int));
            }
            chars_slice(&rv, 0, i)
        },
        None => {
            let whole = chars_slice(&rv, 0, rv.len());
            proof {
                assert(whole@ =~= rv@);
            }
            whole
        },
    };
    let host = crate::ports::chars_strip_matches(
        &crate::ports::chars_strip_matches(&host, '['),
        ']',
    );
    proof {
        assert(rv@ == crate::strings::trim_seq(raw@));
        let cut = match last_idx_of(rv@, ':') {
            Some(i) => rv@.subrange(0, i),
            None => rv@,
        };
        assert(host@ == crate::ports::strip_matches(crate::ports::strip_matches(cut, '['), ']'));
        assert(host@ == spec_external_host(raw@));
    }
    if host.len() == 0 {
        return None;
    }
    match parse_ipv4(&host) {
        Some(ip) => Some(EntityId::External { ip, dns_name: None }),
        None => Some(
            EntityId::External {
                ip: IpAddress::V4(0),
                dns_name: Some(crate::strings::chars_into_string(host)),
            },
        ),
    }
}

/// The UTF-8 byte length of one character.
pub open spec fn utf8_len(c: char) -> int {
    if (c as u32) < 0x80 {
        1
    } else if (c as u32) < 0x800 {
        2
    } else if (c as u32) < 0x10000 {
        3
    } else {
        4
    }
}

/// How many bytes a body preview keeps before cropping.
pub const NON_JSON_BODY_PREVIEW_LIMIT: usize = 4096;

/// Truncates a body at the byte budget, on a character boundary: the kept
/// prefix is every character that starts before the budget.
/// The UTF-8 byte count of the first `n` characters.
pub open spec fn utf8_prefix(s: Seq<char>, n: int) -> int
    decreases n,
{
    if n <= 0 {
        0
    } else {
        utf8_prefix(s, n - 1) + utf8_len(s[n - 1])
    }
}

proof fn lemma_utf8_prefix_mono(s: Seq<char>, a: int, b: int)
    requires
        0 <= a <= b,
    ensures
        utf8_prefix(s, a) <= utf8_prefix(s, b),
    decreases b - a,
{
    if a < b {
        lemma_utf8_prefix_mono(s, a, b - 1);
        assert(utf8_len(s[b - 1]) >= 1);
    }
}

/// Cuts a body at the byte budget: the flag says whether the whole body
/// overruns it, and a cropped result is the longest character prefix that
/// still fits.
pub fn truncate_body(body: &Vec<char>, max_bytes: usize) -> (r: (Vec<char>, bool))
    ensures
        r.1 == (utf8_prefix(body@, body@.len() as int) > max_bytes),
        !r.1 ==> r.0@ == body@,
        r.1 ==> r.0@.len() < body@.len() && r.0@ == body@.subrange(0, r.0@.len() as int)
            && utf8_prefix(body@, r.0@.len() as int) <= max_bytes && utf8_prefix(
            body@,
            r.0@.len() as int + 1,
        ) > max_bytes,
{
    let mut total: usize = 0;
    let mut i: usize = 0;
    let mut fits = true;
    while i < body.len() && fits
        invariant
            i <= body@.len(),
            fits ==> total == utf8_prefix(body@, i as int) && total <= max_bytes,
            !fits ==> i < body@.len() && utf8_prefix(body@, i as int) <= max_bytes
                && utf8_prefix(body@, i + 1) > max_bytes,
        decreases body@.len() - i, (if fits {
            1int
        } else {
            0int
        }),
    {
        let c = body[i];
        let l: usize = if (c as u32) < 0x80 {
            1
        } else if (c as u32) < 0x800 {
            2
        } else if (c as u32) < 0x10000 {
            3
        } else {
            4
        };
        proof {
            assert(l as int == utf8_len(body@[i as int])) by {
                assert(body@[i as int] == c);
            }
            assert(utf8_prefix(body@, i + 1) == utf8_prefix(body@, i as int) + utf8_len(
                body@[i as int],
            ));
        }
        if total > usize::MAX - l {
            fits = false;
        } else if total + l > max_bytes {
            fits = false;
        } else {
            total = total + l;
            i = i + 1;
        }
    }
    if i >= body.len() {
        let copy = chars_slice(body, 0, body.len());
        proof {
            assert(copy@ =~= body@);
        }
        (copy, false)
    } else {
        proof {
            lemma_utf8_prefix_mono(body@, i + 1, body@.len() as int);
        }
        (chars_slice(body, 0, i), true)
    }
}

pub open spec fn spec_json_content(ct: Option<Seq<char>>) -> bool {
    match ct {
        Some(s) => crate::strings::contains_seq(lower_seq(s), "json"@),
        None => false,
    }
}

pub fn is_json_content_type(content_type: Option<&String>) -> (r: bool)
    ensures
        r == spec_json_content(
            match content_type {
                Some(s) => Some(s@),
                None => None,
            },
        ),
{
    match content_type {
        Some(ct) => {
            let cv = crate::strings::chars_lower(&str_chars(ct.as_str()));
            crate::strings::chars_contains(&cv, "json")
        },
        None => false,
    }
}

/// Keeps JSON bodies whole; other bodies are cropped at the preview budget
/// with a marker. Empty and placeholder bodies vanish.
/// The media type of a content-type text: trimmed, cut before any
/// parameters, trimmed again.
pub open spec fn spec_media(ct: Option<Seq<char>>) -> Option<Seq<char>> {
    match ct {
        Some(s) => ({
            let cv = crate::strings::trim_seq(s);
            if cv.len() == 0 {
                None
            } else {
                let head = match crate::ports::first_idx_of(cv, ';') {
                    Some(i) => cv.subrange(0, i),
                    None => cv,
                };
                Some(crate::strings::trim_seq(head))
            }
        }),
        None => None,
    }
}

/// Normalises a body for the call record: an absent, blank or placeholder
/// body vanishes; a JSON body is kept whole; any other body is cropped at
/// the preview budget with the marker appended.
pub fn normalize_body(body: Option<String>, content_type: Option<&String>) -> (r: Option<String>)
    ensures
        ({
            match body {
                None => r is None,
                Some(b) => ({
                    let t = crate::strings::trim_seq(b@);
                    let media = spec_media(
                        match content_type {
                            Some(ct) => Some(ct@),
                            None => None,
                        },
                    );
                    if t.len() == 0 || t == "-"@ {
                        r is None
                    } else if spec_json_content(media) {
                        (r matches Some(s) && s@ == b@)
                    } else if utf8_prefix(b@, b@.len() as int) > NON_JSON_BODY_PREVIEW_LIMIT {
                        (r matches Some(s) && exists|k: int|
                            0 <= k < b@.len() && s@ == #[trigger] b@.subrange(0, k)
                                + "\n... (cropped)"@ && utf8_prefix(b@, k)
                                <= NON_JSON_BODY_PREVIEW_LIMIT && utf8_prefix(b@, k + 1)
                                > NON_JSON_BODY_PREVIEW_LIMIT)
                    } else {
                        (r matches Some(s) && s@ == b@)
                    }
                }),
            }
        }),
        body is None ==> r is None,
{
    let body = match body {
        Some(b) => b,
        None => {
            return None;
        },
    };
    let bv = str_chars(body.as_str());
    let trimmed = chars_trim(&bv);
    proof {
        reveal_strlit("-");
    }
    if trimmed.len() == 0 || crate::strings::chars_eq_str(&trimmed, "-") {
        return None;
    }
    // the media type is what stands before any parameters
    let media = match content_type {
        Some(ct) => {
            let cv = chars_trim(&str_chars(ct.as_str()));
            proof {
                crate::ports::lemma_first_idx_of(cv@, ';');
            }
            if cv.len() == 0 {
                None
            } else {
                let head = match crate::strings::chars_find(&cv, ';') {
                    Some(i) => {
                        proof {
                            crate::ports::lemma_first_idx_at(cv@, ';', i as int);
                        }
                        chars_slice(&cv, 0, i)
                    },
                    None => {
                        let whole = chars_slice(&cv, 0, cv.len());
                        proof {
                            assert(whole@ =~= cv@);
                        }
                        whole
                    },
                };
                Some(crate::strings::chars_into_string(chars_trim(&head)))
            }
        },
        None => None,
    };
    proof {
        assert(match media {
            Some(m) => spec_media(
                match content_type {
                    Some(ct) => Some(ct@),
                    None => None::<Seq<char>>,
                },
            ) == Some(m@),
            None => spec_media(
                match content_type {
                    Some(ct) => Some(ct@),
                    None => None::<Seq<char>>,
                },
            ) is None,
        });
    }
    if is_json_content_type(media.as_ref()) {
        return Some(body);
    }
    let (snippet, cropped) = truncate_body(&bv, NON_JSON_BODY_PREVIEW_LIMIT);
    if cropped {
        let ghost k = snippet@.len() as int;
        let mut out = crate::strings::chars_into_string(snippet);
        out.append("\n... (cropped)");
        proof {
            assert(out@ == bv@.subrange(0, k) + "\n... (cropped)"@);
        }
        Some(out)
    } else {
        Some(crate::strings::chars_into_string(snippet))
    }
}

/// Header values that are empty or the proxy's `-` placeholder vanish.
pub fn normalize_header_value(value: Option<String>) -> (r: Option<String>)
    ensures
        ({
            match value {
                None => r is None,
                Some(v) => ({
                    let t = crate::strings::trim_seq(v@);
                    if t.len() == 0 || t == "-"@ {
                        r is None
                    } else {
                        (r matches Some(s) && s@ == t)
                    }
                }),
            }
        }),
{
    let v = match value {
        Some(v) => v,
        None => {
            return None;
        },
    };
    let tv = chars_trim(&str_chars(v.as_str()));
    proof {
        reveal_strlit("-");
    }
    if tv.len() == 0 || crate::strings::chars_eq_str(&tv, "-") {
        None
    } else {
        Some(crate::strings::chars_into_string(tv))
    }
}

/// The first header row whose name is `key`, lowercased.
pub open spec fn spec_header_value(
    headers: Seq<(String, String)>,
    key: Seq<char>,
) -> Option<Seq<char>>
    decreases headers.len(),
{
    if headers.len() == 0 {
        None
    } else if headers[0].0@ == key {
        Some(headers[0].1@)
    } else {
        spec_header_value(headers.drop_first(), key)
    }
}

/// Appends one header row when its value survives normalisation; a blank or
/// placeholder value adds nothing.
pub fn insert_header(headers: &mut Vec<(String, String)>, key: &str, value: Option<String>)
    ensures
        ({
            match value {
                Some(v) => ({
                    let t = crate::strings::trim_seq(v@);
                    if t.len() == 0 || t == "-"@ {
                        final(headers)@ == old(headers)@
                    } else {
                        final(headers)@.len() == old(headers)@.len() + 1 && (forall|k: int|
                            0 <= k < old(headers)@.len() ==> #[trigger] final(headers)@[k]
                                == old(headers)@[k]) && final(headers)@.last().0@ == key@
                            && final(headers)@.last().1@ == t
                    }
                }),
                None => final(headers)@ == old(headers)@,
            }
        }),
{
    match normalize_header_value(value) {
        Some(v) => {
            headers.push((key.to_owned(), v));
        },
        None => {},
    }
}

/// The value of a header, looked up under the lowercased name.
pub fn header_value(headers: &Vec<(String, String)>, key: &str) -> (r: Option<String>)
    ensures
        match r {
            Some(v) => spec_header_value(headers@, lower_seq(key@)) == Some(v@),
            None => spec_header_value(headers@, lower_seq(key@)) is None,
        },
{
    let kl = crate::strings::chars_into_string(
        crate::strings::chars_lower(&str_chars(key)),
    );
    let mut i: usize = 0;
    proof {
        assert(headers@.subrange(0, headers@.len() as int) =~= headers@);
    }
    while i < headers.len()
        invariant
            i <= headers@.len(),
            kl@ == lower_seq(key@),
            spec_header_value(headers@, lower_seq(key@)) == spec_header_value(
                headers@.subrange(i as int, headers@.len() as int),
                lower_seq(key@),
            ),
        decreases headers@.len() - i,
    {
        proof {
            let cur = headers@.subrange(i as int, headers@.len() as int);
            assert(cur.drop_first() =~= headers@.subrange(i + 1, headers@.len() as int));
        }
        if crate::strings::str_eq(headers[i].0.as_str(), kl.as_str()) {
            return Some(headers[i].1.clone());
        }
        i = i + 1;
    }
    None
}

/// The `content-length` header's first comma-separated element, as a
/// number.
pub fn parse_content_length(headers: &Vec<(String, String)>) -> (r: Option<u64>)
    ensures
        ({
            match spec_header_value(headers@, lower_seq("content-length"@)) {
                Some(v) => ({
                    let head = match crate::ports::first_idx_of(v, ',') {
                        Some(i) => v.subrange(0, i),
                        None => v,
                    };
                    let t = crate::strings::trim_seq(head);
                    match r {
                        Some(n) => t.len() > 0 && crate::strings::all_digits(t)
                            && n == crate::strings::dec_value(t),
                        None => t.len() == 0 || !crate::strings::all_digits(t)
                            || crate::strings::dec_value(t) > u64::MAX,
                    }
                }),
                None => r is None,
            }
        }),
{
    let value = match header_value(headers, "content-length") {
        Some(v) => v,
        None => {
            return None;
        },
    };
    let vv = str_chars(value.as_str());
    proof {
        crate::ports::lemma_first_idx_of(vv@, ',');
    }
    let head = match crate::strings::chars_find(&vv, ',') {
        Some(i) => {
            proof {
                crate::ports::lemma_first_idx_at(vv@, ',', i as int);
            }
            chars_slice(&vv, 0, i)
        },
        None => {
            let whole = chars_slice(&vv, 0, vv.len());
            proof {
                assert(whole@ =~= vv@);
            }
            whole
        },
    };
    crate::strings::parse_u64_digits(&chars_trim(&head))
}

pub struct RequestHeaderParts {
    pub authority: Option<String>,
    pub request_id: Option<String>,
    pub request_user_agent: Option<String>,
    pub request_content_type: Option<String>,
    pub request_accept: Option<String>,
    pub request_forwarded_for: Option<String>,
    pub request_forwarded_proto: Option<String>,
}

/// The value a header field keeps after normalisation.
pub open spec fn spec_kept(v: Option<String>) -> Option<Seq<char>> {
    match v {
        Some(s) => ({
            let t = crate::strings::trim_seq(s@);
            if t.len() == 0 || t == "-"@ {
                None
            } else {
                Some(t)
            }
        }),
        None => None,
    }
}

/// The list holds a row with this name and value.
pub open spec fn has_header_row(h: Seq<(String, String)>, name: Seq<char>, v: Seq<char>) -> bool {
    exists|t: int| 0 <= t < h.len() && (#[trigger] h[t]).0@ == name && h[t].1@ == v
}

proof fn lemma_row_kept(
    h: Seq<(String, String)>,
    h2: Seq<(String, String)>,
    name: Seq<char>,
    v: Seq<char>,
)
    requires
        has_header_row(h, name, v),
        h2.len() >= h.len(),
        forall|k: int| 0 <= k < h.len() ==> #[trigger] h2[k] == h[k],
    ensures
        has_header_row(h2, name, v),
{
    let t = choose|t: int| 0 <= t < h.len() && (#[trigger] h[t]).0@ == name && h[t].1@ == v;
    assert(h2[t] == h[t]);
}

/// The row names one of the request fields with its kept value.
pub open spec fn req_header_row(parts: RequestHeaderParts, row: (String, String)) -> bool {
    ||| (row.0@ == "host"@ && Some(row.1@) == spec_kept(parts.authority))
    ||| (row.0@ == "x-request-id"@ && Some(row.1@) == spec_kept(parts.request_id))
    ||| (row.0@ == "user-agent"@ && Some(row.1@) == spec_kept(parts.request_user_agent))
    ||| (row.0@ == "content-type"@ && Some(row.1@) == spec_kept(parts.request_content_type))
    ||| (row.0@ == "accept"@ && Some(row.1@) == spec_kept(parts.request_accept))
    ||| (row.0@ == "x-forwarded-for"@ && Some(row.1@) == spec_kept(parts.request_forwarded_for))
    ||| (row.0@ == "x-forwarded-proto"@ && Some(row.1@) == spec_kept(parts.request_forwarded_proto))
}

/// Builds the request header rows the record carries: each field that
/// survives normalisation stands under its header name, and nothing else is
/// added.
pub fn build_request_headers(parts: RequestHeaderParts) -> (r: Headers)
    ensures
        forall|t: int| 0 <= t < r@.len() ==> req_header_row(parts, #[trigger] r@[t]),
        (match spec_kept(parts.authority) {
            Some(v) => has_header_row(r@, "host"@, v),
            None => true,
        }),
        (match spec_kept(parts.request_id) {
            Some(v) => has_header_row(r@, "x-request-id"@, v),
            None => true,
        }),
        (match spec_kept(parts.request_user_agent) {
            Some(v) => has_header_row(r@, "user-agent"@, v),
            None => true,
        }),
        (match spec_kept(parts.request_content_type) {
            Some(v) => has_header_row(r@, "content-type"@, v),
            None => true,
        }),
        (match spec_kept(parts.request_accept) {
            Some(v) => has_header_row(r@, "accept"@, v),
            None => true,
        }),
        (match spec_kept(parts.request_forwarded_for) {
            Some(v) => has_header_row(r@, "x-forwarded-for"@, v),
            None => true,
        }),
        (match spec_kept(parts.request_forwarded_proto) {
            Some(v) => has_header_row(r@, "x-forwarded-proto"@, v),
            None => true,
        }),
{
    let mut headers: Headers = Vec::new();
    let ghost prev_authority = headers@;
    insert_header(&mut headers, "host", parts.authority);
    proof {
        assert forall|t: int| 0 <= t < headers@.len() implies req_header_row(
            parts,
            #[trigger] headers@[t],
        ) by {
            if t < prev_authority.len() {
                assert(headers@[t] == prev_authority[t]);
            }
        }
        match spec_kept(parts.authority) {
            Some(v) => {
                assert(has_header_row(headers@, "host"@, v)) by {
                    assert((headers@[headers@.len() - 1]).0@ == "host"@);
                }
            },
            None => {},
        }
    }
    let ghost prev_request_id = headers@;
    insert_header(&mut headers, "x-request-id", parts.request_id);
    proof {
        assert forall|t: int| 0 <= t < headers@.len() implies req_header_row(
            parts,
            #[trigger] headers@[t],
        ) by {
            if t < prev_request_id.len() {
                assert(headers@[t] == prev_request_id[t]);
            }
        }
        match spec_kept(parts.request_id) {
            Some(v) => {
                assert(has_header_row(headers@, "x-request-id"@, v)) by {
                    assert((headers@[headers@.len() - 1]).0@ == "x-request-id"@);
                }
            },
            None => {},
        }
        match spec_kept(parts.authority) {
            Some(v) => {
                lemma_row_kept(prev_request_id, headers@, "host"@, v);
            },
            None => {},
        }
    }
    let ghost prev_request_user_agent = headers@;
    insert_header(&mut headers, "user-agent", parts.request_user_agent);
    proof {
        assert forall|t: int| 0 <= t < headers@.len() implies req_header_row(
            parts,
            #[trigger] headers@[t],
        ) by {
            if t < prev_request_user_agent.len() {
                assert(headers@[t] == prev_request_user_agent[t]);
            }
        }
        match spec_kept(parts.request_user_agent) {
            Some(v) => {
                assert(has_header_row(headers@, "user-agent"@, v)) by {
                    assert((headers@[headers@.len() - 1]).0@ == "user-agent"@);
                }
            },
            None => {},
        }
        match spec_kept(parts.authority) {
            Some(v) => {
                lemma_row_kept(prev_request_user_agent, headers@, "host"@, v);
            },
            None => {},
        }
        match spec_kept(parts.request_id) {
            Some(v) => {
                lemma_row_kept(prev_request_user_agent, headers@, "x-request-id"@, v);
            },
            None => {},
        }
    }
    let ghost prev_request_content_type = headers@;
    insert_header(&mut headers, "content-type", parts.request_content_type);
    proof {
        assert forall|t: int| 0 <= t < headers@.len() implies req_header_row(
            parts,
            #[trigger] headers@[t],
        ) by {
            if t < prev_request_content_type.len() {
                assert(headers@[t] == prev_request_content_type[t]);
            }
        }
        match spec_kept(parts.request_content_type) {
            Some(v) => {
                assert(has_header_row(headers@, "content-type"@, v)) by {
                    assert((headers@[headers@.len() - 1]).0@ == "content-type"@);
                }
            },
            None => {},
        }
        match spec_kept(parts.authority) {
            Some(v) => {
                lemma_row_kept(prev_request_content_type, headers@, "host"@, v);
            },
            None => {},
        }
        match spec_kept(parts.request_id) {
            Some(v) => {
                lemma_row_kept(prev_request_content_type, headers@, "x-request-id"@, v);
            },
            None => {},
        }
        match spec_kept(parts.request_user_agent) {
            Some(v) => {
                lemma_row_kept(prev_request_content_type, headers@, "user-agent"@, v);
            },
            None => {},
        }
    }
    let ghost prev_request_accept = headers@;
    insert_header(&mut headers, "accept", parts.request_accept);
    proof {
        assert forall|t: int| 0 <= t < headers@.len() implies req_header_row(
            parts,
            #[trigger] headers@[t],
        ) by {
            if t < prev_request_accept.len() {
                assert(headers@[t] == prev_request_accept[t]);
            }
        }
        match spec_kept(parts.request_accept) {
            Some(v) => {
                assert(has_header_row(headers@, "accept"@, v)) by {
                    assert((headers@[headers@.len() - 1]).0@ == "accept"@);
                }
            },
            None => {},
        }
        match spec_kept(parts.authority) {
            Some(v) => {
                lemma_row_kept(prev_request_accept, headers@, "host"@, v);
            },
            None => {},
        }
        match spec_kept(parts.request_id) {
            Some(v) => {
                lemma_row_kept(prev_request_accept, headers@, "x-request-id"@, v);
            },
            None => {},
        }
        match spec_kept(parts.request_user_agent) {
            Some(v) => {
                lemma_row_kept(prev_request_accept, headers@, "user-agent"@, v);
            },
            None => {},
        }
        match spec_kept(parts.request_content_type) {
            Some(v) => {
                lemma_row_kept(prev_request_accept, headers@, "content-type"@, v);
            },
            None => {},
        }
    }
    let ghost prev_request_forwarded_for = headers@;
    insert_header(&mut headers, "x-forwarded-for", parts.request_forwarded_for);
    proof {
        assert forall|t: int| 0 <= t < headers@.len() implies req_header_row(
            parts,
            #[trigger] headers@[t],
        ) by {
            if t < prev_request_forwarded_for.len() {
                assert(headers@[t] == prev_request_forwarded_for[t]);
            }
        }
        match spec_kept(parts.request_forwarded_for) {
            Some(v) => {
                assert(has_header_row(headers@, "x-forwarded-for"@, v)) by {
                    assert((headers@[headers@.len() - 1]).0@ == "x-forwarded-for"@);
                }
            },
            None => {},
        }
        match spec_kept(parts.authority) {
            Some(v) => {
                lemma_row_kept(prev_request_forwarded_for, headers@, "host"@, v);
            },
            None => {},
        }
        match spec_kept(parts.request_id) {
            Some(v) => {
                lemma_row_kept(prev_request_forwarded_for, headers@, "x-request-id"@, v);
            },
            None => {},
        }
        match spec_kept(parts.request_user_agent) {
            Some(v) => {
                lemma_row_kept(prev_request_forwarded_for, headers@, "user-agent"@, v);
            },
            None => {},
        }
        match spec_kept(parts.request_content_type) {
            Some(v) => {
                lemma_row_kept(prev_request_forwarded_for, headers@, "content-type"@, v);
            },
            None => {},
        }
        match spec_kept(parts.request_accept) {
            Some(v) => {
                lemma_row_kept(prev_request_forwarded_for, headers@, "accept"@, v);
            },
            None => {},
        }
    }
    let ghost prev_request_forwarded_proto = headers@;
    insert_header(&mut headers, "x-forwarded-proto", parts.request_forwarded_proto);
    proof {
        assert forall|t: int| 0 <= t < headers@.len() implies req_header_row(
            parts,
            #[trigger] headers@[t],
        ) by {
            if t < prev_request_forwarded_proto.len() {
                assert(headers@[t] == prev_request_forwarded_proto[t]);
            }
        }
        match spec_kept(parts.request_forwarded_proto) {
            Some(v) => {
                assert(has_header_row(headers@, "x-forwarded-proto"@, v)) by {
                    assert((headers@[headers@.len() - 1]).0@ == "x-forwarded-proto"@);
                }
            },
            None => {},
        }
        match spec_kept(parts.authority) {
            Some(v) => {
                lemma_row_kept(prev_request_forwarded_proto, headers@, "host"@, v);
            },
            None => {},
        }
        match spec_kept(parts.request_id) {
            Some(v) => {
                lemma_row_kept(prev_request_forwarded_proto, headers@, "x-request-id"@, v);
            },
            None => {},
        }
        match spec_kept(parts.request_user_agent) {
            Some(v) => {
                lemma_row_kept(prev_request_forwarded_proto, headers@, "user-agent"@, v);
            },
            None => {},
        }
        match spec_kept(parts.request_content_type) {
            Some(v) => {
                lemma_row_kept(prev_request_forwarded_proto, headers@, "content-type"@, v);
            },
            None => {},
        }
        match spec_kept(parts.request_accept) {
            Some(v) => {
                lemma_row_kept(prev_request_forwarded_proto, headers@, "accept"@, v);
            },
            None => {},
        }
        match spec_kept(parts.request_forwarded_for) {
            Some(v) => {
                lemma_row_kept(prev_request_forwarded_proto, headers@, "x-forwarded-for"@, v);
            },
            None => {},
        }
    }
    headers
}

/// Builds the response header rows: the kept content type and length.
pub fn build_response_headers_from_parts(
    response_content_type: Option<String>,
    response_content_length: Option<String>,
) -> (r: Headers)
    ensures
        forall|t: int|
            0 <= t < r@.len() ==> ((#[trigger] r@[t]).0@ == "content-type"@ && Some(r@[t].1@)
                == spec_kept(response_content_type)) || (r@[t].0@ == "content-length"@ && Some(
                r@[t].1@,
            ) == spec_kept(response_content_length)),
        (match spec_kept(response_content_type) {
            Some(v) => has_header_row(r@, "content-type"@, v),
            None => true,
        }),
        (match spec_kept(response_content_length) {
            Some(v) => has_header_row(r@, "content-length"@, v),
            None => true,
        }),
{
    let mut headers: Headers = Vec::new();
    insert_header(&mut headers, "content-type", response_content_type);
    let ghost prev = headers@;
    insert_header(&mut headers, "content-length", response_content_length);
    proof {
        match spec_kept(response_content_type) {
            Some(v) => {
                lemma_row_kept(prev, headers@, "content-type"@, v);
            },
            None => {},
        }
        match spec_kept(response_content_length) {
            Some(v) => {
                assert(has_header_row(headers@, "content-length"@, v)) by {
                    assert((headers@[headers@.len() - 1]).0@ == "content-length"@);
                }
            },
            None => {},
        }
    }
    headers
}


/// The user-visible path of a call: for egress traffic the authority is
/// prefixed, so external calls read `example.com/v1/ping`.
pub fn build_http_path_parts(
    path: Option<String>,
    authority: Option<&String>,
    upstream_host: Option<&String>,
    is_egress: bool,
) -> (r: Option<String>)
    ensures
        !is_egress ==> r == path,
        is_egress ==> ({
            let auth = match authority {
                Some(a) => Some(a@),
                None => match upstream_host {
                    Some(u) => Some(u@),
                    None => None::<Seq<char>>,
                },
            };
            match auth {
                Some(av) => match path {
                    Some(p) => (r matches Some(s) && s@ == av + p@),
                    None => (r matches Some(s) && s@ == av),
                },
                None => r == path,
            }
        }),
{
    if !is_egress {
        return path;
    }
    let authority = match authority {
        Some(a) => Some(a),
        None => upstream_host,
    };
    match authority {
        Some(a) => match path {
            Some(p) => {
                let mut s = a.clone();
                s.append(p.as_str());
                Some(s)
            },
            None => Some(a.clone()),
        },
        None => path,
    }
}

pub struct EnvoySockets {
    pub downstream: Option<Socket>,
    pub upstream: Option<Socket>,
}

pub fn parse_envoy_sockets(log: &EnvoyAccessLog) -> (r: EnvoySockets)
    ensures
        r.downstream == (match log.downstream_remote_address {
            Some(a) => spec_socket(a@),
            None => None::<Socket>,
        }),
        r.upstream == (match log.upstream_host {
            Some(a) => spec_socket(a@),
            None => None::<Socket>,
        }),
{
    let downstream = match &log.downstream_remote_address {
        Some(a) => parse_socket(a.as_str()),
        None => None,
    };
    let upstream = match &log.upstream_host {
        Some(a) => parse_socket(a.as_str()),
        None => None,
    };
    EnvoySockets { downstream, upstream }
}

/// Promotes one access record into an observation: an HTTP observation when
/// the record carries L7 fields, a flow observation when only sockets are
/// known, nothing otherwise.
pub fn observation_from_envoy(
    log: EnvoyAccessLog,
    service_name: &str,
    resolver: &RuntimeResolver,
    is_egress: bool,
    now_ms: u64,
) -> (r: Option<Observation>)
    ensures
        (log.method is Some || log.path is Some || log.authority is Some) ==> (r matches Some(o)
            && o matches Observation::Http(h) && h.attrs.visibility == Visibility::L7Semantics
            && h.at_ms == now_ms && h.status == log.response_code && h.duration_ms
            == log.duration_ms && h.method == log.method && h.bytes_in == log.bytes_received
            && h.bytes_out == log.bytes_sent && (h.attrs.confidence == Confidence::Exact <==> (
        h.peer.src is Some && h.peer.dst is Some)) && (!is_egress ==> (h.peer.dst matches Some(
            EntityId::Workload { name, instance },
        ) && name@ == service_name@ && instance is None)) && h.peer.src == (match
        log.downstream_remote_address {
            Some(a) => (match spec_socket(a@) {
                Some(s) => spec_resolve(resolver.ip_map@, s.ip),
                None => None::<EntityId>,
            }),
            None => None::<EntityId>,
        })),
        !(log.method is Some || log.path is Some || log.authority is Some) ==> ({
            let ds = match log.downstream_remote_address {
                Some(a) => spec_socket(a@),
                None => None::<Socket>,
            };
            let us = match log.upstream_host {
                Some(a) => spec_socket(a@),
                None => None::<Socket>,
            };
            match (ds, us) {
                (Some(d), Some(u)) => (r matches Some(o) && o matches Observation::Flow(f)
                    && f.attrs.visibility == Visibility::L4Flow && f.at_ms == now_ms && f.flow == (
                FlowKey { src: d, dst: u, transport: Transport::Tcp }) && f.metrics.bytes_in
                    == log.bytes_received && f.metrics.bytes_out == log.bytes_sent
                    && f.metrics.duration_ms == log.duration_ms),
                _ => r is None,
            }
        }),
{
    let sockets = parse_envoy_sockets(&log);
    let src_entity = match &sockets.downstream {
        Some(s) => resolver.resolve_entity(s),
        None => None,
    };
    let dst_entity = resolve_dst_entity(&log, is_egress, service_name, sockets.upstream.as_ref());
    let confidence = resolve_confidence(&src_entity, &dst_entity);
    let is_l7 = log.method.is_some() || log.path.is_some() || log.authority.is_some();
    let attrs = build_attrs(&log, confidence);
    let peer = build_peer(src_entity, dst_entity, sockets.downstream, sockets.upstream);
    if is_l7 {
        let EnvoyAccessLog {
            method,
            path,
            authority,
            response_code,
            duration_ms,
            upstream_host,
            bytes_received,
            bytes_sent,
            request_id,
            request_user_agent,
            request_content_type,
            request_accept,
            request_forwarded_for,
            request_forwarded_proto,
            request_body,
            response_content_type,
            response_content_length,
            response_body,
            ..
        } = log;
        let path = build_http_path_parts(
            path,
            authority.as_ref(),
            upstream_host.as_ref(),
            is_egress,
        );
        let request_headers = build_request_headers(
            RequestHeaderParts {
                authority,
                request_id: request_id.clone(),
                request_user_agent,
                request_content_type: request_content_type.clone(),
                request_accept,
                request_forwarded_for,
                request_forwarded_proto,
            },
        );
        let response_headers = build_response_headers_from_parts(
            response_content_type.clone(),
            response_content_length,
        );
        let request_body = normalize_body(request_body, request_content_type.as_ref());
        let response_body = normalize_body(response_body, response_content_type.as_ref());
        return Some(
            Observation::Http(
                HttpObservation {
                    at_ms: now_ms,
                    peer,
                    method,
                    path,
                    status: response_code,
                    duration_ms,
                    bytes_in: bytes_received,
                    bytes_out: bytes_sent,
                    request_headers,
                    response_headers,
                    request_body,
                    response_body,
                    correlation: Correlation {
                        request_id,
                        trace_id: None,
                        span_id: None,
                    },
                    attrs,
                },
            ),
        );
    }
    // a bare flow needs both sockets
    let flow = match &peer.raw {
        Some(f) => *f,
        None => {
            return None;
        },
    };
    Some(
        Observation::Flow(
            FlowObservation {
                at_ms: now_ms,
                flow,
                metrics: FlowMetrics {
                    bytes_in: log.bytes_received,
                    bytes_out: log.bytes_sent,
                    packets: None,
                    duration_ms: log.duration_ms,
                },
                peer,
                attrs,
            },
        ),
    )
}

/// Promotes one tap trace, already parsed as JSON, into a full HTTP
/// observation with headers and bodies.
pub fn observation_from_tap(
    value: &Json,
    service_name: &str,
    resolver: &RuntimeResolver,
    is_egress: bool,
    now_ms: u64,
) -> (r: Option<Observation>)
    ensures
        r matches Some(o) ==> (o matches Observation::Http(h) && h.attrs.visibility
            == Visibility::L7Semantics && (!is_egress ==> (h.peer.dst matches Some(
            EntityId::Workload { name, instance },
        ) && name@ == service_name@ && instance is None)) && (is_egress ==> (match h.peer.dst {
            Some(e) => e matches EntityId::External { .. },
            None => true,
        })) && (h.peer.src matches Some(e) ==> exists|t: int|
            0 <= t < resolver.ip_map@.len() && (#[trigger] resolver.ip_map@[t]).1 == e)),
        r is Some <==> (match *value {
            Json::Object(w) => (match spec_tap_object(
                w@,
                "http_buffered_trace"@,
                "httpBufferedTrace"@,
            ) {
                Some(t) => spec_tap_object(t, "request"@, "request"@) is Some && spec_tap_object(
                    t,
                    "response"@,
                    "response"@,
                ) is Some,
                None => false,
            }),
            _ => false,
        }),
{
    let wrapper = match value.as_object() {
        Some(o) => o,
        None => {
            return None;
        },
    };
    let trace = match tap_object(wrapper, "http_buffered_trace", "httpBufferedTrace") {
        Some(t) => t,
        None => {
            return None;
        },
    };
    let request = match tap_object(trace, "request", "request") {
        Some(t) => t,
        None => {
            return None;
        },
    };
    let response = match tap_object(trace, "response", "response") {
        Some(t) => t,
        None => {
            return None;
        },
    };
    let mut request_headers = parse_tap_headers(tap_array(request, "headers", "headers"));
    let response_headers = parse_tap_headers(tap_array(response, "headers", "headers"));
    if header_value(&request_headers, "host").is_none() {
        match header_value(&request_headers, ":authority") {
            Some(authority) => {
                request_headers.push(("host".to_owned(), authority));
            },
            None => {},
        }
    }
    let method = match header_value(&request_headers, ":method") {
        Some(m) => Some(m),
        None => header_value(&request_headers, "method"),
    };
    let path = match header_value(&request_headers, ":path") {
        Some(p) => Some(p),
        None => header_value(&request_headers, "path"),
    };
    let authority = match header_value(&request_headers, ":authority") {
        Some(a) => Some(a),
        None => header_value(&request_headers, "host"),
    };
    let request_id = header_value(&request_headers, "x-request-id");
    let status: Option<u16> = {
        let raw = match header_value(&response_headers, ":status") {
            Some(s) => Some(s),
            None => header_value(&response_headers, "status"),
        };
        match raw {
            Some(s) => {
                let sv = str_chars(s.as_str());
                match crate::strings::parse_u64_digits(&sv) {
                    Some(n) => if n <= 65535 {
                        Some(n as u16)
                    } else {
                        None
                    },
                    None => None,
                }
            },
            None => None,
        }
    };
    let request_content_type = header_value(&request_headers, "content-type");
    let response_content_type = header_value(&response_headers, "content-type");
    let request_body_raw = parse_tap_body(tap_object(request, "body", "body"));
    let response_body_raw = parse_tap_body(tap_object(response, "body", "body"));
    let request_body = normalize_body(request_body_raw.clone(), request_content_type.as_ref());
    let response_body = normalize_body(response_body_raw.clone(), response_content_type.as_ref());
    let bytes_in = match parse_content_length(&request_headers) {
        Some(n) => Some(n),
        None => match &request_body_raw {
            Some(b) => Some(b.unicode_len() as u64),
            None => None,
        },
    };
    let bytes_out = match parse_content_length(&response_headers) {
        Some(n) => Some(n),
        None => match &response_body_raw {
            Some(b) => Some(b.unicode_len() as u64),
            None => None,
        },
    };
    let (at_ms, duration_ms) = tap_timing(request, response, now_ms);
    let downstream_socket = parse_tap_connection(trace, "downstream_connection", "downstreamConnection");
    let upstream_socket = parse_tap_connection(trace, "upstream_connection", "upstreamConnection");
    let src_entity = match &downstream_socket {
        Some(s) => resolver.resolve_entity(s),
        None => None,
    };
    let dst_entity: Option<EntityId> = if is_egress {
        let by_authority = match &authority {
            Some(a) => parse_external_entity(a.as_str()),
            None => None,
        };
        match by_authority {
            Some(e) => Some(e),
            None => match &upstream_socket {
                Some(s) => Some(EntityId::External { ip: s.ip, dns_name: None }),
                None => None,
            },
        }
    } else {
        Some(EntityId::Workload { name: service_name.to_owned(), instance: None })
    };
    let confidence = resolve_confidence(&src_entity, &dst_entity);
    let peer = build_peer(src_entity, dst_entity, downstream_socket, upstream_socket);
    let attrs = ObservationAttrs {
        visibility: Visibility::L7Semantics,
        confidence,
        tags: Vec::new(),
    };
    let path = build_http_path_parts(path, authority.as_ref(), None, is_egress);
    Some(
        Observation::Http(
            HttpObservation {
                at_ms,
                peer,
                method,
                path,
                status,
                duration_ms,
                bytes_in,
                bytes_out,
                request_headers,
                response_headers,
                request_body,
                response_body,
                correlation: Correlation { request_id, trace_id: None, span_id: None },
                attrs,
            },
        ),
    )
}

/// The object under a snake- or camel-case key: the snake form wins, and a
/// value of another shape under it hides the camel form.
pub open spec fn spec_tap_object(
    obj: Seq<(String, Json)>,
    snake: Seq<char>,
    camel: Seq<char>,
) -> Option<Seq<(String, Json)>> {
    match obj_get(obj, snake) {
        Some(v) => match v {
            Json::Object(m) => Some(m@),
            _ => None,
        },
        None => match obj_get(obj, camel) {
            Some(Json::Object(m)) => Some(m@),
            _ => None,
        },
    }
}

fn tap_object<'a>(obj: &'a Vec<(String, Json)>, snake: &str, camel: &str) -> (r: Option<
    &'a Vec<(String, Json)>,
>)
    ensures
        match r {
            Some(m) => spec_tap_object(obj@, snake@, camel@) == Some(m@),
            None => spec_tap_object(obj@, snake@, camel@) is None,
        },
{
    match object_get2(obj, snake, camel) {
        Some(Json::Object(m)) => Some(m),
        _ => None,
    }
}

fn tap_array<'a>(obj: &'a Vec<(String, Json)>, snake: &str, camel: &str) -> (r: Option<
    &'a Vec<Json>,
>)
{
    match object_get2(obj, snake, camel) {
        Some(Json::Array(a)) => Some(a),
        _ => None,
    }
}

fn tap_string<'a>(obj: &'a Vec<(String, Json)>, snake: &str, camel: &str) -> (r: Option<
    &'a String,
>)
{
    match object_get2(obj, snake, camel) {
        Some(Json::Str(s)) => Some(s),
        _ => None,
    }
}

fn tap_bool(obj: &Vec<(String, Json)>, snake: &str, camel: &str) -> Option<bool> {
    match object_get2(obj, snake, camel) {
        Some(v) => v.as_bool(),
        _ => None,
    }
}

/// Tap header arrays hold `{key, value}` objects; repeated keys join with a
/// comma, keys lowercase.
/// The normalised header name an entry contributes: its `key` string,
/// trimmed and lowercased, when both `key` and `value` are strings and the
/// name is nonempty.
pub open spec fn tap_entry_key(e: Json) -> Option<Seq<char>> {
    match e {
        Json::Object(obj) => match (obj_get(obj@, "key"@), obj_get(obj@, "value"@)) {
            (Some(Json::Str(k)), Some(Json::Str(_))) => ({
                let kl = crate::strings::lower_seq(crate::strings::trim_seq(k@));
                if kl.len() > 0 {
                    Some(kl)
                } else {
                    None
                }
            }),
            _ => None,
        },
        _ => None,
    }
}

/// Collects tap header entries under trimmed, lowercased names: duplicate
/// names keep one row (their values joined), and every well-formed entry's
/// name is present.
pub fn parse_tap_headers(entries: Option<&Vec<Json>>) -> (r: Headers)
    ensures
        forall|i: int, j: int|
            0 <= i < j < r@.len() ==> (#[trigger] r@[i]).0@ != (#[trigger] r@[j]).0@,
        match entries {
            Some(es) => forall|i: int|
                0 <= i < es@.len() ==> (match tap_entry_key(#[trigger] es@[i]) {
                    Some(kl) => exists|t: int| 0 <= t < r@.len() && (#[trigger] r@[t]).0@ == kl,
                    None => true,
                }),
            None => r@.len() == 0,
        },
{
    let mut headers: Headers = Vec::new();
    let entries = match entries {
        Some(e) => e,
        None => {
            return headers;
        },
    };
    let mut i: usize = 0;
    while i < entries.len()
        invariant
            i <= entries@.len(),
            forall|a: int, b: int|
                0 <= a < b < headers@.len() ==> (#[trigger] headers@[a]).0@ != (
                #[trigger] headers@[b]).0@,
            forall|i2: int|
                0 <= i2 < i ==> (match tap_entry_key(#[trigger] entries@[i2]) {
                    Some(kl) => exists|t: int|
                        0 <= t < headers@.len() && (#[trigger] headers@[t]).0@ == kl,
                    None => true,
                }),
        decreases entries@.len() - i,
    {
        let ghost h_at_entry = headers@;
        match &entries[i] {
            Json::Object(obj) => {
                let key = match object_get(obj, "key") {
                    Some(Json::Str(k)) => Some(k.clone()),
                    _ => None,
                };
                let value = match object_get(obj, "value") {
                    Some(Json::Str(v)) => Some(v.clone()),
                    _ => None,
                };
                match (key, value) {
                    (Some(k), Some(v)) => {
                        let kt = chars_trim(&str_chars(k.as_str()));
                        let kl = crate::strings::chars_into_string(
                            crate::strings::chars_lower(&kt),
                        );
                        if kl.unicode_len() > 0 {
                            proof {
                                assert(tap_entry_key(entries@[i as int]) == Some(kl@));
                            }
                            let ghost h0 = headers@;
                            let mut found = false;
                            let mut j: usize = 0;
                            while j < headers.len()
                                invariant
                                    j <= headers@.len(),
                                    headers@.len() == h0.len(),
                                    forall|t: int|
                                        0 <= t < h0.len() ==> (#[trigger] headers@[t]).0 == h0[
                                        t].0,
                                    found ==> exists|t: int|
                                        0 <= t < headers@.len() && (#[trigger] headers@[t]).0@
                                            == kl@,
                                    !found ==> forall|t: int|
                                        0 <= t < j ==> (#[trigger] headers@[t]).0@ != kl@,
                                decreases headers@.len() - j,
                            {
                                let ghost hb = headers@;
                                if !found && crate::strings::str_eq(
                                    headers[j].0.as_str(),
                                    kl.as_str(),
                                ) {
                                    let mut entry = headers.remove(j);
                                    if entry.1.unicode_len() > 0 {
                                        entry.1.append(", ");
                                    }
                                    entry.1.append(v.as_str());
                                    headers.insert(j, entry);
                                    found = true;
                                    proof {
                                        assert(forall|t: int|
                                            0 <= t < headers@.len() && t != j
                                                ==> #[trigger] headers@[t] == hb[t]);
                                        assert(headers@[j as int].0 == hb[j as int].0);
                                    }
                                }
                                j = j + 1;
                            }
                            if !found {
                                let ghost hkeep = headers@;
                                let ghost klg = kl@;
                                headers.push((kl, v));
                                proof {
                                    assert(forall|t: int|
                                        0 <= t < hkeep.len() ==> #[trigger] headers@[t] == hkeep[
                                        t]);
                                    assert((headers@[hkeep.len() as int]).0@ == klg);
                                    assert(exists|t: int|
                                        0 <= t < headers@.len() && (#[trigger] headers@[t]).0@
                                            == klg);
                                }
                            } else {
                                proof {
                                    assert(exists|t: int|
                                        0 <= t < headers@.len() && (#[trigger] headers@[t]).0@
                                            == kl@);
                                }
                            }
                        }
                    },
                    _ => {},
                }
            },
            _ => {},
        }
        proof {
            assert forall|i2: int|
                0 <= i2 < i + 1 implies (match tap_entry_key(#[trigger] entries@[i2]) {
                Some(kl2) => exists|t: int|
                    0 <= t < headers@.len() && (#[trigger] headers@[t]).0@ == kl2,
                None => true,
            }) by {
                if i2 < i {
                    match tap_entry_key(entries@[i2]) {
                        Some(kl2) => {
                            let t = choose|t: int|
                                0 <= t < h_at_entry.len() && (#[trigger] h_at_entry[t]).0@ == kl2;
                            assert(headers@[t].0 == h_at_entry[t].0);
                        },
                        None => {},
                    }
                }
            }
        }
        i = i + 1;
    }
    headers
}

/// A tap body's text, with the proxy's own truncation marker appended when
/// the proxy cut it off.
pub fn parse_tap_body(body: Option<&Vec<(String, Json)>>) -> (r: Option<String>)
{
    let body = match body {
        Some(b) => b,
        None => {
            return None;
        },
    };
    let value = match tap_string(body, "as_string", "asString") {
        Some(v) => v,
        None => {
            return None;
        },
    };
    let tv = chars_trim(&str_chars(value.as_str()));
    if tv.len() == 0 {
        return None;
    }
    let truncated = match tap_bool(body, "truncated", "truncated") {
        Some(t) => t,
        None => false,
    };
    if truncated {
        let mut out = value.clone();
        out.append("\n... (truncated by tap)");
        Some(out)
    } else {
        Some(value.clone())
    }
}

fn parse_tap_connection(
    trace: &Vec<(String, Json)>,
    snake: &str,
    camel: &str,
) -> (r: Option<Socket>)
{
    let connection = match tap_object(trace, snake, camel) {
        Some(c) => c,
        None => {
            return None;
        },
    };
    let remote = match tap_object(connection, "remote_address", "remoteAddress") {
        Some(c) => c,
        None => {
            return None;
        },
    };
    let socket = match tap_object(remote, "socket_address", "socketAddress") {
        Some(c) => c,
        None => {
            return None;
        },
    };
    let address = match tap_string(socket, "address", "address") {
        Some(a) => a,
        None => {
            return None;
        },
    };
    let port: u16 = {
        let raw = match object_get2(socket, "port_value", "portValue") {
            Some(v) => v.as_u64_like(),
            None => None,
        };
        match raw {
            Some(n) => if n <= 65535 {
                n as u16
            } else {
                return None;
            },
            None => {
                return None;
            },
        }
    };
    let ip = match parse_ipv4(&str_chars(address.as_str())) {
        Some(ip) => ip,
        None => {
            return None;
        },
    };
    Some(Socket { ip, port })
}

/// The timestamps of a trace: the request's headers-received time anchors
/// the observation, the response's gives the duration.
pub fn tap_timing(
    request: &Vec<(String, Json)>,
    response: &Vec<(String, Json)>,
    now_ms: u64,
) -> (r: (u64, Option<u64>))
{
    let request_ts = tap_timestamp_ms(request, "headers_received_time", "headersReceivedTime");
    let response_ts = tap_timestamp_ms(response, "headers_received_time", "headersReceivedTime");
    let at_ms = match request_ts {
        Some(t) => t,
        None => now_ms,
    };
    let duration_ms = match (request_ts, response_ts) {
        (Some(start), Some(end)) => if end >= start {
            Some(end - start)
        } else {
            None
        },
        _ => None,
    };
    (at_ms, duration_ms)
}

/// A trace timestamp: an RFC 3339 string, or a `{seconds, nanos}` object.
pub fn tap_timestamp_ms(obj: &Vec<(String, Json)>, snake: &str, camel: &str) -> (r: Option<u64>)
{
    let value = match object_get2(obj, snake, camel) {
        Some(v) => v,
        None => {
            return None;
        },
    };
    match value {
        Json::Str(s) => parse_rfc3339_ms_nonneg(s.as_str()),
        Json::Object(m) => {
            let seconds = match object_get2(m, "seconds", "seconds") {
                Some(v) => v.as_i64_like(),
                None => None,
            };
            let seconds = match seconds {
                Some(s) => s,
                None => {
                    return None;
                },
            };
            if seconds < 0 {
                return None;
            }
            let nanos: i64 = {
                let n = match object_get2(m, "nanos", "nanos") {
                    Some(v) => v.as_i64_like(),
                    None => None,
                };
                match n {
                    Some(x) => x,
                    None => 0,
                }
            };
            let ms_from_nanos: i64 = nanos / 1_000_000;
            let scaled: i64 = if seconds > (i64::MAX / 1000) {
                i64::MAX
            } else {
                seconds * 1000
            };
            let millis: i64 = if scaled > i64::MAX - (if ms_from_nanos > 0 {
                ms_from_nanos
            } else {
                0
            }) {
                i64::MAX
            } else if ms_from_nanos >= 0 {
                scaled + ms_from_nanos
            } else {
                scaled
            };
            if millis >= 0 {
                Some(millis as u64)
            } else {
                None
            }
        },
        _ => None,
    }
}

/// Milliseconds of an RFC 3339 timestamp on or after the epoch.
pub fn parse_rfc3339_ms_nonneg(value: &str) -> (r: Option<u64>)
{
    match crate::multiline::parse_rfc3339_to_epoch_millis(value) {
        Some(ms) => if ms >= 0 {
            Some(ms as u64)
        } else {
            None
        },
        None => None,
    }
}

} // verus!
