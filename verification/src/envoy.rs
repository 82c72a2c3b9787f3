//! Rendering of the proxy sidecar configurations: one HTTP connection
//! manager (with tap sink and JSON access log) or TCP proxy per published
//! port, plus the single dynamic-forward egress listener.

use vstd::prelude::*;

use crate::ports::ProxyProtocol;
verus! {

/// The text of one HTTP listener block.
pub open spec fn spec_http_listener(
    service_name: Seq<char>,
    app_name: Seq<char>,
    port_text: Seq<char>,
) -> Seq<char> {
    "  - name: "@ + service_name + "_listener_"@ + port_text
            + "\n    address:\n      socket_address:\n        address: 0.0.0.0\n        port_value: "@
            + port_text
            + "\n    filter_chains:\n    - filters:\n      - name: envoy.filters.network.http_connection_manager\n        typed_config:\n          \"@type\": type.googleapis.com/envoy.extensions.filters.network.http_connection_manager.v3.HttpConnectionManager\n          stat_prefix: ingress_http_"@
            + port_text
            + "\n          codec_type: AUTO\n          route_config:\n            name: route_"@
            + port_text
            + "\n            virtual_hosts:\n            - name: backend\n              domains: [\"*\"]\n              routes:\n              - match:\n                  prefix: \"/\"\n                route:\n                  cluster: "@
            + app_name + "_"@ + port_text
            + "\n          http_filters:\n          - name: envoy.filters.http.tap\n            typed_config:\n              \"@type\": type.googleapis.com/envoy.extensions.filters.http.tap.v3.Tap\n              common_config:\n                static_config:\n                  match_config:\n                    any_match: true\n                  output_config:\n                    max_buffered_rx_bytes: 10485760\n                    max_buffered_tx_bytes: 10485760\n                    sinks:\n                    - format: JSON_BODY_AS_STRING\n                      file_per_tap:\n                        path_prefix: /sanelens/tap/trace\n          - name: envoy.filters.http.router\n            typed_config:\n              \"@type\": type.googleapis.com/envoy.extensions.filters.http.router.v3.Router\n          access_log:\n          - name: envoy.access_loggers.stdout\n            typed_config:\n              \"@type\": type.googleapis.com/envoy.extensions.access_loggers.stream.v3.StdoutAccessLog\n              log_format:\n                json_format:\n                  timestamp: \"%START_TIME%\"\n                  method: \"%REQ(:METHOD)%\"\n                  path: \"%REQ(X-ENVOY-ORIGINAL-PATH?:PATH)%\"\n                  protocol: \"%PROTOCOL%\"\n                  response_code: \"%RESPONSE_CODE%\"\n                  duration_ms: \"%DURATION%\"\n                  downstream_remote_address: \"%DOWNSTREAM_REMOTE_ADDRESS%\"\n                  upstream_host: \"%UPSTREAM_HOST%\"\n                  bytes_received: \"%BYTES_RECEIVED%\"\n                  bytes_sent: \"%BYTES_SENT%\"\n                  request_id: \"%REQ(X-REQUEST-ID)%\"\n                  request_user_agent: \"%REQ(USER-AGENT)%\"\n                  request_content_type: \"%REQ(CONTENT-TYPE)%\"\n                  request_accept: \"%REQ(ACCEPT)%\"\n                  request_body: \"%DYNAMIC_METADATA(sanelens:request_body)%\"\n                  request_forwarded_for: \"%REQ(X-FORWARDED-FOR)%\"\n                  request_forwarded_proto: \"%REQ(X-FORWARDED-PROTO)%\"\n                  response_content_type: \"%RESP(CONTENT-TYPE)%\"\n                  response_content_length: \"%RESP(CONTENT-LENGTH)%\"\n                  response_body: \"%DYNAMIC_METADATA(sanelens:response_body)%\"\n"@
}

/// The text of one TCP listener block.
pub open spec fn spec_tcp_listener(
    service_name: Seq<char>,
    app_name: Seq<char>,
    port_text: Seq<char>,
) -> Seq<char> {
    "  - name: "@ + service_name + "_tcp_listener_"@ + port_text
            + "\n    address:\n      socket_address:\n        address: 0.0.0.0\n        port_value: "@
            + port_text
            + "\n    filter_chains:\n    - filters:\n      - name: envoy.filters.network.tcp_proxy\n        typed_config:\n          \"@type\": type.googleapis.com/envoy.extensions.filters.network.tcp_proxy.v3.TcpProxy\n          stat_prefix: tcp_"@
            + port_text + "\n          cluster: "@ + app_name + "_"@ + port_text
            + "\n          access_log:\n          - name: envoy.access_loggers.stdout\n            typed_config:\n              \"@type\": type.googleapis.com/envoy.extensions.access_loggers.stream.v3.StdoutAccessLog\n              log_format:\n                json_format:\n                  timestamp: \"%START_TIME%\"\n                  duration_ms: \"%DURATION%\"\n                  downstream_remote_address: \"%DOWNSTREAM_REMOTE_ADDRESS%\"\n                  upstream_host: \"%UPSTREAM_HOST%\"\n                  bytes_received: \"%BYTES_RECEIVED%\"\n                  bytes_sent: \"%BYTES_SENT%\"\n"@
}

/// The text of one cluster block.
pub open spec fn spec_cluster(app_name: Seq<char>, port_text: Seq<char>) -> Seq<char> {
    "  - name: "@ + app_name + "_"@ + port_text
            + "\n    connect_timeout: 2s\n    type: STRICT_DNS\n    lb_policy: ROUND_ROBIN\n    load_assignment:\n      cluster_name: "@
            + app_name + "_"@ + port_text
            + "\n      endpoints:\n      - lb_endpoints:\n        - endpoint:\n            address:\n              socket_address:\n                address: "@
            + app_name + "\n                port_value: "@ + port_text + "\n"@
}

/// The text of one listener block, by the port's protocol.
pub open spec fn spec_listener_text(
    service_name: Seq<char>,
    app_name: Seq<char>,
    port_text: Seq<char>,
    mode: ProxyProtocol,
) -> Seq<char> {
    match mode {
        ProxyProtocol::Http => spec_http_listener(service_name, app_name, port_text),
        ProxyProtocol::Tcp => spec_tcp_listener(service_name, app_name, port_text),
    }
}

/// The first `n` listener blocks, in port order.
pub open spec fn listeners_cat_to(
    service_name: Seq<char>,
    app_name: Seq<char>,
    modes: Seq<(u16, ProxyProtocol)>,
    texts: Seq<Seq<char>>,
    n: int,
) -> Seq<char>
    decreases n,
{
    if n <= 0 {
        Seq::empty()
    } else {
        listeners_cat_to(service_name, app_name, modes, texts, n - 1) + spec_listener_text(
            service_name,
            app_name,
            texts[n - 1],
            modes[n - 1].1,
        )
    }
}

/// The first `n` cluster blocks, in port order.
pub open spec fn clusters_cat_to(
    app_name: Seq<char>,
    texts: Seq<Seq<char>>,
    n: int,
) -> Seq<char>
    decreases n,
{
    if n <= 0 {
        Seq::empty()
    } else {
        clusters_cat_to(app_name, texts, n - 1) + spec_cluster(app_name, texts[n - 1])
    }
}


/// One HTTP listener: terminates the published port, routes everything to
/// the app's cluster, taps request and response bodies, and logs each call
/// as one JSON line.
pub fn http_listener_block(service_name: &str, app_name: &str, port_text: &str) -> (r: String)
    ensures
        r@ == spec_http_listener(service_name@, app_name@, port_text@),
{
    let mut s = "  - name: ".to_owned();
    s.append(service_name);
    s.append("_listener_");
    s.append(port_text);
    s.append(
        "\n    address:\n      socket_address:\n        address: 0.0.0.0\n        port_value: ",
    );
    s.append(port_text);
    s.append(
        "\n    filter_chains:\n    - filters:\n      - name: envoy.filters.network.http_connection_manager\n        typed_config:\n          \"@type\": type.googleapis.com/envoy.extensions.filters.network.http_connection_manager.v3.HttpConnectionManager\n          stat_prefix: ingress_http_",
    );
    s.append(port_text);
    s.append("\n          codec_type: AUTO\n          route_config:\n            name: route_");
    s.append(port_text);
    s.append(
        "\n            virtual_hosts:\n            - name: backend\n              domains: [\"*\"]\n              routes:\n              - match:\n                  prefix: \"/\"\n                route:\n                  cluster: ",
    );
    s.append(app_name);
    s.append("_");
    s.append(port_text);
    s.append(
        "\n          http_filters:\n          - name: envoy.filters.http.tap\n            typed_config:\n              \"@type\": type.googleapis.com/envoy.extensions.filters.http.tap.v3.Tap\n              common_config:\n                static_config:\n                  match_config:\n                    any_match: true\n                  output_config:\n                    max_buffered_rx_bytes: 10485760\n                    max_buffered_tx_bytes: 10485760\n                    sinks:\n                    - format: JSON_BODY_AS_STRING\n                      file_per_tap:\n                        path_prefix: /sanelens/tap/trace\n          - name: envoy.filters.http.router\n            typed_config:\n              \"@type\": type.googleapis.com/envoy.extensions.filters.http.router.v3.Router\n          access_log:\n          - name: envoy.access_loggers.stdout\n            typed_config:\n              \"@type\": type.googleapis.com/envoy.extensions.access_loggers.stream.v3.StdoutAccessLog\n              log_format:\n                json_format:\n                  timestamp: \"%START_TIME%\"\n                  method: \"%REQ(:METHOD)%\"\n                  path: \"%REQ(X-ENVOY-ORIGINAL-PATH?:PATH)%\"\n                  protocol: \"%PROTOCOL%\"\n                  response_code: \"%RESPONSE_CODE%\"\n                  duration_ms: \"%DURATION%\"\n                  downstream_remote_address: \"%DOWNSTREAM_REMOTE_ADDRESS%\"\n                  upstream_host: \"%UPSTREAM_HOST%\"\n                  bytes_received: \"%BYTES_RECEIVED%\"\n                  bytes_sent: \"%BYTES_SENT%\"\n                  request_id: \"%REQ(X-REQUEST-ID)%\"\n                  request_user_agent: \"%REQ(USER-AGENT)%\"\n                  request_content_type: \"%REQ(CONTENT-TYPE)%\"\n                  request_accept: \"%REQ(ACCEPT)%\"\n                  request_body: \"%DYNAMIC_METADATA(sanelens:request_body)%\"\n                  request_forwarded_for: \"%REQ(X-FORWARDED-FOR)%\"\n                  request_forwarded_proto: \"%REQ(X-FORWARDED-PROTO)%\"\n                  response_content_type: \"%RESP(CONTENT-TYPE)%\"\n                  response_content_length: \"%RESP(CONTENT-LENGTH)%\"\n                  response_body: \"%DYNAMIC_METADATA(sanelens:response_body)%\"\n",
    );
    s
}

/// One TCP proxy listener with a JSON access log; no bodies are collected.
pub fn tcp_listener_block(service_name: &str, app_name: &str, port_text: &str) -> (r: String)
    ensures
        r@ == spec_tcp_listener(service_name@, app_name@, port_text@),
{
    let mut s = "  - name: ".to_owned();
    s.append(service_name);
    s.append("_tcp_listener_");
    s.append(port_text);
    s.append(
        "\n    address:\n      socket_address:\n        address: 0.0.0.0\n        port_value: ",
    );
    s.append(port_text);
    s.append(
        "\n    filter_chains:\n    - filters:\n      - name: envoy.filters.network.tcp_proxy\n        typed_config:\n          \"@type\": type.googleapis.com/envoy.extensions.filters.network.tcp_proxy.v3.TcpProxy\n          stat_prefix: tcp_",
    );
    s.append(port_text);
    s.append("\n          cluster: ");
    s.append(app_name);
    s.append("_");
    s.append(port_text);
    s.append(
        "\n          access_log:\n          - name: envoy.access_loggers.stdout\n            typed_config:\n              \"@type\": type.googleapis.com/envoy.extensions.access_loggers.stream.v3.StdoutAccessLog\n              log_format:\n                json_format:\n                  timestamp: \"%START_TIME%\"\n                  duration_ms: \"%DURATION%\"\n                  downstream_remote_address: \"%DOWNSTREAM_REMOTE_ADDRESS%\"\n                  upstream_host: \"%UPSTREAM_HOST%\"\n                  bytes_received: \"%BYTES_RECEIVED%\"\n                  bytes_sent: \"%BYTES_SENT%\"\n",
    );
    s
}

/// One cluster reaching the app variant by its DNS name on one port.
pub fn cluster_block(app_name: &str, port_text: &str) -> (r: String)
    ensures
        r@ == spec_cluster(app_name@, port_text@),
{
    let mut s = "  - name: ".to_owned();
    s.append(app_name);
    s.append("_");
    s.append(port_text);
    s.append(
        "\n    connect_timeout: 2s\n    type: STRICT_DNS\n    lb_policy: ROUND_ROBIN\n    load_assignment:\n      cluster_name: ",
    );
    s.append(app_name);
    s.append("_");
    s.append(port_text);
    s.append(
        "\n      endpoints:\n      - lb_endpoints:\n        - endpoint:\n            address:\n              socket_address:\n                address: ",
    );
    s.append(app_name);
    s.append("\n                port_value: ");
    s.append(port_text);
    s.append("\n");
    s
}

/// The full sidecar configuration for one proxied service: a listener per
/// port (HTTP or TCP by its mode), a cluster per port, and the admin block.
pub fn render_envoy_config(
    service_name: &str,
    app_name: &str,
    modes: &Vec<(u16, ProxyProtocol)>,
) -> (r: String)
    ensures
        crate::strings::has_prefix(r@, "static_resources:\n  listeners:\n"@),
        exists|lt: Seq<Seq<char>>, ct: Seq<Seq<char>>|
            {
                &&& lt.len() == modes@.len()
                &&& ct.len() == modes@.len()
                &&& (forall|k: int|
                    0 <= k < modes@.len() ==> crate::session::dec_text(
                        #[trigger] lt[k],
                        (#[trigger] modes@[k]).0 as int,
                    ) && crate::session::dec_text(ct[k], modes@[k].0 as int))
                &&& r@ == "static_resources:\n  listeners:\n"@ + listeners_cat_to(
                    service_name@,
                    app_name@,
                    modes@,
                    lt,
                    modes@.len() as int,
                ) + "  clusters:\n"@ + clusters_cat_to(app_name@, ct, modes@.len() as int)
                    + "admin:\n  access_log_path: /tmp/envoy_admin.log\n  address:\n    socket_address:\n      address: 0.0.0.0\n      port_value: 9901\n"@
            },
{
    let mut body = "static_resources:\n  listeners:\n".to_owned();
    let ghost head = body@;
    let ghost mut lt: Seq<Seq<char>> = Seq::empty();
    proof {
        assert(body@.subrange(0, head.len() as int) =~= head);
        assert(body@ =~= head + listeners_cat_to(service_name@, app_name@, modes@, lt, 0));
    }
    let mut i: usize = 0;
    while i < modes.len()
        invariant
            i <= modes@.len(),
            crate::strings::has_prefix(body@, head),
            head == "static_resources:\n  listeners:\n"@,
            lt.len() == i,
            forall|k: int|
                0 <= k < i ==> crate::session::dec_text(
                    #[trigger] lt[k],
                    (#[trigger] modes@[k]).0 as int,
                ),
            body@ == head + listeners_cat_to(service_name@, app_name@, modes@, lt, i as int),
        decreases modes@.len() - i,
    {
        let (port, mode) = modes[i];
        let text = crate::strings::u64_dec_string(port as u64);
        let block = match mode {
            ProxyProtocol::Http => http_listener_block(service_name, app_name, text.as_str()),
            ProxyProtocol::Tcp => tcp_listener_block(service_name, app_name, text.as_str()),
        };
        let ghost before = body@;
        body.append(block.as_str());
        proof {
            let ct_pre = lt;
            lt = lt.push(text@);
            lemma_cat_to_congruent(service_name@, app_name@, modes@, lt, ct_pre, i as int);
            assert(listeners_cat_to(service_name@, app_name@, modes@, lt, i + 1)
                =~= listeners_cat_to(service_name@, app_name@, modes@, lt, i as int) + block@);
            assert(body@ =~= before + block@);
            assert(body@ =~= head + listeners_cat_to(
                service_name@,
                app_name@,
                modes@,
                lt,
                i + 1,
            ));
            assert(body@.subrange(0, head.len() as int) =~= before.subrange(
                0,
                head.len() as int,
            ));
        }
        i = i + 1;
    }
    let ghost l_full = listeners_cat_to(service_name@, app_name@, modes@, lt, modes@.len() as int);
    body.append("  clusters:\n");
    let ghost mid = body@;
    let ghost mut ct: Seq<Seq<char>> = Seq::empty();
    proof {
        assert(body@.subrange(0, head.len() as int) =~= head);
        assert(body@ =~= head + l_full + "  clusters:\n"@);
        assert(body@ =~= head + l_full + "  clusters:\n"@ + clusters_cat_to(app_name@, ct, 0));
    }
    let mut j: usize = 0;
    while j < modes.len()
        invariant
            j <= modes@.len(),
            crate::strings::has_prefix(body@, head),
            head == "static_resources:\n  listeners:\n"@,
            ct.len() == j,
            forall|k: int|
                0 <= k < j ==> crate::session::dec_text(
                    #[trigger] ct[k],
                    (#[trigger] modes@[k]).0 as int,
                ),
            body@ == head + l_full + "  clusters:\n"@ + clusters_cat_to(app_name@, ct, j as int),
        decreases modes@.len() - j,
    {
        let (port, _) = modes[j];
        let text = crate::strings::u64_dec_string(port as u64);
        let block = cluster_block(app_name, text.as_str());
        let ghost before = body@;
        body.append(block.as_str());
        proof {
            let ct_pre = ct;
            ct = ct.push(text@);
            lemma_clusters_cat_congruent(app_name@, ct, ct_pre, j as int);
            assert(clusters_cat_to(app_name@, ct, j + 1) =~= clusters_cat_to(
                app_name@,
                ct,
                j as int,
            ) + block@);
            assert(body@ =~= before + block@);
            assert(body@ =~= head + l_full + "  clusters:\n"@ + clusters_cat_to(
                app_name@,
                ct,
                j + 1,
            ));
            assert(body@.subrange(0, head.len() as int) =~= before.subrange(
                0,
                head.len() as int,
            ));
        }
        j = j + 1;
    }
    body.append(
        "admin:\n  access_log_path: /tmp/envoy_admin.log\n  address:\n    socket_address:\n      address: 0.0.0.0\n      port_value: 9901\n",
    );
    proof {
        assert(body@.subrange(0, head.len() as int) =~= head);
        assert(body@ =~= head + l_full + "  clusters:\n"@ + clusters_cat_to(
            app_name@,
            ct,
            modes@.len() as int,
        )
            + "admin:\n  access_log_path: /tmp/envoy_admin.log\n  address:\n    socket_address:\n      address: 0.0.0.0\n      port_value: 9901\n"@);
    }
    body
}

/// The listener concatenation reads only the first `n` texts.
proof fn lemma_cat_to_congruent(
    service_name: Seq<char>,
    app_name: Seq<char>,
    modes: Seq<(u16, ProxyProtocol)>,
    a: Seq<Seq<char>>,
    b: Seq<Seq<char>>,
    n: int,
)
    requires
        forall|k: int| 0 <= k < n ==> #[trigger] a[k] == b[k],
    ensures
        listeners_cat_to(service_name, app_name, modes, a, n) == listeners_cat_to(
            service_name,
            app_name,
            modes,
            b,
            n,
        ),
    decreases n,
{
    if n > 0 {
        lemma_cat_to_congruent(service_name, app_name, modes, a, b, n - 1);
    }
}

/// The cluster concatenation reads only the first `n` texts.
proof fn lemma_clusters_cat_congruent(
    app_name: Seq<char>,
    a: Seq<Seq<char>>,
    b: Seq<Seq<char>>,
    n: int,
)
    requires
        forall|k: int| 0 <= k < n ==> #[trigger] a[k] == b[k],
    ensures
        clusters_cat_to(app_name, a, n) == clusters_cat_to(app_name, b, n),
    decreases n,
{
    if n > 0 {
        lemma_clusters_cat_congruent(app_name, a, b, n - 1);
    }
}

/// The egress proxy configuration: one dynamic-forward-proxy HTTP listener
/// with tap sink and JSON access log, and its companion cluster.
pub fn egress_envoy_config() -> (r: String)
    ensures
        r@ == "static_resources:\n  listeners:\n"@ + "  - name: egress_listener\n    address:\n      socket_address:\n        address: 0.0.0.0\n        port_value: 15001\n    filter_chains:\n    - filters:\n      - name: envoy.filters.network.http_connection_manager\n        typed_config:\n          \"@type\": type.googleapis.com/envoy.extensions.filters.network.http_connection_manager.v3.HttpConnectionManager\n          stat_prefix: egress_http\n          route_config:\n            name: egress_route\n            virtual_hosts:\n            - name: default\n              domains: [\"*\"]\n              routes:\n              - match:\n                  prefix: \"/\"\n                route:\n                  cluster: egress_cluster\n                  timeout: 0s\n          http_filters:\n          - name: envoy.filters.http.dynamic_forward_proxy\n            typed_config:\n              \"@type\": type.googleapis.com/envoy.extensions.filters.http.dynamic_forward_proxy.v3.FilterConfig\n              dns_cache_config:\n                name: egress_cache\n                dns_lookup_family: V4_ONLY\n          - name: envoy.filters.http.tap\n            typed_config:\n              \"@type\": type.googleapis.com/envoy.extensions.filters.http.tap.v3.Tap\n              common_config:\n                static_config:\n                  match_config:\n                    any_match: true\n                  output_config:\n                    max_buffered_rx_bytes: 10485760\n                    max_buffered_tx_bytes: 10485760\n                    sinks:\n                    - format: JSON_BODY_AS_STRING\n                      file_per_tap:\n                        path_prefix: /sanelens/tap/trace\n          - name: envoy.filters.http.router\n            typed_config:\n              \"@type\": type.googleapis.com/envoy.extensions.filters.http.router.v3.Router\n          access_log:\n          - name: envoy.access_loggers.stdout\n            typed_config:\n              \"@type\": type.googleapis.com/envoy.extensions.access_loggers.stream.v3.StdoutAccessLog\n              log_format:\n                json_format:\n                  timestamp: \"%START_TIME%\"\n                  method: \"%REQ(:METHOD)%\"\n                  path: \"%REQ(X-ENVOY-ORIGINAL-PATH?:PATH)%\"\n                  authority: \"%REQ(:AUTHORITY)%\"\n                  request_id: \"%REQ(X-REQUEST-ID)%\"\n                  request_user_agent: \"%REQ(USER-AGENT)%\"\n                  request_content_type: \"%REQ(CONTENT-TYPE)%\"\n                  request_accept: \"%REQ(ACCEPT)%\"\n                  request_body: \"%DYNAMIC_METADATA(sanelens:request_body)%\"\n                  request_forwarded_for: \"%REQ(X-FORWARDED-FOR)%\"\n                  request_forwarded_proto: \"%REQ(X-FORWARDED-PROTO)%\"\n                  response_content_type: \"%RESP(CONTENT-TYPE)%\"\n                  response_content_length: \"%RESP(CONTENT-LENGTH)%\"\n                  response_body: \"%DYNAMIC_METADATA(sanelens:response_body)%\"\n                  response_code: \"%RESPONSE_CODE%\"\n                  duration_ms: \"%DURATION%\"\n                  downstream_remote_address: \"%DOWNSTREAM_REMOTE_ADDRESS%\"\n                  upstream_host: \"%UPSTREAM_HOST%\"\n                  bytes_received: \"%BYTES_RECEIVED%\"\n                  bytes_sent: \"%BYTES_SENT%\"\n  clusters:\n  - name: egress_cluster\n    connect_timeout: 5s\n    lb_policy: CLUSTER_PROVIDED\n    cluster_type:\n      name: envoy.clusters.dynamic_forward_proxy\n      typed_config:\n        \"@type\": type.googleapis.com/envoy.extensions.clusters.dynamic_forward_proxy.v3.ClusterConfig\n        dns_cache_config:\n          name: egress_cache\n          dns_lookup_family: V4_ONLY\nadmin:\n  access_log_path: /tmp/envoy_admin.log\n  address:\n    socket_address:\n      address: 0.0.0.0\n      port_value: 9901\n"@,
    {
    let mut s = "static_resources:\n  listeners:\n".to_owned();
    let ghost head = s@;
    s.append(
        "  - name: egress_listener\n    address:\n      socket_address:\n        address: 0.0.0.0\n        port_value: 15001\n    filter_chains:\n    - filters:\n      - name: envoy.filters.network.http_connection_manager\n        typed_config:\n          \"@type\": type.googleapis.com/envoy.extensions.filters.network.http_connection_manager.v3.HttpConnectionManager\n          stat_prefix: egress_http\n          route_config:\n            name: egress_route\n            virtual_hosts:\n            - name: default\n              domains: [\"*\"]\n              routes:\n              - match:\n                  prefix: \"/\"\n                route:\n                  cluster: egress_cluster\n                  timeout: 0s\n          http_filters:\n          - name: envoy.filters.http.dynamic_forward_proxy\n            typed_config:\n              \"@type\": type.googleapis.com/envoy.extensions.filters.http.dynamic_forward_proxy.v3.FilterConfig\n              dns_cache_config:\n                name: egress_cache\n                dns_lookup_family: V4_ONLY\n          - name: envoy.filters.http.tap\n            typed_config:\n              \"@type\": type.googleapis.com/envoy.extensions.filters.http.tap.v3.Tap\n              common_config:\n                static_config:\n                  match_config:\n                    any_match: true\n                  output_config:\n                    max_buffered_rx_bytes: 10485760\n                    max_buffered_tx_bytes: 10485760\n                    sinks:\n                    - format: JSON_BODY_AS_STRING\n                      file_per_tap:\n                        path_prefix: /sanelens/tap/trace\n          - name: envoy.filters.http.router\n            typed_config:\n              \"@type\": type.googleapis.com/envoy.extensions.filters.http.router.v3.Router\n          access_log:\n          - name: envoy.access_loggers.stdout\n            typed_config:\n              \"@type\": type.googleapis.com/envoy.extensions.access_loggers.stream.v3.StdoutAccessLog\n              log_format:\n                json_format:\n                  timestamp: \"%START_TIME%\"\n                  method: \"%REQ(:METHOD)%\"\n                  path: \"%REQ(X-ENVOY-ORIGINAL-PATH?:PATH)%\"\n                  authority: \"%REQ(:AUTHORITY)%\"\n                  request_id: \"%REQ(X-REQUEST-ID)%\"\n                  request_user_agent: \"%REQ(USER-AGENT)%\"\n                  request_content_type: \"%REQ(CONTENT-TYPE)%\"\n                  request_accept: \"%REQ(ACCEPT)%\"\n                  request_body: \"%DYNAMIC_METADATA(sanelens:request_body)%\"\n                  request_forwarded_for: \"%REQ(X-FORWARDED-FOR)%\"\n                  request_forwarded_proto: \"%REQ(X-FORWARDED-PROTO)%\"\n                  response_content_type: \"%RESP(CONTENT-TYPE)%\"\n                  response_content_length: \"%RESP(CONTENT-LENGTH)%\"\n                  response_body: \"%DYNAMIC_METADATA(sanelens:response_body)%\"\n                  response_code: \"%RESPONSE_CODE%\"\n                  duration_ms: \"%DURATION%\"\n                  downstream_remote_address: \"%DOWNSTREAM_REMOTE_ADDRESS%\"\n                  upstream_host: \"%UPSTREAM_HOST%\"\n                  bytes_received: \"%BYTES_RECEIVED%\"\n                  bytes_sent: \"%BYTES_SENT%\"\n  clusters:\n  - name: egress_cluster\n    connect_timeout: 5s\n    lb_policy: CLUSTER_PROVIDED\n    cluster_type:\n      name: envoy.clusters.dynamic_forward_proxy\n      typed_config:\n        \"@type\": type.googleapis.com/envoy.extensions.clusters.dynamic_forward_proxy.v3.ClusterConfig\n        dns_cache_config:\n          name: egress_cache\n          dns_lookup_family: V4_ONLY\nadmin:\n  access_log_path: /tmp/envoy_admin.log\n  address:\n    socket_address:\n      address: 0.0.0.0\n      port_value: 9901\n",
    );
    proof {
        assert(s@.subrange(0, head.len() as int) =~= head);
    }
    s
}

} // verus!
