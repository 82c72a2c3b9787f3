use sanelens::domain::{EntityId, IpAddress, Observation, Socket, Visibility};
use sanelens::json::Json;
use sanelens::observe::{
    build_http_path_parts, normalize_body, observation_from_envoy, parse_envoy_log_line,
    parse_external_entity, parse_ipv4, parse_socket, truncate_body, RuntimeResolver,
};

fn obj(fields: Vec<(&str, Json)>) -> Json {
    Json::Object(
        fields
            .into_iter()
            .map(|(k, v)| (k.to_string(), v))
            .collect(),
    )
}

#[test]
fn access_records_resolve_to_workload_peers() {
    let record = obj(vec![
        ("method", Json::Str("GET".to_string())),
        ("path", Json::Str("/healthz".to_string())),
        ("response_code", Json::UInt(200)),
        ("duration_ms", Json::UInt(3)),
        (
            "downstream_remote_address",
            Json::Str("10.89.0.5:41234".to_string()),
        ),
        ("bytes_received", Json::UInt(0)),
        ("bytes_sent", Json::UInt(11)),
    ]);
    let log = parse_envoy_log_line(&record).expect("object record");
    assert_eq!(log.method.as_deref(), Some("GET"));
    assert_eq!(log.response_code, Some(200));

    let client_ip = match parse_ipv4(&"10.89.0.5".chars().collect()) {
        Some(ip) => ip,
        None => panic!("address did not parse"),
    };
    let resolver = RuntimeResolver {
        ip_map: vec![(
            client_ip,
            EntityId::Workload {
                name: "web".to_string(),
                instance: None,
            },
        )],
    };
    let obs = observation_from_envoy(log, "api", &resolver, false, 777).expect("observation");
    match obs {
        Observation::Http(h) => {
            assert_eq!(h.at_ms, 777);
            assert_eq!(h.status, Some(200));
            assert_eq!(h.attrs.visibility, Visibility::L7Semantics);
            match h.peer.src {
                Some(EntityId::Workload { name, .. }) => assert_eq!(name, "web"),
                other => panic!("unresolved source: {:?}", other),
            }
            match h.peer.dst {
                Some(EntityId::Workload { name, .. }) => assert_eq!(name, "api"),
                other => panic!("wrong destination: {:?}", other),
            }
        }
        Observation::Flow(_) => panic!("an L7 record must become an HTTP observation"),
    }
}

#[test]
fn egress_paths_carry_the_authority() {
    assert_eq!(
        build_http_path_parts(
            Some("/v1/ping".to_string()),
            Some(&"example.com".to_string()),
            None,
            true
        ),
        Some("example.com/v1/ping".to_string())
    );
    assert_eq!(
        build_http_path_parts(Some("/v1/ping".to_string()), None, None, false),
        Some("/v1/ping".to_string())
    );
    match parse_external_entity("example.com:443") {
        Some(EntityId::External { dns_name, .. }) => {
            assert_eq!(dns_name.as_deref(), Some("example.com"));
        }
        other => panic!("expected an external entity, got {:?}", other),
    }
}

#[test]
fn sockets_parse_as_dotted_quads() {
    assert_eq!(
        parse_socket("10.0.0.1:8080"),
        Some(Socket {
            ip: IpAddress::V4(0x0a000001),
            port: 8080
        })
    );
    assert_eq!(parse_socket(""), None);
    assert_eq!(parse_socket("300.0.0.1:80"), None);
    assert_eq!(parse_socket("10.0.0.1"), None);
}

#[test]
fn bodies_crop_at_the_preview_budget() {
    let long = "x".repeat(5000);
    let out = normalize_body(Some(long), None).expect("body kept");
    assert!(out.ends_with("\n... (cropped)"));
    assert!(out.len() < 5000);

    let json_body = "{\"k\":\"".to_string() + &"v".repeat(5000) + "\"}";
    let kept = normalize_body(
        Some(json_body.clone()),
        Some(&"application/json; charset=utf-8".to_string()),
    )
    .expect("json body kept");
    assert_eq!(kept, json_body);

    assert_eq!(normalize_body(Some("-".to_string()), None), None);
    assert_eq!(normalize_body(Some("   ".to_string()), None), None);

    let (prefix, cropped) = truncate_body(&"abcdef".chars().collect(), 3);
    assert!(cropped);
    assert_eq!(prefix, vec!['a', 'b', 'c']);
}

#[test]
fn bracketed_ipv6_sockets_parse() {
    assert_eq!(
        parse_socket("[::1]:8080"),
        Some(Socket {
            ip: IpAddress::V6(1),
            port: 8080
        })
    );
    assert_eq!(
        parse_socket("[2001:db8::2:1]:443"),
        Some(Socket {
            ip: IpAddress::V6(0x2001_0db8_0000_0000_0000_0000_0002_0001),
            port: 443
        })
    );
    assert_eq!(
        parse_socket("[1:2:3:4:5:6:7:8]:1"),
        Some(Socket {
            ip: IpAddress::V6(0x0001_0002_0003_0004_0005_0006_0007_0008),
            port: 1
        })
    );
    assert_eq!(parse_socket("[1::2::3]:1"), None);
    assert_eq!(parse_socket("[:::]:1"), None);
}

#[test]
fn external_entities_cover_names_addresses_and_blanks() {
    match parse_external_entity("1.2.3.4:443") {
        Some(EntityId::External { ip, dns_name }) => {
            assert_eq!(ip, IpAddress::V4(0x01020304));
            assert!(dns_name.is_none());
        }
        other => panic!("expected a literal address, got {:?}", other),
    }
    assert!(parse_external_entity("").is_none());
    assert!(parse_external_entity("  ").is_none());
}
