use sanelens::ports::{guess_protocol, parse_container_port, ProxyProtocol};

#[test]
fn parse_container_port_plain() {
    assert_eq!(parse_container_port("8080"), Some(8080));
    assert_eq!(parse_container_port("8080/tcp"), Some(8080));
}

#[test]
fn parse_container_port_host_mapping() {
    assert_eq!(parse_container_port("127.0.0.1:3000:80"), Some(80));
    assert_eq!(parse_container_port("0.0.0.0:3000:8080/udp"), Some(8080));
}

#[test]
fn parse_container_port_env_defaults() {
    assert_eq!(
        parse_container_port("${HOST_PORT:-8080}:${PORT:-3000}"),
        Some(3000)
    );
    assert_eq!(parse_container_port("${PORT:-3000}"), Some(3000));
    assert_eq!(parse_container_port("${PORT-3000}"), Some(3000));
}

#[test]
fn parse_container_port_ipv6() {
    assert_eq!(parse_container_port("[::1]:3000:80"), Some(80));
    assert_eq!(
        parse_container_port("[::1]:${HOST_PORT:-3000}:${PORT:-80}"),
        Some(80)
    );
}

#[test]
fn parse_container_port_rejects_empty_and_garbage() {
    assert_eq!(parse_container_port(""), None);
    assert_eq!(parse_container_port("   "), None);
    assert_eq!(parse_container_port("abc"), None);
    assert_eq!(parse_container_port("99999"), None);
}

#[test]
fn known_http_ports_guess_http() {
    assert_eq!(guess_protocol(80), ProxyProtocol::Http);
    assert_eq!(guess_protocol(8080), ProxyProtocol::Http);
    assert_eq!(guess_protocol(3000), ProxyProtocol::Http);
    assert_eq!(guess_protocol(5432), ProxyProtocol::Tcp);
    assert_eq!(guess_protocol(6379), ProxyProtocol::Tcp);
}
