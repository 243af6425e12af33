use wasmerang::{extract_dest_port, extract_last_octet, Config, LifeSpan, SetEnvoyFilterStateArguments};

#[test]
fn test_config_parsing() {
    let config = Config::from_bytes(b"istio");
    assert!(config.is_istio);

    let config = Config::from_bytes(b"standalone");
    assert!(!config.is_istio);

    let config = Config::from_bytes(b"");
    assert!(!config.is_istio);
}

#[test]
fn test_config_token_variants() {
    assert!(Config::from_bytes(b"istio-mode").is_istio);
    assert!(Config::from_bytes(b"use-istio-routing").is_istio);
    // the token is case-sensitive
    assert!(!Config::from_bytes(b"Istio").is_istio);
    assert!(!Config::from_bytes(b"ist").is_istio);
    assert!(!Config::from_bytes(b"kubernetes").is_istio);
    assert!(!Config::default().is_istio);
}

#[test]
fn test_config_invalid_utf8() {
    // invalid UTF-8 degrades to empty text, even when the raw bytes hold the token
    let mut bytes = vec![0xFFu8];
    bytes.extend_from_slice(b"istio");
    assert!(!Config::from_bytes(&bytes).is_istio);
    // a valid payload around multi-byte characters still finds the token
    assert!(Config::from_bytes("\u{00e9}istio\u{00e9}".as_bytes()).is_istio);
}

#[test]
fn test_extract_last_octet() {
    assert_eq!(extract_last_octet("1.2.3.4:5678"), Some(4));
    assert_eq!(extract_last_octet("10.244.0.94:33198"), Some(94));
    assert_eq!(extract_last_octet("127.0.0.1"), Some(1));
    assert_eq!(extract_last_octet("[::ffff:192.168.1.100]:8080"), Some(100));
    assert_eq!(extract_last_octet("not-an-ip"), None);
    assert_eq!(extract_last_octet("1.2.3.256"), None);
    assert_eq!(extract_last_octet(""), None);
}

#[test]
fn test_edge_cases_for_ip_parsing() {
    // Valid cases
    assert_eq!(extract_last_octet("192.168.1.1"), Some(1));
    assert_eq!(extract_last_octet("10.0.0.255"), Some(255));
    assert_eq!(extract_last_octet("172.16.1.0"), Some(0));
    assert_eq!(extract_last_octet("192.168.1.42:8080"), Some(42));

    // Edge cases
    assert_eq!(extract_last_octet("192.168.1.256"), None); // > 255
    assert_eq!(extract_last_octet("192.168.1."), None); // empty last octet
    assert_eq!(extract_last_octet("192.168.1"), Some(1)); // no port, valid
    assert_eq!(extract_last_octet("not.an.ip.address"), None); // invalid format
    assert_eq!(extract_last_octet(""), None); // empty string
}

#[test]
fn test_extract_numeral_bounds() {
    // a leading '+' is accepted on the trailing component, as integer parsing has it
    assert_eq!(extract_last_octet("1.2.3.+4"), Some(4));
    assert_eq!(extract_last_octet("1.2.3.++4"), None);
    assert_eq!(extract_last_octet("1.2.3.+"), None);
    // leading zeros are accepted while the value stays in range
    assert_eq!(extract_last_octet("1.2.3.0255"), Some(255));
    assert_eq!(extract_last_octet("1.2.3.00000000007"), Some(7));
    assert_eq!(extract_last_octet("1.2.3.999999999999999999"), None);
    // a lone numeral with no dot or colon is its own trailing component
    assert_eq!(extract_last_octet("127"), Some(127));
}

#[test]
fn test_bare_mapped_ipv6_has_no_octet() {
    // without brackets, everything before the first ':' is the address body,
    // which is empty here, so no octet can be extracted
    assert_eq!(extract_last_octet("::ffff:192.168.1.100"), None);
}

#[test]
fn test_unclosed_bracket() {
    // a bracket that is never closed is a missing delimiter: no value
    assert_eq!(extract_last_octet("[::ffff:1.2.3.4"), None);
    assert_eq!(extract_last_octet("["), None);
    assert_eq!(extract_last_octet("[]"), None);
    assert_eq!(extract_last_octet("[]:8080"), None);
}

#[test]
fn test_extract_dest_port() {
    assert_eq!(extract_dest_port("10.0.0.1:443"), 443);
    assert_eq!(extract_dest_port("10.0.0.1:80"), 80);
    assert_eq!(extract_dest_port("10.0.0.1:8080"), 8080);
    // no usable port defaults to 443
    assert_eq!(extract_dest_port("10.0.0.1"), 443);
    assert_eq!(extract_dest_port("host:"), 443);
    assert_eq!(extract_dest_port("host:port"), 443);
    assert_eq!(extract_dest_port("host:70000"), 443);
}

#[test]
fn test_lifespan_names() {
    assert_eq!(LifeSpan::FilterChain.as_str_name(), "FilterChain");
    assert_eq!(LifeSpan::DownstreamRequest.as_str_name(), "DownstreamRequest");
    assert_eq!(
        LifeSpan::DownstreamConnection.as_str_name(),
        "DownstreamConnection"
    );

    assert_eq!(
        LifeSpan::from_str_name("FilterChain"),
        Some(LifeSpan::FilterChain)
    );
    assert_eq!(
        LifeSpan::from_str_name("DownstreamRequest"),
        Some(LifeSpan::DownstreamRequest)
    );
    assert_eq!(
        LifeSpan::from_str_name("DownstreamConnection"),
        Some(LifeSpan::DownstreamConnection)
    );
    assert_eq!(LifeSpan::from_str_name("filterchain"), None);
    assert_eq!(LifeSpan::from_str_name(""), None);

    assert_eq!(LifeSpan::FilterChain.wire_value(), 0);
    assert_eq!(LifeSpan::DownstreamRequest.wire_value(), 1);
    assert_eq!(LifeSpan::DownstreamConnection.wire_value(), 2);
}

#[test]
fn test_filter_state_directive() {
    let args = SetEnvoyFilterStateArguments::for_cluster("egress-router1".to_string());
    assert_eq!(args.path, "envoy.tcp_proxy.cluster");
    assert_eq!(args.value, "egress-router1");
    assert_eq!(args.span, 0);
}
