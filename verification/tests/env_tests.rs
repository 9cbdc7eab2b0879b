use process_dispatcher::env::{
    resolve_http_port, resolve_max_db_connections, EnvParams, DEFAULT_HTTP_PORT,
    DEFAULT_MAX_DB_CONNECTIONS,
};
use process_dispatcher::text::{parse_decimal_u16, parse_decimal_u32};

#[test]
fn env_params_carries_its_fields() {
    let p = EnvParams::new(
        9000,
        25,
        "mysql://mvp".to_string(),
        "mysql://pd".to_string(),
    );
    assert_eq!(p.http_port(), 9000);
    assert_eq!(p.max_db_connections(), 25);
    assert_eq!(p.mvp_db_url(), "mysql://mvp");
    assert_eq!(p.pd_db_url(), "mysql://pd");
}

#[test]
fn port_defaults_when_absent() {
    assert_eq!(resolve_http_port(None), Some(DEFAULT_HTTP_PORT));
    assert_eq!(resolve_http_port(None), Some(8081));
}

#[test]
fn port_parses_when_present() {
    assert_eq!(resolve_http_port(Some("8082")), Some(8082));
    assert_eq!(resolve_http_port(Some("80")), Some(80));
    assert_eq!(resolve_http_port(Some("65535")), Some(65535));
    assert_eq!(resolve_http_port(Some("65536")), None);
    assert_eq!(resolve_http_port(Some("")), None);
    assert_eq!(resolve_http_port(Some("80a")), None);
    assert_eq!(resolve_http_port(Some("-1")), None);
}

#[test]
fn max_connections_defaults_and_parses() {
    assert_eq!(resolve_max_db_connections(None), Some(DEFAULT_MAX_DB_CONNECTIONS));
    assert_eq!(resolve_max_db_connections(None), Some(10));
    assert_eq!(resolve_max_db_connections(Some("3")), Some(3));
    assert_eq!(resolve_max_db_connections(Some("4294967295")), Some(u32::MAX));
    assert_eq!(resolve_max_db_connections(Some("4294967296")), None);
    assert_eq!(resolve_max_db_connections(Some("ten")), None);
}

#[test]
fn decimal_parsers_cover_the_bounds() {
    assert_eq!(parse_decimal_u32("0"), Some(0));
    assert_eq!(parse_decimal_u32("007"), Some(7));
    assert_eq!(parse_decimal_u32("4294967295"), Some(u32::MAX));
    assert_eq!(parse_decimal_u32("4294967296"), None);
    assert_eq!(parse_decimal_u32("99999999999999999999"), None);
    assert_eq!(parse_decimal_u16("65535"), Some(u16::MAX));
    assert_eq!(parse_decimal_u16("65536"), None);
    assert_eq!(parse_decimal_u16("+1"), None);
}
