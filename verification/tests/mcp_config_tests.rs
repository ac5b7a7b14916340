use sofa_registry::config::McpConfig;

#[test]
fn test_default_config() {
    let cfg = McpConfig::default();
    assert_eq!(cfg.meta_http_url, "http://127.0.0.1:9612");
    assert_eq!(cfg.session_http_url, "http://127.0.0.1:9602");
    assert_eq!(cfg.data_http_url, "http://127.0.0.1:9622");
}

#[test]
fn mcp_config_default_values() {
    let cfg = McpConfig::default();
    assert_eq!(cfg.meta_http_url, "http://127.0.0.1:9612");
    assert_eq!(cfg.session_http_url, "http://127.0.0.1:9602");
    assert_eq!(cfg.data_http_url, "http://127.0.0.1:9622");
}

#[test]
fn mcp_config_custom_values() {
    let cfg = McpConfig {
        meta_http_url: "http://meta:9612".to_string(),
        session_http_url: "http://session:9602".to_string(),
        data_http_url: "http://data:9622".to_string(),
    };
    assert_eq!(cfg.meta_http_url, "http://meta:9612");
    assert_eq!(cfg.session_http_url, "http://session:9602");
    assert_eq!(cfg.data_http_url, "http://data:9622");
}

#[test]
fn mcp_config_clone() {
    let cfg1 = McpConfig::default();
    let cfg2 = cfg1.clone();
    assert_eq!(cfg1.meta_http_url, cfg2.meta_http_url);
    assert_eq!(cfg1.session_http_url, cfg2.session_http_url);
    assert_eq!(cfg1.data_http_url, cfg2.data_http_url);
}

#[test]
fn mcp_config_debug() {
    let cfg = McpConfig::default();
    let dbg = format!("{:?}", cfg);
    assert!(dbg.contains("McpConfig"));
}
