use nifi_rs::config::{Config, PortConfiguration};

#[test]
fn default_ports() {
    let p = PortConfiguration::default();
    assert_eq!(p.web_https_port, 8443);
    assert_eq!(p.remote_input_socket_port, Some(10443));
    assert_eq!(p.cluster_node_protocol_port, Some(11443));
    assert_eq!(p.cluster_node_load_balancing_port, 6342);
    assert_eq!(p.web_http_forwarding_port, None);
    assert_eq!(p.listener_bootstrap_port, 0);
}

#[test]
fn default_config_is_logged_out() {
    let c = Config::default();
    assert_eq!(c.api_base_url, "https://localhost:8443/nifi-api");
    assert_eq!(c.username, "nifi");
    assert_eq!(c.get_token(), None);
}

#[test]
fn token_round_trip() {
    let mut c = Config::default();
    assert_eq!(c.set_token(Some("abc".to_string())), Some("abc".to_string()));
    assert_eq!(c.get_token(), Some("abc".to_string()));
    assert_eq!(c.set_token(None), None);
    assert_eq!(c.get_token(), None);
}

