//! Connection settings of the client: ports, base address, credentials and
//! the session token.
use vstd::prelude::*;

verus! {

/// The ports a server listens on.
pub struct PortConfiguration {
    pub web_https_port: u16,
    pub remote_input_socket_port: Option<u16>,
    pub cluster_node_protocol_port: Option<u16>,
    pub cluster_node_load_balancing_port: u16,
    pub web_http_forwarding_port: Option<u16>,
    pub listener_bootstrap_port: u16,
}

impl Default for PortConfiguration {
    fn default() -> (r: Self)
        ensures
            r.web_https_port == 8443,
            r.remote_input_socket_port == Some(10443u16),
            r.cluster_node_protocol_port == Some(11443u16),
            r.cluster_node_load_balancing_port == 6342,
            r.web_http_forwarding_port is None,
            r.listener_bootstrap_port == 0,
    {
        PortConfiguration {
            web_https_port: 8443,
            remote_input_socket_port: Some(10443),
            cluster_node_protocol_port: Some(11443),
            cluster_node_load_balancing_port: 6342,
            web_http_forwarding_port: None,
            listener_bootstrap_port: 0,
        }
    }
}

/// Where the server is, who logs in, and the token of the current session.
pub struct Config {
    pub port_configuration: PortConfiguration,
    pub api_base_url: String,
    pub username: String,
    pub password: String,
    pub token: Option<String>,
}

impl Default for Config {
    fn default() -> (r: Self)
        ensures
            r.port_configuration.web_https_port == 8443,
            r.port_configuration.remote_input_socket_port == Some(10443u16),
            r.port_configuration.cluster_node_protocol_port == Some(11443u16),
            r.port_configuration.cluster_node_load_balancing_port == 6342,
            r.port_configuration.web_http_forwarding_port is None,
            r.port_configuration.listener_bootstrap_port == 0,
            r.api_base_url@ == "https://localhost:8443/nifi-api"@,
            r.username@ == "nifi"@,
            r.password@ == "nifinifinifinifi"@,
            r.token is None,
    {
        Config {
            port_configuration: PortConfiguration::default(),
            api_base_url: "https://localhost:8443/nifi-api".to_owned(),
            username: "nifi".to_owned(),
            password: "nifinifinifinifi".to_owned(),
            token: None,
        }
    }
}

impl Config {
    /// The token of the current session, if logged in.
    pub fn get_token(&self) -> (r: Option<String>)
        ensures
            r == self.token,
    {
        match &self.token {
            Some(t) => Some(t.clone()),
            None => None,
        }
    }

    /// Replaces the session token and returns the new one.
    pub fn set_token(&mut self, token: Option<String>) -> (r: Option<String>)
        ensures
            final(self).token == token,
            r == token,
            final(self).port_configuration == old(self).port_configuration,
            final(self).api_base_url == old(self).api_base_url,
            final(self).username == old(self).username,
            final(self).password == old(self).password,
    {
        self.token = token;
        self.get_token()
    }
}

} // verus!
