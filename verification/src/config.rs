//! Startup parameters of the proxy core.

use vstd::prelude::*;

verus! {

/// Parameters the proxy core is built from.
///
/// The backend set and the listening endpoint are `address:port` strings;
/// they are validated when the request pipeline is constructed, and an
/// invalid value is fatal at startup (the constructor refuses it).
pub struct Config {
    /// The fixed set of backend servers, each as an `address:port` string.
    /// At least one entry is required.
    pub lb_backends: Vec<String>,
    /// The `address:port` the proxy listens on.
    pub lb_tcp_listening_endpoint: String,
    /// Virtual-host identity written into the outbound `Host` header
    /// (and used as the TLS server name) in place of the raw backend address.
    pub upstream_host: String,
    /// Whether upstream connections are made over TLS.
    pub upstream_tls: bool,
    /// Interval between two health probes of the same backend, milliseconds.
    pub lb_health_check_frequency_ms: u64,
    /// Duration of one rate-limiting window, milliseconds.
    pub rate_limit_window_ms: u64,
    /// Largest observation count per key and window that is still admitted;
    /// a request that pushes the count above this value is rejected.
    pub max_requests_per_window: u64,
    /// Upper bound on the number of backends one selection call may examine.
    /// Its only role is to cap the scan cost when most backends are unhealthy.
    pub select_attempt_bound: usize,
}

impl Default for Config {
    /// The stock configuration: two public backends, a one-second probe
    /// interval, and a one-second window admitting a single request per key.
    fn default() -> (c: Config)
        ensures
            c.lb_backends@.len() == 2,
            c.lb_backends@[0]@ == "1.1.1.1:443"@,
            c.lb_backends@[1]@ == "1.0.0.1:443"@,
            c.lb_tcp_listening_endpoint@ == "0.0.0.0:6188"@,
            c.upstream_host@ == "one.one.one.one"@,
            c.upstream_tls == true,
            c.lb_health_check_frequency_ms == 1000,
            c.rate_limit_window_ms == 1000,
            c.max_requests_per_window == 1,
            c.select_attempt_bound == 256,
    {
        let mut backends: Vec<String> = Vec::new();
        backends.push("1.1.1.1:443".to_owned());
        backends.push("1.0.0.1:443".to_owned());
        Config {
            lb_backends: backends,
            lb_tcp_listening_endpoint: "0.0.0.0:6188".to_owned(),
            upstream_host: "one.one.one.one".to_owned(),
            upstream_tls: true,
            lb_health_check_frequency_ms: 1000,
            rate_limit_window_ms: 1000,
            max_requests_per_window: 1,
            select_attempt_bound: 256,
        }
    }
}

} // verus!
