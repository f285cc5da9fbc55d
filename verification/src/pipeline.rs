//! The request pipeline: one forwarding decision per inbound request.
//!
//! A request runs through three stages in a fixed order. Admission control
//! reads the client's rate key (absent or unreadable keys exempt the client
//! by design) and asks the rate limiter whether the key's window count has
//! passed the configured maximum; a rejected request gets an exact 429
//! response and never reaches a backend. Peer selection asks the backend
//! pool for the next healthy backend, once per request. Upstream rewriting
//! replaces the outbound `Host` header (and TLS server name) with the
//! configured virtual-host identity, never the backend's raw address.
//!
//! The orchestrator `LB` owns the pool, the limiter and the configured
//! policy values; the surrounding transport hands it plain values (header
//! bytes, the clock) and carries its decisions out.

use vstd::prelude::*;

verus! {

use crate::config::Config;
use crate::parse::{authority_host, authority_port, parse_authority, valid_authority};
use crate::pool::{Backend, BackendPool, HealthStatus, SelectError, scan_from, wrap_next};
use crate::ratelimit::{observe_step, RateLimiter};

/// Why the proxy refuses to start.
#[derive(Clone, Copy, Debug, PartialEq, Eq, Structural)]
pub enum ConfigError {
    /// The backend list is empty.
    NoBackends,
    /// A backend entry is not a valid `address:port` string.
    InvalidBackendAddress,
    /// The listening endpoint is not a valid `address:port` string.
    InvalidListeningEndpoint,
}

/// The exact shape of a rate-limit rejection: HTTP 429 with the three
/// `X-Rate-Limit-*` headers and no connection reuse afterwards.
#[derive(Clone, Copy, Debug, PartialEq, Eq, Structural)]
pub struct RateLimitResponse {
    /// HTTP status; always 429.
    pub status: u16,
    /// `X-Rate-Limit-Limit`: the configured per-window maximum.
    pub limit: u64,
    /// `X-Rate-Limit-Remaining`: always 0 on a rejection.
    pub remaining: u64,
    /// `X-Rate-Limit-Reset`: seconds until the window resets.
    pub reset_secs: u64,
    /// The connection's keep-alive is closed; always true.
    pub close_keepalive: bool,
}

/// The admission verdict for one request.
#[derive(Clone, Copy, Debug, PartialEq, Eq, Structural)]
pub enum Admission {
    /// Forwarding may proceed.
    Admitted,
    /// Stop here and answer with this rate-limit response.
    Rejected(RateLimitResponse),
}

/// The peer one admitted request is forwarded to.
#[derive(Debug)]
pub struct UpstreamPeer {
    /// Host part of the chosen backend's address.
    pub host: String,
    /// Port of the chosen backend.
    pub port: u16,
    /// Whether the upstream connection uses TLS.
    pub tls: bool,
    /// TLS server name: the configured virtual-host identity.
    pub sni: String,
}

/// Where one request's walk through the pipeline ended.
#[derive(Debug)]
pub enum RequestOutcome {
    /// Rate limit exceeded: answer 429, contact no backend.
    Rejected(RateLimitResponse),
    /// No healthy backend: this request fails with a server-side error.
    SelectionFailed(SelectError),
    /// Hand the request to the transport, aimed at this peer, with the
    /// outbound `Host` header overwritten by this value.
    Forwarded(UpstreamPeer, String),
}

/// Ephemeral per-request state: created when a request arrives, discarded
/// once it is answered or forwarded, never shared between requests.
#[derive(Debug)]
pub struct RequestContext {
    /// The client's rate key, when it had a readable one.
    pub rate_key: Option<String>,
    /// The forwarding decision.
    pub outcome: RequestOutcome,
}

/// Bytes an acceptable rate key may hold: printable ASCII.
pub open spec fn visible_ascii(b: Seq<u8>) -> bool {
    forall|i: int| 0 <= i < b.len() ==> 32 <= #[trigger] b[i] <= 126
}

/// The characters of a key, one per byte.
pub open spec fn decoded_key(b: Seq<u8>) -> Seq<char> {
    Seq::new(b.len(), |i: int| b[i] as char)
}

/// Relies on `String::from_utf8`: a buffer of ASCII bytes (every byte below
/// 128) always decodes, to the string holding exactly those bytes as
/// characters, one character per byte.
#[verifier::external_body]
fn ascii_bytes_into_string(v: Vec<u8>) -> (s: String)
    requires
        forall|i: int| 0 <= i < v@.len() ==> v@[i] < 128,
    ensures
        s@.len() == v@.len(),
        forall|i: int| 0 <= i < v@.len() ==> #[trigger] s@[i] == v@[i] as char,
{
    String::from_utf8(v).unwrap_or_default()
}

/// The proxy core: the backend pool, the rate limiter, and the configured
/// policy values, shared by every connection.
pub struct LB {
    /// Backend set and rotation state.
    pub pool: BackendPool,
    /// Per-key tumbling windows.
    pub limiter: RateLimiter,
    /// Largest window count that is still admitted.
    pub max_requests_per_window: u64,
    /// Virtual-host identity written into the outbound `Host` header.
    pub upstream_host: String,
    /// Whether upstream connections use TLS.
    pub upstream_tls: bool,
}

impl LB {
    /// Structural invariant, inherited from the pool and the limiter.
    pub open spec fn wf(self) -> bool {
        &&& self.pool.wf()
        &&& self.limiter.wf()
    }

    /// Everything that never changes after startup: the backend addresses,
    /// the scan bound and the policy values.
    pub open spec fn same_config(pre: LB, post: LB) -> bool {
        &&& post.pool.backends@.len() == pre.pool.backends@.len()
        &&& forall|i: int|
            0 <= i < pre.pool.backends@.len() ==> #[trigger] post.pool.backends@[i].host
                == pre.pool.backends@[i].host && post.pool.backends@[i].port
                == pre.pool.backends@[i].port
        &&& post.pool.attempt_bound == pre.pool.attempt_bound
        &&& post.limiter.window_ms == pre.limiter.window_ms
        &&& post.max_requests_per_window == pre.max_requests_per_window
        &&& post.upstream_host == pre.upstream_host
        &&& post.upstream_tls == pre.upstream_tls
    }

    /// Builds the core from a configuration, or refuses to start: the
    /// backend list must be nonempty and every address, the listening
    /// endpoint included, must parse. Every backend starts out healthy and
    /// rotation starts at the first; the limiter starts empty.
    pub fn new(config: &Config) -> (r: Result<LB, ConfigError>)
        ensures
            r is Ok <==> {
                &&& config.lb_backends@.len() >= 1
                &&& forall|i: int|
                    0 <= i < config.lb_backends@.len() ==> valid_authority(
                        #[trigger] config.lb_backends@[i]@,
                    )
                &&& valid_authority(config.lb_tcp_listening_endpoint@)
            },
            match r {
                Ok(lb) => {
                    &&& lb.wf()
                    &&& lb.pool.backends@.len() == config.lb_backends@.len()
                    &&& forall|i: int|
                        0 <= i < config.lb_backends@.len() ==> {
                            &&& (#[trigger] lb.pool.backends@[i]).host@ == authority_host(
                                config.lb_backends@[i]@,
                            )
                            &&& lb.pool.backends@[i].port == authority_port(
                                config.lb_backends@[i]@,
                            )
                            &&& lb.pool.backends@[i].status is Healthy
                        }
                    &&& lb.pool.cursor == 0
                    &&& lb.pool.attempt_bound == config.select_attempt_bound
                    &&& lb.limiter.window_ms == config.rate_limit_window_ms
                    &&& lb.limiter.entries@.len() == 0
                    &&& lb.max_requests_per_window == config.max_requests_per_window
                    &&& lb.upstream_host == config.upstream_host
                    &&& lb.upstream_tls == config.upstream_tls
                },
                Err(e) => {
                    &&& (e == ConfigError::NoBackends <==> config.lb_backends@.len() == 0)
                    &&& (e == ConfigError::InvalidBackendAddress ==> exists|i: int|
                        0 <= i < config.lb_backends@.len() && !valid_authority(
                            #[trigger] config.lb_backends@[i]@,
                        ))
                    &&& (e == ConfigError::InvalidListeningEndpoint ==> !valid_authority(
                        config.lb_tcp_listening_endpoint@,
                    ))
                },
            },
    {
        let n = config.lb_backends.len();
        if n == 0 {
            return Err(ConfigError::NoBackends);
        }
        let mut backends: Vec<Backend> = Vec::new();
        let mut idx: usize = 0;
        while idx < n
            invariant
                n == config.lb_backends@.len(),
                n >= 1,
                idx <= n,
                backends@.len() == idx,
                forall|i: int|
                    0 <= i < idx ==> valid_authority(#[trigger] config.lb_backends@[i]@),
                forall|i: int|
                    0 <= i < idx ==> {
                        &&& (#[trigger] backends@[i]).host@ == authority_host(
                            config.lb_backends@[i]@,
                        )
                        &&& backends@[i].port == authority_port(config.lb_backends@[i]@)
                        &&& backends@[i].status is Healthy
                    },
            decreases n - idx,
        {
            match parse_authority(config.lb_backends[idx].as_str()) {
                None => {
                    return Err(ConfigError::InvalidBackendAddress);
                },
                Some(hp) => {
                    backends.push(
                        Backend { host: hp.0, port: hp.1, status: HealthStatus::Healthy },
                    );
                },
            }
            idx = idx + 1;
        }
        if parse_authority(config.lb_tcp_listening_endpoint.as_str()).is_none() {
            return Err(ConfigError::InvalidListeningEndpoint);
        }
        Ok(
            LB {
                pool: BackendPool::new(backends, config.select_attempt_bound),
                limiter: RateLimiter::new(config.rate_limit_window_ms),
                max_requests_per_window: config.max_requests_per_window,
                upstream_host: config.upstream_host.clone(),
                upstream_tls: config.upstream_tls,
            },
        )
    }

    /// Reads the client's rate key out of the raw value of the designated
    /// request header: present and printable ASCII gives the key, an absent
    /// or unreadable value gives none — such a client is exempt from rate
    /// limiting rather than failed.
    pub fn get_request_appid(&self, raw: Option<&[u8]>) -> (r: Option<String>)
        ensures
            match raw {
                None => r is None,
                Some(b) => {
                    if visible_ascii(b@) {
                        r matches Some(k) && k@ == decoded_key(b@)
                    } else {
                        r is None
                    }
                },
            },
    {
        match raw {
            None => None,
            Some(b) => {
                let len = b.len();
                let mut i: usize = 0;
                while i < len
                    invariant
                        raw == Some(b),
                        len == b@.len(),
                        i <= len,
                        forall|j: int| 0 <= j < i ==> 32 <= #[trigger] b@[j] <= 126,
                    decreases len - i,
                {
                    let byte = *vstd::slice::slice_index_get(b, i);
                    if byte < 32 || byte > 126 {
                        proof {
                            assert(!visible_ascii(b@)) by {
                                assert(!(32 <= b@[i as int] <= 126));
                            }
                        }
                        return None;
                    }
                    i = i + 1;
                }
                let v = vstd::slice::slice_to_vec(b);
                let s = ascii_bytes_into_string(v);
                proof {
                    assert(s@ =~= decoded_key(b@));
                }
                Some(s)
            },
        }
    }

    /// Admission control. A request without a key is admitted and the
    /// limiter is left alone. A request with a key records one observation;
    /// when the key's window count then exceeds the configured maximum, the
    /// request is rejected with the exact 429 response (limit, remaining 0,
    /// reset after the window's length in seconds, keep-alive closed).
    pub fn request_filter(&mut self, appid: Option<&String>, now_ms: u64) -> (a: Admission)
        requires
            old(self).wf(),
        ensures
            final(self).wf(),
            final(self).pool == old(self).pool,
            LB::same_config(*old(self), *final(self)),
            match appid {
                None => a == Admission::Admitted && final(self).limiter == old(self).limiter,
                Some(k) => {
                    let w = observe_step(
                        old(self).limiter.spec_window(k@),
                        old(self).limiter.window_ms,
                        1,
                        now_ms,
                    );
                    &&& final(self).limiter.spec_window(k@) == Some(w)
                    &&& forall|k2: Seq<char>|
                        k2 != k@ ==> final(self).limiter.spec_window(k2) == old(
                            self,
                        ).limiter.spec_window(k2)
                    &&& if w.count > old(self).max_requests_per_window {
                        a == Admission::Rejected(
                            RateLimitResponse {
                                status: 429,
                                limit: old(self).max_requests_per_window,
                                remaining: 0,
                                reset_secs: old(self).limiter.window_ms / 1000,
                                close_keepalive: true,
                            },
                        )
                    } else {
                        a == Admission::Admitted
                    }
                },
            },
    {
        match appid {
            None => Admission::Admitted,
            Some(k) => {
                let count = self.limiter.observe(k, 1, now_ms);
                if count > self.max_requests_per_window {
                    Admission::Rejected(
                        RateLimitResponse {
                            status: 429,
                            limit: self.max_requests_per_window,
                            remaining: 0,
                            reset_secs: self.limiter.window_ms / 1000,
                            close_keepalive: true,
                        },
                    )
                } else {
                    Admission::Admitted
                }
            },
        }
    }

    /// Peer selection: one bounded round-robin pick per request. On success
    /// the chosen backend's address is handed back together with the
    /// configured TLS and server-name identity; with no healthy backend in
    /// reach the request fails here, and the failure is owed whenever no
    /// backend is healthy at all.
    pub fn upstream_peer(&mut self) -> (r: Result<UpstreamPeer, SelectError>)
        requires
            old(self).wf(),
        ensures
            final(self).wf(),
            final(self).limiter == old(self).limiter,
            final(self).pool.backends@ == old(self).pool.backends@,
            LB::same_config(*old(self), *final(self)),
            match r {
                Ok(peer) => {
                    let pick = scan_from(
                        old(self).pool.backends@,
                        old(self).pool.cursor as int,
                        old(self).pool.attempt_bound as nat,
                    );
                    &&& pick is Some
                    &&& (pick matches Some(i) ==> {
                        &&& peer.host == old(self).pool.backends@[i].host
                        &&& peer.port == old(self).pool.backends@[i].port
                        &&& old(self).pool.backends@[i].status is Healthy
                        &&& final(self).pool.cursor == wrap_next(
                            i,
                            old(self).pool.backends@.len() as int,
                        )
                    })
                    &&& peer.tls == old(self).upstream_tls
                    &&& peer.sni == old(self).upstream_host
                },
                Err(e) => {
                    &&& e == SelectError::NoHealthyBackend
                    &&& scan_from(
                        old(self).pool.backends@,
                        old(self).pool.cursor as int,
                        old(self).pool.attempt_bound as nat,
                    ) is None
                    &&& final(self).pool.cursor == old(self).pool.cursor
                },
            },
            !old(self).pool.some_healthy() ==> r is Err,
            old(self).pool.some_healthy() && old(self).pool.attempt_bound >= old(
                self,
            ).pool.backends@.len() ==> r is Ok,
    {
        match self.pool.select() {
            Ok(i) => {
                let host = self.pool.backend(i).host.clone();
                let port = self.pool.backend(i).port;
                Ok(
                    UpstreamPeer {
                        host,
                        port,
                        tls: self.upstream_tls,
                        sni: self.upstream_host.clone(),
                    },
                )
            },
            Err(e) => Err(e),
        }
    }

    /// Upstream rewrite: the value the outbound `Host` header is
    /// overwritten with before forwarding — always the configured
    /// virtual-host identity, whatever backend was chosen.
    pub fn upstream_request_filter(&self) -> (h: String)
        ensures
            h == self.upstream_host,
    {
        self.upstream_host.clone()
    }

    /// The whole pipeline for one request: admission, then selection, then
    /// rewrite, in that order, with the first refusal cutting the walk
    /// short. A rejected request never touches the backend pool; a request
    /// without a readable key is never rejected; and the selection outcome
    /// follows `upstream_peer`'s contract unchanged.
    pub fn handle_request(&mut self, raw_appid: Option<&[u8]>, now_ms: u64) -> (ctx:
        RequestContext)
        requires
            old(self).wf(),
        ensures
            final(self).wf(),
            LB::same_config(*old(self), *final(self)),
            final(self).pool.backends@ == old(self).pool.backends@,
            // which key the request was billed to
            match raw_appid {
                None => ctx.rate_key is None,
                Some(b) => {
                    if visible_ascii(b@) {
                        ctx.rate_key matches Some(k) && k@ == decoded_key(b@)
                    } else {
                        ctx.rate_key is None
                    }
                },
            },
            // a keyless request is never rejected and never billed
            ctx.rate_key is None ==> final(self).limiter == old(self).limiter && !(ctx.outcome
                is Rejected),
            // admission for a keyed request
            (ctx.rate_key matches Some(k) ==> {
                let w = observe_step(
                    old(self).limiter.spec_window(k@),
                    old(self).limiter.window_ms,
                    1,
                    now_ms,
                );
                &&& final(self).limiter.spec_window(k@) == Some(w)
                &&& forall|k2: Seq<char>|
                    k2 != k@ ==> final(self).limiter.spec_window(k2) == old(
                        self,
                    ).limiter.spec_window(k2)
                &&& (ctx.outcome is Rejected <==> w.count > old(self).max_requests_per_window)
                &&& (ctx.outcome matches RequestOutcome::Rejected(resp) ==> resp
                    == RateLimitResponse {
                    status: 429,
                    limit: old(self).max_requests_per_window,
                    remaining: 0,
                    reset_secs: old(self).limiter.window_ms / 1000,
                    close_keepalive: true,
                })
            }),
            // rejection stops the pipeline: the pool is not touched
            ctx.outcome is Rejected ==> final(self).pool == old(self).pool,
            // selection and rewrite for an admitted request
            !(ctx.outcome is Rejected) ==> match ctx.outcome {
                RequestOutcome::Forwarded(peer, h) => {
                    let pick = scan_from(
                        old(self).pool.backends@,
                        old(self).pool.cursor as int,
                        old(self).pool.attempt_bound as nat,
                    );
                    &&& pick is Some
                    &&& (pick matches Some(i) ==> {
                        &&& peer.host == old(self).pool.backends@[i].host
                        &&& peer.port == old(self).pool.backends@[i].port
                        &&& old(self).pool.backends@[i].status is Healthy
                        &&& final(self).pool.cursor == wrap_next(
                            i,
                            old(self).pool.backends@.len() as int,
                        )
                    })
                    &&& peer.tls == old(self).upstream_tls
                    &&& peer.sni == old(self).upstream_host
                    &&& h == old(self).upstream_host
                },
                RequestOutcome::SelectionFailed(e) => {
                    &&& e == SelectError::NoHealthyBackend
                    &&& scan_from(
                        old(self).pool.backends@,
                        old(self).pool.cursor as int,
                        old(self).pool.attempt_bound as nat,
                    ) is None
                    &&& final(self).pool.cursor == old(self).pool.cursor
                },
                RequestOutcome::Rejected(_) => false,
            },
            // the selection outcome is owed
            !(ctx.outcome is Rejected) && !old(self).pool.some_healthy() ==> ctx.outcome
                is SelectionFailed,
            !(ctx.outcome is Rejected) && old(self).pool.some_healthy() && old(
                self,
            ).pool.attempt_bound >= old(self).pool.backends@.len() ==> ctx.outcome is Forwarded,
    {
        let rate_key = self.get_request_appid(raw_appid);
        let admission = self.request_filter(rate_key.as_ref(), now_ms);
        match admission {
            Admission::Rejected(resp) => RequestContext {
                rate_key,
                outcome: RequestOutcome::Rejected(resp),
            },
            Admission::Admitted => {
                match self.upstream_peer() {
                    Err(e) => RequestContext {
                        rate_key,
                        outcome: RequestOutcome::SelectionFailed(e),
                    },
                    Ok(peer) => {
                        let host_header = self.upstream_request_filter();
                        RequestContext {
                            rate_key,
                            outcome: RequestOutcome::Forwarded(peer, host_header),
                        }
                    },
                }
            },
        }
    }
}

} // verus!
