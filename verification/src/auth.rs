//! Inbound service authentication and rate limiting.
//!
//! Every protected request passes through [`ServiceAuthConfig::evaluate_request`]
//! before any business logic: the shared service key is compared in
//! constant time, and callers are held to a fixed-window request budget.
//! The filter fails closed: a missing header, an unreadable header, a wrong
//! key, or an exhausted window each yield a rejection.

use vstd::prelude::*;

use subtle::ConstantTimeEq;

verus! {

/// The header value as the transport layer saw it: absent, not readable as
/// text, or its text.
pub enum HeaderInput {
    /// No such header on the request.
    Missing,
    /// The header was present but its bytes were not readable text.
    Unreadable,
    /// The header's text.
    Token(String),
}

/// The filter's verdict on one request.
#[derive(PartialEq, Eq, Structural, Debug, Clone, Copy)]
pub enum AuthDecision {
    /// No credential was presented.
    Unauthorized,
    /// The credential was not readable text.
    BadRequest,
    /// The credential did not match the shared service key.
    Forbidden,
    /// The caller exhausted its fixed-window request budget.
    TooManyRequests,
    /// The request may proceed to business logic.
    Allow,
}

impl AuthDecision {
    /// The HTTP status code the filter answers with; `200` stands for a
    /// request that passes through.
    pub fn status_code(&self) -> (r: u16)
        ensures
            r == match self {
                AuthDecision::Unauthorized => 401u16,
                AuthDecision::BadRequest => 400u16,
                AuthDecision::Forbidden => 403u16,
                AuthDecision::TooManyRequests => 429u16,
                AuthDecision::Allow => 200u16,
            },
    {
        match self {
            AuthDecision::Unauthorized => 401,
            AuthDecision::BadRequest => 400,
            AuthDecision::Forbidden => 403,
            AuthDecision::TooManyRequests => 429,
            AuthDecision::Allow => 200,
        }
    }
}

/// Per-caller counter state of the fixed-window rate limiter.
#[derive(Debug, Clone, Copy)]
pub struct RateCounter {
    /// Requests granted since the window started.
    pub count: u32,
    /// When the current window started, in the limiter's clock seconds.
    pub window_start: u64,
}

impl RateCounter {
    /// A fresh counter whose window starts now.
    pub fn new(now_secs: u64) -> (r: RateCounter)
        ensures
            r.count == 0,
            r.window_start == now_secs,
    {
        RateCounter { count: 0, window_start: now_secs }
    }
}

/// The request budget of the rate limiter: at most `max_requests` per
/// `window_secs`-second fixed window.
#[derive(Debug, Clone)]
pub struct ServiceRateLimit {
    /// Requests granted per window.
    pub max_requests: u32,
    /// Window length in seconds.
    pub window_secs: u64,
}

/// Configuration of the service authentication filter.
#[derive(Debug, Clone)]
pub struct ServiceAuthConfig {
    service_key: String,
    header_name: String,
    rate_limit: ServiceRateLimit,
    service_name: String,
}

/// Whether HTTP accepts the text as a header name; the parser's verdict
/// depends on the text alone.
pub uninterp spec fn header_name_wf(name: Seq<char>) -> bool;

/// The normalized, lower-case form of a valid header name.
pub uninterp spec fn header_name_norm(name: Seq<char>) -> Seq<char>;

/// Relies on actix-web's `HeaderName::try_from` (the `http` crate's
/// table-driven parser): `Ok` exactly when the text is a syntactically
/// valid header name, normalized to lower case; a pure function of the
/// text, and it never panics.
#[verifier::external_body]
fn parse_header_name(name: &str) -> (r: Result<String, String>)
    ensures
        r is Ok <==> header_name_wf(name@),
        r matches Ok(n) ==> n@ == header_name_norm(name@),
{
    match actix_web::http::header::HeaderName::try_from(name) {
        Ok(h) => Ok(h.as_str().to_string()),
        Err(e) => Err(format!("{}", e)),
    }
}

/// Relies on `subtle`'s `ConstantTimeEq` for byte slices: the result is
/// equality of the two byte strings, computed in time independent of the
/// position of the first mismatch.  Equal UTF-8 bytes mean equal text.
#[verifier::external_body]
fn ct_str_eq(a: &str, b: &str) -> (r: bool)
    ensures
        r == (a@ == b@),
{
    a.as_bytes().ct_eq(b.as_bytes()).unwrap_u8() == 1
}

impl ServiceAuthConfig {
    /// The shared service key.
    pub closed spec fn spec_key(&self) -> Seq<char> {
        self.service_key@
    }

    /// The configured header name.
    pub closed spec fn spec_header_name(&self) -> Seq<char> {
        self.header_name@
    }

    /// The configured caller identity label.
    pub closed spec fn spec_service_name(&self) -> Seq<char> {
        self.service_name@
    }

    /// The configured budget.
    pub closed spec fn spec_rate_limit(&self) -> ServiceRateLimit {
        self.rate_limit
    }

    /// A fresh configuration: the given shared key and identity label, the
    /// default header name `x-service-key`, and a budget of 1000 requests
    /// per 60 seconds.
    pub fn new(service_key: String, service_name: &str) -> (r: ServiceAuthConfig)
        ensures
            r.spec_key() == service_key@,
            r.spec_header_name() == "x-service-key"@,
            r.spec_service_name() == service_name@,
            r.spec_rate_limit().max_requests == 1000,
            r.spec_rate_limit().window_secs == 60,
    {
        ServiceAuthConfig {
            service_key,
            header_name: String::from_str("x-service-key"),
            rate_limit: ServiceRateLimit { max_requests: 1000, window_secs: 60 },
            service_name: String::from_str(service_name),
        }
    }

    /// The same configuration under another header name.  A text that is
    /// not a syntactically valid HTTP header name is refused, so a bad
    /// name fails at configuration time, not on every request.
    pub fn with_header_name(self, name: &str) -> (r: Result<ServiceAuthConfig, String>)
        ensures
            r is Ok <==> header_name_wf(name@),
            r matches Ok(cfg) ==> {
                &&& cfg.spec_header_name() == header_name_norm(name@)
                &&& cfg.spec_key() == self.spec_key()
                &&& cfg.spec_service_name() == self.spec_service_name()
                &&& cfg.spec_rate_limit() == self.spec_rate_limit()
            },
    {
        match parse_header_name(name) {
            Ok(normalized) => Ok(ServiceAuthConfig { header_name: normalized, ..self }),
            Err(e) => Err(e),
        }
    }

    /// The same configuration under another request budget.
    pub fn with_rate_limit(self, max_requests: u32, window_seconds: u64) -> (r: ServiceAuthConfig)
        ensures
            r.spec_rate_limit().max_requests == max_requests,
            r.spec_rate_limit().window_secs == window_seconds,
            r.spec_key() == self.spec_key(),
            r.spec_header_name() == self.spec_header_name(),
            r.spec_service_name() == self.spec_service_name(),
    {
        ServiceAuthConfig {
            rate_limit: ServiceRateLimit { max_requests, window_secs: window_seconds },
            ..self
        }
    }

    /// The configured header name, for the transport layer to look up.
    pub fn header_name(&self) -> (r: &str)
        ensures
            r@ == self.spec_header_name(),
    {
        self.header_name.as_str()
    }

    /// The configured caller identity label, the key of the caller's
    /// counter.
    pub fn service_name(&self) -> (r: &str)
        ensures
            r@ == self.spec_service_name(),
    {
        self.service_name.as_str()
    }

    /// The configured window length in seconds.
    pub fn window_secs(&self) -> (r: u64)
        ensures
            r == self.spec_rate_limit().window_secs,
    {
        self.rate_limit.window_secs
    }

    /// Grants or refuses one request against the fixed window: a counter
    /// whose window has elapsed is reset to a fresh window starting now;
    /// within a window, requests beyond `max_requests` are refused and the
    /// counter is left as is; every granted request is counted, and a
    /// counter within budget stays within budget.
    pub fn apply_rate_limit(&self, counter: &mut RateCounter, now_secs: u64) -> (granted: bool)
        requires
            old(counter).window_start <= now_secs,
        ensures
            old(counter).count <= self.spec_rate_limit().max_requests ==> final(counter).count
                <= self.spec_rate_limit().max_requests,
            ({
                let reset = now_secs - old(counter).window_start
                    >= self.spec_rate_limit().window_secs;
                let base_count = if reset {
                    0u32
                } else {
                    old(counter).count
                };
                let base_start = if reset {
                    now_secs
                } else {
                    old(counter).window_start
                };
                &&& granted == (base_count < self.spec_rate_limit().max_requests)
                &&& final(counter).window_start == base_start
                &&& final(counter).count == if granted {
                    base_count + 1
                } else {
                    base_count as int
                }
            }),
    {
        if now_secs - counter.window_start >= self.rate_limit.window_secs {
            counter.count = 0;
            counter.window_start = now_secs;
        }
        if counter.count >= self.rate_limit.max_requests {
            false
        } else {
            counter.count = counter.count + 1;
            true
        }
    }

    /// The filter's full verdict on one request, evaluated before any
    /// business logic: a missing header is unauthorized, an unreadable one
    /// a bad request, a wrong key forbidden — each leaving the counter
    /// untouched — and a correct key is granted or refused by the rate
    /// limiter, whose count never exceeds the budget.
    pub fn evaluate_request(
        &self,
        header: &HeaderInput,
        counter: &mut RateCounter,
        now_secs: u64,
    ) -> (d: AuthDecision)
        requires
            old(counter).window_start <= now_secs,
        ensures
            old(counter).count <= self.spec_rate_limit().max_requests ==> final(counter).count
                <= self.spec_rate_limit().max_requests,
            match header {
                HeaderInput::Missing => d == AuthDecision::Unauthorized && *final(counter) == *old(
                    counter,
                ),
                HeaderInput::Unreadable => d == AuthDecision::BadRequest && *final(counter) == *old(
                    counter,
                ),
                HeaderInput::Token(t) => {
                    if t@ != self.spec_key() {
                        d == AuthDecision::Forbidden && *final(counter) == *old(counter)
                    } else {
                        ({
                            let reset = now_secs - old(counter).window_start
                                >= self.spec_rate_limit().window_secs;
                            let base_count = if reset {
                                0u32
                            } else {
                                old(counter).count
                            };
                            let base_start = if reset {
                                now_secs
                            } else {
                                old(counter).window_start
                            };
                            let granted = base_count < self.spec_rate_limit().max_requests;
                            &&& d == if granted {
                                AuthDecision::Allow
                            } else {
                                AuthDecision::TooManyRequests
                            }
                            &&& final(counter).window_start == base_start
                            &&& final(counter).count == if granted {
                                base_count + 1
                            } else {
                                base_count as int
                            }
                        })
                    }
                },
            },
    {
        match header {
            HeaderInput::Missing => AuthDecision::Unauthorized,
            HeaderInput::Unreadable => AuthDecision::BadRequest,
            HeaderInput::Token(t) => {
                if !ct_str_eq(t.as_str(), self.service_key.as_str()) {
                    AuthDecision::Forbidden
                } else {
                    if self.apply_rate_limit(counter, now_secs) {
                        AuthDecision::Allow
                    } else {
                        AuthDecision::TooManyRequests
                    }
                }
            },
        }
    }

    /// Whether the background sweep keeps a counter: one whose window still
    /// has time left is kept, an expired one is evicted.
    pub fn keep_counter(&self, counter: &RateCounter, now_secs: u64) -> (r: bool)
        requires
            counter.window_start <= now_secs,
        ensures
            r == (now_secs - counter.window_start < self.spec_rate_limit().window_secs),
    {
        now_secs - counter.window_start < self.rate_limit.window_secs
    }
}

} // verus!
