//! The types of a gateway configuration, each with its mathematical view.
use crate::model::{map_views, opt_view, views};
use crate::str_map::StrMap;
use crate::outside::{
    copy_key, jwt_error_message, jwt_error_text, parse_rsa_key, rsa_key,
};
use crate::text::{copy_opt, copy_texts, opt_text, texts};
use jsonwebtoken::DecodingKey;
use vstd::prelude::*;

verus! {

/// The whole configuration: listener, routes, upstream services and policies.
pub struct KirinConfig {
    /// Where the gateway listens.
    pub server: ServerConfig,
    /// Routing rules, from request paths to upstream services.
    pub routes: Vec<RouteConfig>,
    /// Upstream services by name.
    pub upstreams: StrMap<UpstreamConfig>,
    /// Rate limiting; off when absent.
    pub rate_limit: Option<RateLimitConfig>,
    /// The Admin API; off when absent.
    pub admin: Option<AdminConfig>,
    /// JWT authentication; off when absent.
    pub auth: Option<AuthConfigRaw>,
}

#[verifier::ext_equal]
pub struct KirinView {
    pub server: ServerView,
    pub routes: Seq<RouteView>,
    pub upstreams: Seq<(Seq<char>, UpstreamView)>,
    pub rate_limit: Option<RateLimitConfig>,
    pub admin: Option<AdminView>,
    pub auth: Option<AuthRawView>,
}

impl View for KirinConfig {
    type V = KirinView;

    open spec fn view(&self) -> KirinView {
        KirinView {
            server: self.server@,
            routes: views(self.routes@),
            upstreams: map_views(self.upstreams@),
            rate_limit: self.rate_limit,
            admin: opt_view(self.admin),
            auth: opt_view(self.auth),
        }
    }
}

/// Configuration of the Admin API.
pub struct AdminConfig {
    /// Listen address of the Admin API, such as "127.0.0.1:9090".
    pub listen: String,
}

pub struct AdminView {
    pub listen: Seq<char>,
}

impl View for AdminConfig {
    type V = AdminView;

    open spec fn view(&self) -> AdminView {
        AdminView { listen: self.listen@ }
    }
}

/// Listen address and worker threads of the gateway itself.
pub struct ServerConfig {
    /// Listen address, "ip:port".
    pub listen: String,
    /// Number of worker threads; the runtime decides when absent.
    pub threads: Option<usize>,
    /// TLS; plain text when absent.
    pub tls: Option<TlsConfig>,
}

pub struct ServerView {
    pub listen: Seq<char>,
    pub threads: Option<usize>,
    pub tls: Option<TlsView>,
}

impl View for ServerConfig {
    type V = ServerView;

    open spec fn view(&self) -> ServerView {
        ServerView { listen: self.listen@, threads: self.threads, tls: opt_view(self.tls) }
    }
}

/// Certificate and key of a TLS listener.
pub struct TlsConfig {
    /// Path of the certificate file.
    pub cert_path: String,
    /// Path of the private key file.
    pub key_path: String,
}

pub struct TlsView {
    pub cert_path: Seq<char>,
    pub key_path: Seq<char>,
}

impl View for TlsConfig {
    type V = TlsView;

    open spec fn view(&self) -> TlsView {
        TlsView { cert_path: self.cert_path@, key_path: self.key_path@ }
    }
}

/// One routing rule as configured.
pub struct RouteConfig {
    /// Unique name of the route.
    pub route_id: String,
    /// Path or pattern, for the match types "exact" and "regex".
    pub path: Option<String>,
    /// Path prefix, for the match type "prefix".
    pub path_prefix: Option<String>,
    /// "exact", "prefix" or "regex".
    pub match_type: String,
    /// Allowed HTTP methods; every method when empty.
    pub methods: Vec<String>,
    /// Name of the upstream service.
    pub upstream: String,
    /// Who asked for the route.
    pub applicant: String,
    /// When it was asked for (ISO 8601).
    pub applied_at: String,
    /// What the route is for.
    pub description: String,
    /// Whether requests must carry a valid JWT.
    pub is_auth: bool,
    /// Canary release, if any.
    pub canary: Option<CanaryConfig>,
    /// Only these addresses may use the route (CIDR blocks or single addresses).
    pub ip_whitelist: Option<Vec<String>>,
    /// These addresses may not use the route (CIDR blocks or single addresses).
    pub ip_blacklist: Option<Vec<String>>,
}

#[verifier::ext_equal]
pub struct RouteView {
    pub route_id: Seq<char>,
    pub path: Option<Seq<char>>,
    pub path_prefix: Option<Seq<char>>,
    pub match_type: Seq<char>,
    pub methods: Seq<Seq<char>>,
    pub upstream: Seq<char>,
    pub applicant: Seq<char>,
    pub applied_at: Seq<char>,
    pub description: Seq<char>,
    pub is_auth: bool,
    pub canary: Option<CanaryView>,
    pub ip_whitelist: Option<Seq<Seq<char>>>,
    pub ip_blacklist: Option<Seq<Seq<char>>>,
}

/// The texts of an optional list.
pub open spec fn opt_texts(o: Option<Vec<String>>) -> Option<Seq<Seq<char>>> {
    match o {
        Some(v) => Some(texts(v@)),
        None => None,
    }
}

impl View for RouteConfig {
    type V = RouteView;

    open spec fn view(&self) -> RouteView {
        RouteView {
            route_id: self.route_id@,
            path: opt_text(self.path),
            path_prefix: opt_text(self.path_prefix),
            match_type: self.match_type@,
            methods: texts(self.methods@),
            upstream: self.upstream@,
            applicant: self.applicant@,
            applied_at: self.applied_at@,
            description: self.description@,
            is_auth: self.is_auth,
            canary: opt_view(self.canary),
            ip_whitelist: opt_texts(self.ip_whitelist),
            ip_blacklist: opt_texts(self.ip_blacklist),
        }
    }
}

/// Canary release of a route.
pub struct CanaryConfig {
    /// Share of the traffic, in percent (0 to 100).
    pub weight: u8,
    /// Requests that meet one of these rules take this route.
    pub match_rules: Vec<CanaryMatchRule>,
    /// How a client is kept on one version.
    pub stick: Option<StickyStrategy>,
    /// The cookie of the cookie strategy.
    pub sticky_cookie: Option<StickyCookieConfig>,
}

#[verifier::ext_equal]
pub struct CanaryView {
    pub weight: u8,
    pub match_rules: Seq<CanaryRuleView>,
    pub stick: Option<StickyStrategy>,
    pub sticky_cookie: Option<StickyCookieView>,
}

impl View for CanaryConfig {
    type V = CanaryView;

    open spec fn view(&self) -> CanaryView {
        CanaryView {
            weight: self.weight,
            match_rules: views(self.match_rules@),
            stick: self.stick,
            sticky_cookie: opt_view(self.sticky_cookie),
        }
    }
}

/// Where a canary rule looks.
#[derive(Clone, Copy, Debug, PartialEq, Eq, Structural)]
pub enum CanaryMatchType {
    Header,
    Cookie,
    Query,
}

/// One canary rule: a value that a request must carry under a key.
pub struct CanaryMatchRule {
    /// Header, cookie or query parameter.
    pub match_type: CanaryMatchType,
    /// The key.
    pub key: String,
    /// The expected value.
    pub value: String,
}

pub struct CanaryRuleView {
    pub match_type: CanaryMatchType,
    pub key: Seq<char>,
    pub value: Seq<char>,
}

impl View for CanaryMatchRule {
    type V = CanaryRuleView;

    open spec fn view(&self) -> CanaryRuleView {
        CanaryRuleView { match_type: self.match_type, key: self.key@, value: self.value@ }
    }
}

/// How a client is kept on one version.
#[derive(Clone, Copy, Debug, PartialEq, Eq, Structural)]
pub enum StickyStrategy {
    IpHash,
    Cookie,
}

/// The cookie that keeps a client on one version.
pub struct StickyCookieConfig {
    /// Name of the cookie.
    pub name: String,
    /// Its Path attribute.
    pub path: String,
    /// Its lifetime in seconds.
    pub max_age: u64,
}

pub struct StickyCookieView {
    pub name: Seq<char>,
    pub path: Seq<char>,
    pub max_age: u64,
}

impl View for StickyCookieConfig {
    type V = StickyCookieView;

    open spec fn view(&self) -> StickyCookieView {
        StickyCookieView { name: self.name@, path: self.path@, max_age: self.max_age }
    }
}

/// A group of backend nodes that share the load.
pub struct UpstreamConfig {
    /// The nodes.
    pub nodes: Vec<NodeConfig>,
    /// Load balancing algorithm.
    pub algorithm: String,
    /// Health check, if any.
    pub health_check: Option<HealthCheckConfig>,
}

#[verifier::ext_equal]
pub struct UpstreamView {
    pub nodes: Seq<NodeView>,
    pub algorithm: Seq<char>,
    pub health_check: Option<HealthCheckConfig>,
}

impl View for UpstreamConfig {
    type V = UpstreamView;

    open spec fn view(&self) -> UpstreamView {
        UpstreamView {
            nodes: views(self.nodes@),
            algorithm: self.algorithm@,
            health_check: self.health_check,
        }
    }
}

/// One backend node.
pub struct NodeConfig {
    /// Address, "ip:port".
    pub addr: String,
    /// Weight: the higher, the more requests.
    pub weight: usize,
}

pub struct NodeView {
    pub addr: Seq<char>,
    pub weight: usize,
}

impl View for NodeConfig {
    type V = NodeView;

    open spec fn view(&self) -> NodeView {
        NodeView { addr: self.addr@, weight: self.weight }
    }
}

/// Token bucket policy.
#[derive(Clone, Copy, Debug, PartialEq, Eq, Structural)]
pub struct RateLimitConfig {
    /// Capacity: the largest burst.
    pub capacity: usize,
    /// Tokens added per second.
    pub refill_rate: usize,
}

/// JWT authentication as configured.
pub struct AuthConfigRaw {
    /// Signature algorithm; only RS256 is supported.
    pub algorithm: String,
    /// Path of the RSA public key (PEM).
    pub public_key_path: String,
    /// Expected issuer of the tokens.
    pub issuer: String,
    /// Claims that are handed on to the upstream service.
    pub claims_to_forward: Vec<String>,
}

#[verifier::ext_equal]
pub struct AuthRawView {
    pub algorithm: Seq<char>,
    pub public_key_path: Seq<char>,
    pub issuer: Seq<char>,
    pub claims_to_forward: Seq<Seq<char>>,
}

impl View for AuthConfigRaw {
    type V = AuthRawView;

    open spec fn view(&self) -> AuthRawView {
        AuthRawView {
            algorithm: self.algorithm@,
            public_key_path: self.public_key_path@,
            issuer: self.issuer@,
            claims_to_forward: texts(self.claims_to_forward@),
        }
    }
}

/// JWT authentication, ready for use.
pub struct AuthConfig {
    /// The RSA public key; it is read once, not for each request.
    pub decoding_key: DecodingKey,
    /// Expected issuer of the tokens.
    pub issuer: String,
    /// Claims that are handed on to the upstream service.
    pub claims_to_forward: Vec<String>,
}

#[verifier::ext_equal]
pub struct AuthView {
    pub decoding_key: DecodingKey,
    pub issuer: Seq<char>,
    pub claims_to_forward: Seq<Seq<char>>,
}

impl View for AuthConfig {
    type V = AuthView;

    open spec fn view(&self) -> AuthView {
        AuthView {
            decoding_key: self.decoding_key,
            issuer: self.issuer@,
            claims_to_forward: texts(self.claims_to_forward@),
        }
    }
}

/// What was read from a file: its text, or why it could not be read.
pub open spec fn file_view(file: Result<String, String>) -> Result<Seq<char>, Seq<char>> {
    match file {
        Ok(t) => Ok(t@),
        Err(e) => Err(e@),
    }
}

/// Authentication with the key that was read from the key file, or why there is no
/// such key.
pub open spec fn auth_with_key(raw: AuthRawView, key_file: Result<Seq<char>, Seq<char>>) -> Result<
    AuthView,
    Seq<char>,
> {
    match key_file {
        Err(e) => Err(e),
        Ok(pem) => match rsa_key(pem) {
            Err(e) => Err(jwt_error_message(e)),
            Ok(key) => Ok(
                AuthView {
                    decoding_key: key,
                    issuer: raw.issuer,
                    claims_to_forward: raw.claims_to_forward,
                },
            ),
        },
    }
}

impl AuthConfigRaw {
    /// Makes authentication ready for use. `key_file` is what was read from the file
    /// at `public_key_path`.
    pub fn into_auth_config(self, key_file: &Result<String, String>) -> (r: Result<
        AuthConfig,
        String,
    >)
        ensures
            match r {
                Ok(auth) => auth_with_key(self@, file_view(*key_file)) == Ok::<AuthView, Seq<char>>(
                    auth@,
                ),
                Err(e) => auth_with_key(self@, file_view(*key_file)) == Err::<AuthView, Seq<char>>(
                    e@,
                ),
            },
    {
        match key_file {
            Err(e) => Err(e.clone()),
            Ok(pem) => match parse_rsa_key(pem.as_str()) {
                Err(e) => Err(jwt_error_text(&e)),
                Ok(decoding_key) => Ok(self.with_key(decoding_key)),
            },
        }
    }

    /// Authentication with the given key.
    pub fn with_key(self, decoding_key: DecodingKey) -> (r: AuthConfig)
        ensures
            r@ == (AuthView {
                decoding_key,
                issuer: self@.issuer,
                claims_to_forward: self@.claims_to_forward,
            }),
    {
        AuthConfig {
            decoding_key,
            issuer: self.issuer,
            claims_to_forward: self.claims_to_forward,
        }
    }
}

impl Clone for AuthConfig {
    fn clone(&self) -> (r: Self)
        ensures
            r@ == self@,
    {
        AuthConfig {
            decoding_key: copy_key(&self.decoding_key),
            issuer: self.issuer.clone(),
            claims_to_forward: copy_texts(&self.claims_to_forward),
        }
    }
}

/// Health check of an upstream group.
#[derive(Clone, Copy, Debug, PartialEq, Eq, Structural)]
pub struct HealthCheckConfig {
    /// Seconds between two checks.
    pub interval_secs: u64,
    /// Seconds after which a connection attempt has failed.
    pub timeout_secs: u64,
}

// ---- defaults of absent fields ----

/// Match type of a route that names none.
pub fn default_match_type() -> (r: String)
    ensures
        r@ == "exact"@,
{
    "exact".to_owned()
}

/// Name of a sticky cookie that names none.
pub fn default_cookie_name() -> (r: String)
    ensures
        r@ == "kirin_canary"@,
{
    "kirin_canary".to_owned()
}

/// Path of a sticky cookie that names none.
pub fn default_cookie_path() -> (r: String)
    ensures
        r@ == "/"@,
{
    "/".to_owned()
}

/// Lifetime, in seconds, of a sticky cookie that names none.
pub fn default_max_age() -> (r: u64)
    ensures
        r == 3600,
{
    3600
}

/// Load balancing algorithm of an upstream that names none.
pub fn default_algorithm() -> (r: String)
    ensures
        r@ == "round_robin"@,
{
    "round_robin".to_owned()
}

/// Weight of a node that names none.
pub fn default_weight() -> (r: usize)
    ensures
        r == 1,
{
    1
}

/// Timeout, in seconds, of a health check that names none.
pub fn default_timeout_secs() -> (r: u64)
    ensures
        r == 3,
{
    3
}

impl Default for HealthCheckConfig {
    fn default() -> (r: Self)
        ensures
            r == (HealthCheckConfig { interval_secs: 5, timeout_secs: 3 }),
    {
        HealthCheckConfig { interval_secs: 5, timeout_secs: default_timeout_secs() }
    }
}

/// The cookie of a cookie strategy that configures none.
pub open spec fn default_cookie() -> StickyCookieView {
    StickyCookieView { name: "kirin_canary"@, path: "/"@, max_age: 3600 }
}

impl Default for StickyCookieConfig {
    fn default() -> (r: Self)
        ensures
            r@ == default_cookie(),
    {
        StickyCookieConfig {
            name: default_cookie_name(),
            path: default_cookie_path(),
            max_age: default_max_age(),
        }
    }
}

// ---- copies ----

impl Clone for AdminConfig {
    fn clone(&self) -> (r: Self)
        ensures
            r@ == self@,
    {
        AdminConfig { listen: self.listen.clone() }
    }
}

impl Clone for TlsConfig {
    fn clone(&self) -> (r: Self)
        ensures
            r@ == self@,
    {
        TlsConfig { cert_path: self.cert_path.clone(), key_path: self.key_path.clone() }
    }
}

impl Clone for ServerConfig {
    fn clone(&self) -> (r: Self)
        ensures
            r@ == self@,
    {
        ServerConfig {
            listen: self.listen.clone(),
            threads: self.threads,
            tls: match &self.tls {
                Some(t) => Some(t.clone()),
                None => None,
            },
        }
    }
}

impl Clone for CanaryMatchRule {
    fn clone(&self) -> (r: Self)
        ensures
            r@ == self@,
    {
        CanaryMatchRule {
            match_type: self.match_type,
            key: self.key.clone(),
            value: self.value.clone(),
        }
    }
}

impl Clone for StickyCookieConfig {
    fn clone(&self) -> (r: Self)
        ensures
            r@ == self@,
    {
        StickyCookieConfig {
            name: self.name.clone(),
            path: self.path.clone(),
            max_age: self.max_age,
        }
    }
}

impl Clone for CanaryConfig {
    fn clone(&self) -> (r: Self)
        ensures
            r@ == self@,
    {
        let match_rules = self.match_rules.clone();
        assert(views(match_rules@) =~= views(self.match_rules@));
        CanaryConfig {
            weight: self.weight,
            match_rules,
            stick: self.stick,
            sticky_cookie: match &self.sticky_cookie {
                Some(c) => Some(c.clone()),
                None => None,
            },
        }
    }
}

/// A copy of an optional list.
pub fn copy_opt_texts(o: &Option<Vec<String>>) -> (r: Option<Vec<String>>)
    ensures
        opt_texts(r) == opt_texts(*o),
{
    match o {
        Some(v) => Some(copy_texts(v)),
        None => None,
    }
}

/// A copy of an optional canary release.
pub fn copy_canary(o: &Option<CanaryConfig>) -> (r: Option<CanaryConfig>)
    ensures
        opt_view(r) == opt_view(*o),
{
    match o {
        Some(c) => Some(c.clone()),
        None => None,
    }
}

impl Clone for RouteConfig {
    fn clone(&self) -> (r: Self)
        ensures
            r@ == self@,
    {
        RouteConfig {
            route_id: self.route_id.clone(),
            path: copy_opt(&self.path),
            path_prefix: copy_opt(&self.path_prefix),
            match_type: self.match_type.clone(),
            methods: copy_texts(&self.methods),
            upstream: self.upstream.clone(),
            applicant: self.applicant.clone(),
            applied_at: self.applied_at.clone(),
            description: self.description.clone(),
            is_auth: self.is_auth,
            canary: copy_canary(&self.canary),
            ip_whitelist: copy_opt_texts(&self.ip_whitelist),
            ip_blacklist: copy_opt_texts(&self.ip_blacklist),
        }
    }
}

impl Clone for NodeConfig {
    fn clone(&self) -> (r: Self)
        ensures
            r@ == self@,
    {
        NodeConfig { addr: self.addr.clone(), weight: self.weight }
    }
}

impl Clone for UpstreamConfig {
    fn clone(&self) -> (r: Self)
        ensures
            r@ == self@,
    {
        let nodes = self.nodes.clone();
        assert(views(nodes@) =~= views(self.nodes@));
        UpstreamConfig {
            nodes,
            algorithm: self.algorithm.clone(),
            health_check: self.health_check,
        }
    }
}

impl Clone for AuthConfigRaw {
    fn clone(&self) -> (r: Self)
        ensures
            r@ == self@,
    {
        AuthConfigRaw {
            algorithm: self.algorithm.clone(),
            public_key_path: self.public_key_path.clone(),
            issuer: self.issuer.clone(),
            claims_to_forward: copy_texts(&self.claims_to_forward),
        }
    }
}

impl Clone for KirinConfig {
    fn clone(&self) -> (r: Self)
        ensures
            r@ == self@,
    {
        let routes = self.routes.clone();
        assert(views(routes@) =~= views(self.routes@));
        let upstreams = self.upstreams.clone();
        assert(map_views(upstreams@) =~= map_views(self.upstreams@));
        KirinConfig {
            server: self.server.clone(),
            routes,
            upstreams,
            rate_limit: self.rate_limit,
            admin: match &self.admin {
                Some(a) => Some(a.clone()),
                None => None,
            },
            auth: match &self.auth {
                Some(a) => Some(a.clone()),
                None => None,
            },
        }
    }
}

} // verus!
