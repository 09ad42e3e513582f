//! The authentication filter: some routes ask for a signed token.
use crate::config::types::AuthConfig;
use crate::control_plane::gateway_state::model::StateView;
use crate::control_plane::gateway_state::GatewayState;
use crate::data_plane::filter::{
    find_header_text, header_text, reject_status, FilterContext, FilterContextView, FilterName, FilterReject,
    FilterResult, HeaderChange, HeaderChangeView, HeaderLine, HeaderView,
};
use crate::model::{map_views, views};
use crate::outside::{
    decode_token, jwt_error_message, jwt_error_text, to_upper, token_claims, upper_case,
};
use crate::str_map::{entry_of, lemma_map_views, StrMap};
use crate::text::{
    chars_of, decimal, decimal_text, join2, same_text, starts_with, texts, trim, trimmed,
};
use jsonwebtoken::DecodingKey;
use vstd::prelude::*;
use vstd::string::*;

verus! {

/// The claims of a token.
pub struct JwtClaims {
    /// Issuer.
    pub iss: String,
    /// Subject, as a rule the id of a user.
    pub sub: String,
    /// When the token expires (Unix time).
    pub exp: usize,
    /// When it was issued (Unix time).
    pub iat: Option<usize>,
    /// The other claims by name.
    pub extra: StrMap<ClaimValue>,
}

/// The value of a claim.
pub enum ClaimValue {
    /// A string.
    Text(String),
    /// Anything else, as JSON.
    Json(String),
}

pub enum ClaimValueView {
    Text(Seq<char>),
    Json(Seq<char>),
}

impl View for ClaimValue {
    type V = ClaimValueView;

    open spec fn view(&self) -> ClaimValueView {
        match *self {
            ClaimValue::Text(s) => ClaimValueView::Text(s@),
            ClaimValue::Json(s) => ClaimValueView::Json(s@),
        }
    }
}

impl ClaimValueView {
    /// The text of the value, as it is handed on: a string as it is, anything else as JSON.
    pub open spec fn text(self) -> Seq<char> {
        match self {
            ClaimValueView::Text(s) => s,
            ClaimValueView::Json(json) => json,
        }
    }
}

impl ClaimValue {
    /// The text of the value, as it is handed on.
    pub fn to_text(&self) -> (r: String)
        ensures
            r@ == self@.text(),
    {
        match self {
            ClaimValue::Text(s) => s.clone(),
            ClaimValue::Json(json) => json.clone(),
        }
    }
}

#[verifier::ext_equal]
pub struct ClaimsView {
    pub iss: Seq<char>,
    pub sub: Seq<char>,
    pub exp: usize,
    pub iat: Option<usize>,
    pub extra: Seq<(Seq<char>, ClaimValueView)>,
}

impl View for JwtClaims {
    type V = ClaimsView;

    open spec fn view(&self) -> ClaimsView {
        ClaimsView {
            iss: self.iss@,
            sub: self.sub@,
            exp: self.exp,
            iat: self.iat,
            extra: map_views(self.extra@),
        }
    }
}

/// Asks for a token where the route does.
pub struct AuthFilter;

/// How a token may be signed.
#[derive(Clone, Copy, Debug, PartialEq, Eq, Structural)]
pub enum TokenAlgorithm {
    /// RS256: RSA with SHA-256.
    Rs256,
}

/// What is to be verified of a token: how it is signed, that the required claims are
/// there, that it has not expired, give or take `leeway_secs`, and that it comes from
/// `issuer`.
pub struct TokenCheck {
    /// The token.
    pub token: String,
    /// The one algorithm with which it may be signed.
    pub algorithm: TokenAlgorithm,
    /// The claims that it must have.
    pub required_claims: Vec<String>,
    /// Who must have issued it.
    pub issuer: String,
    /// For how long it is good beyond its end.
    pub leeway_secs: u64,
    /// Whether it is refused where it names an audience.
    pub checks_audience: bool,
}

#[verifier::ext_equal]
pub struct TokenCheckView {
    pub token: Seq<char>,
    pub algorithm: TokenAlgorithm,
    pub required_claims: Seq<Seq<char>>,
    pub issuer: Seq<char>,
    pub leeway_secs: u64,
    pub checks_audience: bool,
}

impl View for TokenCheck {
    type V = TokenCheckView;

    open spec fn view(&self) -> TokenCheckView {
        TokenCheckView {
            token: self.token@,
            algorithm: self.algorithm,
            required_claims: texts(self.required_claims@),
            issuer: self.issuer@,
            leeway_secs: self.leeway_secs,
            checks_audience: self.checks_audience,
        }
    }
}

/// What is to be verified of a token of the given issuer: it is signed with RS256, it has
/// the claims `exp` and `iss`, and it may be half a minute late; for whom it is meant does
/// not count.
pub open spec fn check_of(token: Seq<char>, issuer: Seq<char>) -> TokenCheckView {
    TokenCheckView {
        token,
        algorithm: TokenAlgorithm::Rs256,
        required_claims: seq!["exp"@, "iss"@],
        issuer,
        leeway_secs: 30,
        checks_audience: false,
    }
}

impl TokenCheck {
    /// What is to be verified of a token of the given issuer.
    pub fn new(token: String, issuer: String) -> (r: Self)
        ensures
            r@ == check_of(token@, issuer@),
    {
        let mut required_claims: Vec<String> = Vec::new();
        required_claims.push("exp".to_owned());
        required_claims.push("iss".to_owned());
        assert(texts(required_claims@) =~= seq!["exp"@, "iss"@]);
        TokenCheck {
            token,
            algorithm: TokenAlgorithm::Rs256,
            required_claims,
            issuer,
            leeway_secs: 30,
            checks_audience: false,
        }
    }

    /// Verifies the token with a key. Its claims come out as JSON only if it is signed as it
    /// should be, has the required claims and comes from the issuer; else the reason why
    /// not, as the verification gave it. A token that has expired is refused as well.
    pub fn verify(&self, key: &DecodingKey) -> (r: Result<String, String>)
        requires
            self.leeway_secs <= 3600,
        ensures
            match r {
                Ok(claims) => decoded(self@, *key, claims@) && checked_claims(self@, *key) == Some(
                    claims@,
                ),
                Err(reason) => exists|e: jsonwebtoken::errors::Error|
                    #[trigger] decoding_failed(self@, *key, e) && reason@ == jwt_error_message(e),
            },
    {
        let r = decode_token(
            self.token.as_str(),
            key,
            self.algorithm,
            &self.required_claims,
            self.issuer.as_str(),
            self.leeway_secs,
            self.checks_audience,
        );
        match r {
            Ok(claims) => {
                assert(decoded(self@, *key, claims@));
                Ok(claims)
            },
            Err(e) => {
                assert(decoding_failed(self@, *key, e));
                Err(jwt_error_text(&e))
            },
        }
    }
}

/// Whether the decoding of a token with a key, held to what is to be verified of it, has
/// come back with the given claims.
pub closed spec fn decoded(check: TokenCheckView, key: DecodingKey, claims: Seq<char>) -> bool {
    exists|token: &str, required_claims: &Vec<String>, issuer: &str, text: String|
        token@ == check.token && texts(required_claims@) == check.required_claims && issuer@
            == check.issuer && text@ == claims && #[trigger] call_ensures(
            decode_token,
            (
                token,
                &key,
                check.algorithm,
                required_claims,
                issuer,
                check.leeway_secs,
                check.checks_audience,
            ),
            Ok::<String, jsonwebtoken::errors::Error>(text),
        )
}

/// Whether the decoding of a token with a key, held to what is to be verified of it, has
/// come back with the given error.
pub closed spec fn decoding_failed(
    check: TokenCheckView,
    key: DecodingKey,
    e: jsonwebtoken::errors::Error,
) -> bool {
    exists|token: &str, required_claims: &Vec<String>, issuer: &str|
        token@ == check.token && texts(required_claims@) == check.required_claims && issuer@
            == check.issuer && #[trigger] call_ensures(
            decode_token,
            (
                token,
                &key,
                check.algorithm,
                required_claims,
                issuer,
                check.leeway_secs,
                check.checks_audience,
            ),
            Err::<String, jsonwebtoken::errors::Error>(e),
        )
}

/// The claims of a token that passes every check but that of the time.
pub open spec fn checked_claims(check: TokenCheckView, key: DecodingKey) -> Option<Seq<char>> {
    token_claims(
        check.token,
        key,
        check.algorithm,
        check.required_claims,
        check.issuer,
        check.checks_audience,
    )
}

/// What the filter makes of a request before the token is looked at.
pub enum AuthStep {
    /// The request needs no token.
    Pass,
    /// The request has no token, and why.
    Missing(&'static str),
    /// The token is to be verified.
    Verify(TokenCheck),
}

pub enum AuthStepView {
    Pass,
    Missing(Seq<char>),
    Verify(TokenCheckView),
}

impl View for AuthStep {
    type V = AuthStepView;

    open spec fn view(&self) -> AuthStepView {
        match *self {
            AuthStep::Pass => AuthStepView::Pass,
            AuthStep::Missing(why) => AuthStepView::Missing(why@),
            AuthStep::Verify(check) => AuthStepView::Verify(check@),
        }
    }
}

/// What the filter makes of a request.
pub enum AuthOutcome {
    /// The request needs no token.
    Pass,
    /// The request is refused, and why.
    Refuse { reject: FilterReject, reason: String },
    /// The token is good; these are its claims as JSON.
    Claims(String),
}

pub enum AuthOutcomeView {
    Pass,
    Refuse { reject: FilterReject, reason: Seq<char> },
    Claims(Seq<char>),
}

impl View for AuthOutcome {
    type V = AuthOutcomeView;

    open spec fn view(&self) -> AuthOutcomeView {
        match *self {
            AuthOutcome::Pass => AuthOutcomeView::Pass,
            AuthOutcome::Refuse { reject, reason } => AuthOutcomeView::Refuse {
                reject,
                reason: reason@,
            },
            AuthOutcome::Claims(claims) => AuthOutcomeView::Claims(claims@),
        }
    }
}

impl AuthOutcome {
    /// What the outcome of the verification of a token makes of a request: one with a bad
    /// token is refused.
    pub fn of(verified: Result<String, String>) -> (r: Self)
        ensures
            r@ == match verified {
                Ok(claims) => AuthOutcomeView::Claims(claims@),
                Err(reason) => AuthOutcomeView::Refuse {
                    reject: FilterReject::Unauthorized,
                    reason: reason@,
                },
            },
    {
        match verified {
            Ok(claims) => AuthOutcome::Claims(claims),
            Err(reason) => AuthOutcome::Refuse { reject: FilterReject::Unauthorized, reason },
        }
    }
}

/// Whether a request may come out of the filter in the given way: one that needs no token
/// goes on; one without a token is refused; one with a token is refused with the error with
/// which the decoding of the token came back, or it comes out with the claims with which it
/// came back, which are those of a token that passes every check but that of the time. Which of the two it is depends on the clock where
/// the token passes these checks.
pub open spec fn authenticated(
    ctx: FilterContextView,
    headers: Seq<HeaderView>,
    state: StateView,
    outcome: AuthOutcomeView,
) -> bool {
    match auth_step(ctx, headers, state) {
        AuthStepView::Pass => outcome == AuthOutcomeView::Pass,
        AuthStepView::Missing(why) => outcome == (AuthOutcomeView::Refuse {
            reject: FilterReject::Unauthorized,
            reason: why,
        }),
        AuthStepView::Verify(check) => match outcome {
            AuthOutcomeView::Pass => false,
            AuthOutcomeView::Refuse { reject, reason } => {
                &&& reject == FilterReject::Unauthorized
                &&& state.auth matches Some(auth) && exists|e: jsonwebtoken::errors::Error|
                    #[trigger] decoding_failed(check, auth.decoding_key, e) && reason
                        == jwt_error_message(e)
            },
            AuthOutcomeView::Claims(claims) => state.auth matches Some(auth) && decoded(
                check,
                auth.decoding_key,
                claims,
            ) && checked_claims(check, auth.decoding_key) == Some(claims),
        },
    }
}

/// The token of an Authorization header, or why there is none.
pub open spec fn bearer_token(header: Option<Seq<char>>) -> Result<Seq<char>, Seq<char>> {
    match header {
        None => Err("missing Authorization Header"@),
        Some(h) => if !"Bearer "@.is_prefix_of(h) {
            Err("invalid Authorization Header, require Bearer type"@)
        } else if trimmed(h.skip(7)).len() == 0 {
            Err("Token is empty"@)
        } else {
            Ok(trimmed(h.skip(7)))
        },
    }
}

/// Whether the route of a request asks for a token.
pub open spec fn needs_token(ctx: FilterContextView, state: StateView) -> bool {
    &&& state.auth is Some
    &&& ctx.route_id matches Some(id) && (entry_of(state.entries, id) matches Some(entry)
        && entry.is_auth)
}

/// What the filter makes of a request before the token is looked at.
pub open spec fn auth_step(
    ctx: FilterContextView,
    headers: Seq<HeaderView>,
    state: StateView,
) -> AuthStepView {
    if !needs_token(ctx, state) {
        AuthStepView::Pass
    } else {
        match bearer_token(header_text(headers, "authorization"@)) {
            Err(why) => AuthStepView::Missing(why),
            Ok(token) => AuthStepView::Verify(check_of(token, state.auth->0.issuer)),
        }
    }
}

/// The text of a claim, as it is handed on; nothing for a claim that the token does not
/// have. Without a time of issue that claim is null.
pub open spec fn claim_text(claims: ClaimsView, name: Seq<char>) -> Option<Seq<char>> {
    if name == "iss"@ {
        Some(claims.iss)
    } else if name == "sub"@ {
        Some(claims.sub)
    } else if name == "exp"@ {
        Some(decimal(claims.exp as nat))
    } else if name == "iat"@ {
        Some(
            match claims.iat {
                Some(t) => decimal(t as nat),
                None => "null"@,
            },
        )
    } else {
        match entry_of(claims.extra, name) {
            Some(value) => Some(value.text()),
            None => None,
        }
    }
}

/// A text with its first character in upper case.
pub open spec fn capitalized(s: Seq<char>) -> Seq<char> {
    if s.len() == 0 {
        s
    } else {
        upper_case(s[0]) + s.skip(1)
    }
}

/// The headers that hand the named claims on to the upstream service: one for each claim
/// that the token has, in the order of the names.
pub open spec fn claim_headers(claims: ClaimsView, names: Seq<Seq<char>>) -> Seq<HeaderChangeView>
    decreases names.len(),
{
    if names.len() == 0 {
        Seq::empty()
    } else {
        let before = claim_headers(claims, names.drop_last());
        match claim_text(claims, names.last()) {
            Some(value) => before.push(
                HeaderChangeView { name: "X-User-"@ + capitalized(names.last()), value },
            ),
            None => before,
        }
    }
}

impl AuthFilter {
    /// The name of the filter.
    pub fn name(&self) -> (r: FilterName)
        ensures
            r == FilterName::Auth,
    {
        FilterName::Auth
    }

    /// The token of the Authorization header.
    pub fn extract_bearer_token(headers: &Vec<HeaderLine>) -> (r: Result<String, &'static str>)
        ensures
            match r {
                Ok(token) => bearer_token(header_text(views(headers@), "authorization"@)) == Ok::<
                    Seq<char>,
                    Seq<char>,
                >(token@),
                Err(e) => bearer_token(header_text(views(headers@), "authorization"@)) == Err::<
                    Seq<char>,
                    Seq<char>,
                >(e@),
            },
    {
        let header = match find_header_text(headers, "authorization") {
            Some(h) => h,
            None => {
                return Err("missing Authorization Header");
            },
        };
        if !starts_with(header.as_str(), "Bearer ") {
            return Err("invalid Authorization Header, require Bearer type");
        }
        proof {
            reveal_strlit("Bearer ");
        }
        let n = header.as_str().unicode_len();
        let rest = header.as_str().substring_char(7, n);
        assert(rest@ =~= header@.skip(7));
        let token = trim(rest);
        if token.unicode_len() == 0 {
            return Err("Token is empty");
        }
        Ok(token.to_owned())
    }

    /// What the filter makes of a request before the token is looked at.
    pub fn prepare(
        &self,
        ctx: &FilterContext,
        headers: &Vec<HeaderLine>,
        state: &GatewayState,
    ) -> (r: AuthStep)
        ensures
            r@ == auth_step(ctx@, views(headers@), state@),
    {
        let auth = match state.auth_config() {
            None => {
                return AuthStep::Pass;
            },
            Some(auth) => auth,
        };
        let route_id = match &ctx.route_id {
            None => {
                return AuthStep::Pass;
            },
            Some(id) => id,
        };
        let needs_auth = match state.find_registered(route_id.as_str()) {
            Some(entry) => entry.is_auth,
            None => false,
        };
        if !needs_auth {
            return AuthStep::Pass;
        }
        match AuthFilter::extract_bearer_token(headers) {
            Ok(token) => AuthStep::Verify(TokenCheck::new(token, auth.issuer.clone())),
            Err(why) => AuthStep::Missing(why),
        }
    }

    /// What the filter makes of a request: a protected route asks for a token in the
    /// Authorization header, and the token is verified.
    pub fn request_filter(
        &self,
        ctx: &FilterContext,
        headers: &Vec<HeaderLine>,
        state: &GatewayState,
    ) -> (r: AuthOutcome)
        ensures
            authenticated(ctx@, views(headers@), state@, r@),
    {
        match self.prepare(ctx, headers, state) {
            AuthStep::Pass => AuthOutcome::Pass,
            AuthStep::Missing(why) => AuthOutcome::of(Err(why.to_owned())),
            AuthStep::Verify(check) => match state.auth_config() {
                Some(auth) => AuthOutcome::of(check.verify(&auth.decoding_key)),
                None => AuthOutcome::Pass,
            },
        }
    }

    /// What the claims of a verified token make of a request: the subject is noted, and the
    /// claims to be handed on are returned as headers; where the claims cannot be read, the
    /// request is refused.
    pub fn verified(
        &self,
        ctx: &mut FilterContext,
        auth: &AuthConfig,
        outcome: &Result<JwtClaims, String>,
    ) -> (r: (FilterResult, Vec<HeaderChange>))
        ensures
            match outcome {
                Ok(claims) => r.0 == FilterResult::Continue && views(r.1@) == claim_headers(
                    claims@,
                    auth@.claims_to_forward,
                ) && final(ctx)@ == (FilterContextView {
                    auth_user_id: Some(claims@.sub),
                    ..old(ctx)@
                }),
                Err(_) => r.0 == FilterResult::Stop(FilterReject::Unauthorized) && r.1@.len() == 0
                    && final(ctx)@ == old(ctx)@,
            },
    {
        match outcome {
            Ok(claims) => {
                ctx.auth_user_id = Some(claims.sub.clone());
                (FilterResult::Continue, forwarded_claims(claims, &auth.claims_to_forward))
            },
            Err(_) => (FilterResult::Stop(FilterReject::Unauthorized), Vec::new()),
        }
    }
}

/// The text of a claim, as it is handed on.
pub fn claim_to_string(claims: &JwtClaims, name: &str) -> (r: Option<String>)
    ensures
        crate::text::opt_text(r) == claim_text(claims@, name@),
{
    if same_text(name, "iss") {
        Some(claims.iss.clone())
    } else if same_text(name, "sub") {
        Some(claims.sub.clone())
    } else if same_text(name, "exp") {
        Some(decimal_text(claims.exp as u64))
    } else if same_text(name, "iat") {
        match claims.iat {
            Some(t) => Some(decimal_text(t as u64)),
            None => Some("null".to_owned()),
        }
    } else {
        proof {
            lemma_map_views(claims.extra@, name@);
        }
        match claims.extra.get(name) {
            Some(value) => Some(value.to_text()),
            None => None,
        }
    }
}

/// The headers that hand the named claims on.
fn forwarded_claims(claims: &JwtClaims, names: &Vec<String>) -> (r: Vec<HeaderChange>)
    ensures
        views(r@) == claim_headers(claims@, texts(names@)),
{
    let ghost all = texts(names@);
    let mut r: Vec<HeaderChange> = Vec::new();
    let mut i: usize = 0;
    assert(views(r@) =~= claim_headers(claims@, all.take(0)));
    while i < names.len()
        invariant
            i <= names@.len(),
            all == texts(names@),
            views(r@) == claim_headers(claims@, all.take(i as int)),
        decreases names@.len() - i,
    {
        proof {
            assert(all.take(i + 1).drop_last() =~= all.take(i as int));
            assert(all.take(i + 1).last() == names@[i as int]@);
        }
        if let Some(value) = claim_to_string(claims, names[i].as_str()) {
            let name = join2("X-User-", capitalize(names[i].as_str()).as_str());
            let ghost before = views(r@);
            let ghost change = HeaderChangeView { name: name@, value: value@ };
            r.push(HeaderChange { name, value });
            assert(views(r@) =~= before.push(change));
        }
        i += 1;
    }
    assert(all.take(i as int) =~= all);
    r
}

/// A text with its first character in upper case.
pub fn capitalize(s: &str) -> (r: String)
    ensures
        r@ == capitalized(s@),
{
    let cs = chars_of(s);
    if cs.len() == 0 {
        return s.to_owned();
    }
    let rest = s.substring_char(1, cs.len());
    assert(rest@ =~= s@.skip(1));
    join2(to_upper(cs[0]).as_str(), rest)
}

// ---- laws ----

/// A request for a route that asks for a token never goes on without one: it is answered
/// with status 401, or it comes out with the claims of a token from its header that is signed
/// with RS256 and the configured key, holds an expiry and an issuer, and comes from the
/// configured issuer.
pub proof fn protected_routes_need_a_token(
    ctx: FilterContextView,
    headers: Seq<HeaderView>,
    state: StateView,
    outcome: AuthOutcomeView,
)
    requires
        needs_token(ctx, state),
        authenticated(ctx, headers, state, outcome),
    ensures
        outcome != AuthOutcomeView::Pass,
        outcome matches AuthOutcomeView::Refuse { reject, .. } ==> reject_status(reject) == 401,
        outcome matches AuthOutcomeView::Claims(claims) ==> ({
            &&& bearer_token(header_text(headers, "authorization"@)) matches Ok(token)
            &&& state.auth matches Some(auth) && token_claims(
                token,
                auth.decoding_key,
                TokenAlgorithm::Rs256,
                seq!["exp"@, "iss"@],
                auth.issuer,
                false,
            ) == Some(claims)
        }),
{
}

/// A request with a token is refused only if the decoding of this very token came back with
/// an error: it was decoded with the configured key, as a token of the configured issuer that
/// is signed with RS256, has the claims `exp` and `iss` and may be half a minute late, for
/// whomever it is meant. The reason is the message of that error.
pub proof fn only_tokens_that_fail_are_refused(
    filter: AuthFilter,
    ctx: FilterContext,
    headers: Vec<HeaderLine>,
    state: GatewayState,
    outcome: AuthOutcome,
    token: Seq<char>,
    check: TokenCheckView,
)
    requires
        call_ensures(AuthFilter::request_filter, (&filter, &ctx, &headers, &state), outcome),
        bearer_token(header_text(views(headers@), "authorization"@)) == Ok::<
            Seq<char>,
            Seq<char>,
        >(token),
        check == (TokenCheckView {
            token,
            algorithm: TokenAlgorithm::Rs256,
            required_claims: seq!["exp"@, "iss"@],
            issuer: state@.auth->0.issuer,
            leeway_secs: 30,
            checks_audience: false,
        }),
    ensures
        outcome@ matches AuthOutcomeView::Refuse { reason, .. } ==> (state@.auth matches Some(auth)
            && exists|e: jsonwebtoken::errors::Error|
            #[trigger] decoding_failed(check, auth.decoding_key, e) && reason == jwt_error_message(
                e,
            )),
{
}

/// A request with a token comes out with claims only if the decoding of this very token came
/// back with them: with the configured key, as a token of the configured issuer that is signed
/// with RS256, has the claims `exp` and `iss` and may be half a minute late, and no later.
pub proof fn only_decoded_tokens_are_accepted(
    filter: AuthFilter,
    ctx: FilterContext,
    headers: Vec<HeaderLine>,
    state: GatewayState,
    outcome: AuthOutcome,
    token: Seq<char>,
    check: TokenCheckView,
)
    requires
        call_ensures(AuthFilter::request_filter, (&filter, &ctx, &headers, &state), outcome),
        bearer_token(header_text(views(headers@), "authorization"@)) == Ok::<
            Seq<char>,
            Seq<char>,
        >(token),
        check == (TokenCheckView {
            token,
            algorithm: TokenAlgorithm::Rs256,
            required_claims: seq!["exp"@, "iss"@],
            issuer: state@.auth->0.issuer,
            leeway_secs: 30,
            checks_audience: false,
        }),
    ensures
        outcome@ matches AuthOutcomeView::Claims(claims) ==> (state@.auth matches Some(auth)
            && decoded(check, auth.decoding_key, claims)),
{
}

/// What the filter makes of a request depends on its route, its Authorization header and the
/// state alone: the method, the path, the address of the client and the other headers play
/// no part.
pub proof fn only_route_and_token_matter(
    ctx: FilterContextView,
    headers: Seq<HeaderView>,
    other_ctx: FilterContextView,
    other_headers: Seq<HeaderView>,
    state: StateView,
    outcome: AuthOutcomeView,
)
    requires
        ctx.route_id == other_ctx.route_id,
        header_text(headers, "authorization"@) == header_text(other_headers, "authorization"@),
    ensures
        authenticated(ctx, headers, state, outcome) <==> authenticated(
            other_ctx,
            other_headers,
            state,
            outcome,
        ),
{
}

/// A request is asked for a token if and only if authentication is configured and the route
/// that it takes is registered as one that asks for it; any other goes on without one.
pub proof fn only_protected_routes_ask_for_a_token(
    filter: AuthFilter,
    ctx: FilterContext,
    headers: Vec<HeaderLine>,
    state: GatewayState,
    outcome: AuthOutcome,
)
    requires
        call_ensures(AuthFilter::request_filter, (&filter, &ctx, &headers, &state), outcome),
    ensures
        outcome@ == AuthOutcomeView::Pass <==> !(state@.auth is Some && (ctx@.route_id matches Some(
            id,
        ) && (entry_of(state@.entries, id) matches Some(entry) && entry.is_auth))),
{
}

/// The token of an Authorization header is what follows the word `Bearer` and a blank,
/// without the white space around it.
pub proof fn token_follows_the_word_bearer(rest: Seq<char>)
    ensures
        bearer_token(Some("Bearer "@ + rest)) == if trimmed(rest).len() > 0 {
            Ok::<Seq<char>, Seq<char>>(trimmed(rest))
        } else {
            Err("Token is empty"@)
        },
{
    reveal_strlit("Bearer ");
    let header = "Bearer "@ + rest;
    assert(header.skip(7) =~= rest);
    assert("Bearer "@.is_prefix_of(header));
}

/// A header that gives a token is the word `Bearer`, a blank and a text around which the
/// token has lost its white space.
pub proof fn no_token_without_the_word_bearer(header: Option<Seq<char>>, token: Seq<char>)
    requires
        bearer_token(header) == Ok::<Seq<char>, Seq<char>>(token),
    ensures
        token.len() > 0,
        header matches Some(h) && exists|rest: Seq<char>|
            h == #[trigger] ("Bearer "@ + rest) && token == trimmed(rest),
{
    reveal_strlit("Bearer ");
    let h = header->0;
    assert(h =~= "Bearer "@ + h.skip(7));
}

/// The claims are handed on one by one, in the order of the names, each by its own name; a
/// claim that the token does not have is left out and disturbs no other.
pub proof fn claims_are_handed_on_one_by_one(
    claims: ClaimsView,
    names: Seq<Seq<char>>,
    more: Seq<Seq<char>>,
    name: Seq<char>,
)
    ensures
        claim_headers(claims, names + more) == claim_headers(claims, names) + claim_headers(
            claims,
            more,
        ),
        claim_headers(claims, seq![name]) == match claim_text(claims, name) {
            Some(value) => seq![HeaderChangeView { name: "X-User-"@ + capitalized(name), value }],
            None => Seq::empty(),
        },
    decreases more.len(),
{
    if more.len() == 0 {
        assert(names + more =~= names);
        assert(claim_headers(claims, names) + claim_headers(claims, more) =~= claim_headers(
            claims,
            names,
        ));
    } else {
        claims_are_handed_on_one_by_one(claims, names, more.drop_last(), name);
        assert((names + more).drop_last() =~= names + more.drop_last());
        assert((names + more).last() == more.last());
        assert(claim_headers(claims, names + more) =~= claim_headers(claims, names)
            + claim_headers(claims, more));
    }
    let one = seq![name];
    assert(one.drop_last() =~= Seq::empty());
    assert(claim_headers(claims, one.drop_last()) =~= Seq::empty());
    assert(claim_headers(claims, one) =~= match claim_text(claims, name) {
        Some(value) => seq![HeaderChangeView { name: "X-User-"@ + capitalized(name), value }],
        None => Seq::empty(),
    });
}

/// The registered claims are those of the token itself, whatever other claims it has; any
/// other name stands for the claim that the token has under it, a string without quotes.
pub proof fn claims_are_those_of_the_token(claims: ClaimsView, name: Seq<char>)
    ensures
        claim_text(claims, "iss"@) == Some(claims.iss),
        claim_text(claims, "sub"@) == Some(claims.sub),
        claim_text(claims, "exp"@) == Some(decimal(claims.exp as nat)),
        claims.iat matches Some(t) ==> claim_text(claims, "iat"@) == Some(decimal(t as nat)),
        claims.iat is None ==> claim_text(claims, "iat"@) == Some("null"@),
        name != "iss"@ && name != "sub"@ && name != "exp"@ && name != "iat"@ ==> (
        match entry_of(claims.extra, name) {
            Some(ClaimValueView::Text(s)) => claim_text(claims, name) == Some(s),
            Some(ClaimValueView::Json(json)) => claim_text(claims, name) == Some(json),
            None => claim_text(claims, name) is None,
        }),
{
    reveal_strlit("iss");
    reveal_strlit("sub");
    reveal_strlit("exp");
    reveal_strlit("iat");
    assert("iss"@[0] == 'i' && "iss"@[1] == 's');
    assert("sub"@[0] == 's');
    assert("exp"@[0] == 'e');
    assert("iat"@[0] == 'i' && "iat"@[1] == 'a');
}

/// A token that fails a check other than that of the time is always refused, and so is a
/// request without a token.
pub proof fn bad_tokens_are_refused(
    ctx: FilterContextView,
    headers: Seq<HeaderView>,
    state: StateView,
    outcome: AuthOutcomeView,
)
    requires
        needs_token(ctx, state),
        authenticated(ctx, headers, state, outcome),
        bearer_token(header_text(headers, "authorization"@)) matches Ok(token) ==> checked_claims(
            check_of(token, state.auth->0.issuer),
            state.auth->0.decoding_key,
        ) is None,
    ensures
        outcome matches AuthOutcomeView::Refuse { reject, .. } && reject_status(reject) == 401,
{
}

/// Where the token has every configured claim, each becomes a header of its own, in order,
/// with the text of the claim.
pub proof fn every_claim_of_the_token_is_handed_on(claims: ClaimsView, names: Seq<Seq<char>>)
    requires
        forall|i: int| 0 <= i < names.len() ==> claim_text(claims, #[trigger] names[i]) is Some,
    ensures
        claim_headers(claims, names).len() == names.len(),
        forall|i: int|
            0 <= i < names.len() ==> (#[trigger] claim_headers(claims, names)[i]).name
                == "X-User-"@ + capitalized(names[i]) && Some(claim_headers(claims, names)[i].value)
                == claim_text(claims, names[i]),
    decreases names.len(),
{
    if names.len() > 0 {
        let front = names.drop_last();
        assert forall|i: int| 0 <= i < front.len() implies claim_text(
            claims,
            #[trigger] front[i],
        ) is Some by {
            assert(front[i] == names[i]);
        }
        every_claim_of_the_token_is_handed_on(claims, front);
        assert(claim_text(claims, names[names.len() - 1]) is Some);
        assert forall|i: int| 0 <= i < names.len() implies (
        #[trigger] claim_headers(claims, names)[i]).name == "X-User-"@ + capitalized(names[i]) && Some(
            claim_headers(claims, names)[i].value,
        ) == claim_text(claims, names[i]) by {
            if i < front.len() {
                assert(claim_headers(claims, names)[i] == claim_headers(claims, front)[i]);
                assert(front[i] == names[i]);
            }
        }
    }
}

/// Only the first character of a name is put into upper case.
pub proof fn only_the_first_character_is_capitalized(c: char, rest: Seq<char>)
    ensures
        capitalized(seq![c] + rest) == upper_case(c) + rest,
        capitalized(Seq::empty()) == Seq::<char>::empty(),
{
    assert((seq![c] + rest).skip(1) =~= rest);
}

/// A token counts as decoded, and a decoding as failed, only if the token was decoded: with
/// the given key, the given algorithm, the required claims, the issuer, the leeway and the say
/// on the audience, and with the given claims or the given error as the outcome.
pub(crate) proof fn decodings_were_decodings(
    check: TokenCheckView,
    key: DecodingKey,
    claims: Seq<char>,
    e: jsonwebtoken::errors::Error,
)
    ensures
        decoded(check, key, claims) ==> exists|
            token: &str,
            required_claims: &Vec<String>,
            issuer: &str,
            text: String,
        |
            token@ == check.token && texts(required_claims@) == check.required_claims && issuer@
                == check.issuer && text@ == claims && #[trigger] call_ensures(
                decode_token,
                (
                    token,
                    &key,
                    check.algorithm,
                    required_claims,
                    issuer,
                    check.leeway_secs,
                    check.checks_audience,
                ),
                Ok::<String, jsonwebtoken::errors::Error>(text),
            ),
        decoding_failed(check, key, e) ==> exists|token: &str, required_claims: &Vec<String>, issuer: &str|
            token@ == check.token && texts(required_claims@) == check.required_claims && issuer@
                == check.issuer && #[trigger] call_ensures(
                decode_token,
                (
                    token,
                    &key,
                    check.algorithm,
                    required_claims,
                    issuer,
                    check.leeway_secs,
                    check.checks_audience,
                ),
                Err::<String, jsonwebtoken::errors::Error>(e),
            ),
{
}

} // verus!
