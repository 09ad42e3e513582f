//! The views show what the values hold, field by field and element by element.
use crate::config::types::{
    file_view, opt_texts, AdminConfig, AuthConfig, AuthConfigRaw, CanaryConfig, CanaryMatchRule,
    KirinConfig, NodeConfig, RouteConfig, ServerConfig, StickyCookieConfig, TlsConfig,
    UpstreamConfig,
};
use crate::config::validation::ValidationError;
use crate::control_plane::admin_api::dto::{RouteDTO, RouteRegistryDTO, UpstreamDTO};
use crate::data_plane::filter::auth::{ClaimValue, ClaimValueView, JwtClaims, TokenCheck};
use crate::data_plane::filter::{FilterContext, HeaderChange, HeaderLine};
use crate::data_plane::proxy::{CanaryDecision, RequestContext, RequestRecord};
use crate::data_plane::router::router_white_list::RouteEntry;
use crate::data_plane::router::{CanaryContext, RouteCandidate, RouteMatch, RouteRule};
use crate::model::{map_views, opt_list, opt_view, views};
use crate::text::{opt_text, texts};
use vstd::prelude::*;

verus! {

/// A list, an optional value and a map are viewed element by element, in order.
pub proof fn lists_are_viewed_in_order<T: View>(
    list: Seq<T>,
    o: Option<T>,
    entries: Seq<(Seq<char>, T)>,
    i: int,
)
    ensures
        views(list).len() == list.len(),
        0 <= i < list.len() ==> views(list)[i] == list[i]@,
        opt_view(o) is Some <==> o is Some,
        o is Some ==> opt_view(o)->0 == o->0@,
        map_views(entries).len() == entries.len(),
        0 <= i < entries.len() ==> map_views(entries)[i].0 == entries[i].0 && map_views(
            entries,
        )[i].1 == entries[i].1@,
{
}

/// Texts are viewed as their characters.
pub proof fn texts_are_viewed_in_order(
    list: Vec<String>,
    o: Option<String>,
    many: Option<Vec<String>>,
    file: Result<String, String>,
    i: int,
)
    ensures
        texts(list@).len() == list@.len(),
        0 <= i < list@.len() ==> texts(list@)[i] == list@[i]@,
        opt_text(o) is Some <==> o is Some,
        o matches Some(s) ==> opt_text(o) == Some(s@),
        opt_texts(many) is Some <==> many is Some,
        many matches Some(v) ==> opt_texts(many) == Some(texts(v@)),
        many matches Some(v) ==> opt_list(many) == Some(v@),
        many is None ==> opt_list(many) is None,
        file matches Ok(t) ==> file_view(file) == Ok::<Seq<char>, Seq<char>>(t@),
        file matches Err(e) ==> file_view(file) == Err::<Seq<char>, Seq<char>>(e@),
{
}

/// The view of a configuration shows every part of it.
pub proof fn configurations_are_viewed_whole(
    config: KirinConfig,
    admin: AdminConfig,
    server: ServerConfig,
    tls: TlsConfig,
    auth: AuthConfigRaw,
    ready: AuthConfig,
)
    ensures
        config@.server == config.server@,
        config@.routes == views(config.routes@),
        config@.upstreams == map_views(config.upstreams@),
        config@.rate_limit == config.rate_limit,
        config@.admin == opt_view(config.admin),
        config@.auth == opt_view(config.auth),
        admin@.listen == admin.listen@,
        server@.listen == server.listen@,
        server@.threads == server.threads,
        server@.tls == opt_view(server.tls),
        tls@.cert_path == tls.cert_path@,
        tls@.key_path == tls.key_path@,
        auth@.algorithm == auth.algorithm@,
        auth@.public_key_path == auth.public_key_path@,
        auth@.issuer == auth.issuer@,
        auth@.claims_to_forward == texts(auth.claims_to_forward@),
        ready@.decoding_key == ready.decoding_key,
        ready@.issuer == ready.issuer@,
        ready@.claims_to_forward == texts(ready.claims_to_forward@),
{
}

/// The view of a configured route shows every part of it, and so do those of its release.
pub proof fn configured_routes_are_viewed_whole(
    route: RouteConfig,
    canary: CanaryConfig,
    rule: CanaryMatchRule,
    cookie: StickyCookieConfig,
)
    ensures
        route@.route_id == route.route_id@,
        route@.path == opt_text(route.path),
        route@.path_prefix == opt_text(route.path_prefix),
        route@.match_type == route.match_type@,
        route@.methods == texts(route.methods@),
        route@.upstream == route.upstream@,
        route@.applicant == route.applicant@,
        route@.applied_at == route.applied_at@,
        route@.description == route.description@,
        route@.is_auth == route.is_auth,
        route@.canary == opt_view(route.canary),
        route@.ip_whitelist == opt_texts(route.ip_whitelist),
        route@.ip_blacklist == opt_texts(route.ip_blacklist),
        canary@.weight == canary.weight,
        canary@.match_rules == views(canary.match_rules@),
        canary@.stick == canary.stick,
        canary@.sticky_cookie == opt_view(canary.sticky_cookie),
        rule@.match_type == rule.match_type,
        rule@.key == rule.key@,
        rule@.value == rule.value@,
        cookie@.name == cookie.name@,
        cookie@.path == cookie.path@,
        cookie@.max_age == cookie.max_age,
{
}

/// The view of a configured upstream shows every part of it.
pub proof fn configured_upstreams_are_viewed_whole(upstream: UpstreamConfig, node: NodeConfig)
    ensures
        upstream@.nodes == views(upstream.nodes@),
        upstream@.algorithm == upstream.algorithm@,
        upstream@.health_check == upstream.health_check,
        node@.addr == node.addr@,
        node@.weight == node.weight,
{
}

/// The view of a mistake shows every part of it.
pub proof fn mistakes_are_viewed_whole(e: ValidationError)
    ensures
        e@.field == e.field@,
        e@.message == e.message@,
        e@.route_id == opt_text(e.route_id),
{
}

/// The views of rules, registered routes and candidates show every part of them.
pub proof fn rules_are_viewed_whole(
    rule: RouteRule,
    entry: RouteEntry,
    candidate: RouteCandidate,
    taken: RouteMatch,
    ctx: CanaryContext,
)
    ensures
        rule@.route_id == rule.route_id@,
        rule@.match_type == rule.match_type,
        rule@.path == rule.path@,
        rule@.prefix == opt_text(rule.prefix),
        rule@.methods == texts(rule.methods@),
        rule@.upstream == rule.upstream@,
        rule@.canary == opt_view(rule.canary),
        rule@.ip_whitelist == opt_list(rule.ip_whitelist),
        rule@.ip_blacklist == opt_list(rule.ip_blacklist),
        entry@.route_id == entry.route_id@,
        entry@.path == entry.path@,
        entry@.prefix == opt_text(entry.prefix),
        entry@.match_type == entry.match_type,
        entry@.methods == texts(entry.methods@),
        entry@.upstream == entry.upstream@,
        entry@.applicant == entry.applicant@,
        entry@.applied_at == entry.applied_at@,
        entry@.description == entry.description@,
        entry@.is_auth == entry.is_auth,
        candidate@.upstream == candidate.upstream@,
        candidate@.route_id == candidate.route_id@,
        candidate@.captures == opt_texts(candidate.captures),
        candidate@.canary == opt_view(candidate.canary),
        taken@.upstream == taken.upstream@,
        taken@.route_id == taken.route_id@,
        taken@.captures == opt_texts(taken.captures),
        ctx@.headers == map_views(ctx.headers@),
        ctx@.cookies == map_views(ctx.cookies@),
        ctx@.query_params == map_views(ctx.query_params@),
        ctx@.client_ip == opt_text(ctx.client_ip),
{
}

/// The views of what is known of a request show every part of it.
pub proof fn requests_are_viewed_whole(
    ctx: FilterContext,
    header: HeaderLine,
    change: HeaderChange,
    request: RequestContext,
    decision: CanaryDecision,
    record: RequestRecord,
)
    ensures
        ctx@.path == ctx.path@,
        ctx@.method == ctx.method@,
        ctx@.client_ip == ctx.client_ip@,
        ctx@.upstream_name == opt_text(ctx.upstream_name),
        ctx@.route_id == opt_text(ctx.route_id),
        ctx@.start_time == ctx.start_time,
        ctx@.rate_limit_remaining == ctx.rate_limit_remaining,
        ctx@.auth_user_id == opt_text(ctx.auth_user_id),
        header@.name == header.name@,
        header@.value == opt_text(header.value),
        change@.name == change.name@,
        change@.value == change.value@,
        request@.filter_ctx == opt_view(request.filter_ctx),
        request@.canary_decision == opt_view(request.canary_decision),
        decision@.route_id == decision.route_id@,
        decision@.sticky_cookie == opt_view(decision.sticky_cookie),
        decision@.is_new_assignment == decision.is_new_assignment,
        record@.method == record.method@,
        record@.upstream == record.upstream@,
        record@.failed == record.failed,
        record.canary matches Some(c) ==> record@.canary == Some((c.0@, c.1@)),
        record.canary is None ==> record@.canary is None,
{
}

/// The views of a token's claims, and of what is to be verified of it, show every part.
pub proof fn tokens_are_viewed_whole(claims: JwtClaims, value: ClaimValue, check: TokenCheck)
    ensures
        claims@.iss == claims.iss@,
        claims@.sub == claims.sub@,
        claims@.exp == claims.exp,
        claims@.iat == claims.iat,
        claims@.extra == map_views(claims.extra@),
        value matches ClaimValue::Text(s) ==> value@ == ClaimValueView::Text(s@),
        value matches ClaimValue::Json(s) ==> value@ == ClaimValueView::Json(s@),
        check@.token == check.token@,
        check@.algorithm == check.algorithm,
        check@.required_claims == texts(check.required_claims@),
        check@.issuer == check.issuer@,
        check@.leeway_secs == check.leeway_secs,
        check@.checks_audience == check.checks_audience,
{
}

/// The views of what the Admin API shows hold every part of it.
pub proof fn answers_are_viewed_whole(
    route: RouteDTO,
    registered: RouteRegistryDTO,
    upstream: UpstreamDTO,
)
    ensures
        route@.route_id == route.route_id@,
        route@.path == route.path@,
        route@.match_type == route.match_type@,
        route@.methods == texts(route.methods@),
        route@.upstream == route.upstream@,
        registered@.route_id == registered.route_id@,
        registered@.path == registered.path@,
        registered@.prefix == opt_text(registered.prefix),
        registered@.match_type == registered.match_type@,
        registered@.methods == texts(registered.methods@),
        registered@.upstream == registered.upstream@,
        registered@.applicant == registered.applicant@,
        registered@.applied_at == registered.applied_at@,
        registered@.description == registered.description@,
        upstream@.name == upstream.name@,
        upstream@.nodes == texts(upstream.nodes@),
{
}

} // verus!
