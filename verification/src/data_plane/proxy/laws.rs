//! What a request carries, where it is sent and what is noted of it.
use crate::config::types::{CanaryView, StickyCookieView, StickyStrategy};
use crate::control_plane::gateway_state::model::StateView;
use crate::data_plane::filter::{header_text, HeaderView};
use crate::data_plane::ip::ip_allowed;
use crate::data_plane::proxy::{
    canary_context, client_allowed, cookie_map, decision, first_context, header_map,
    peer_cluster, peer_error_status, peer_error_text, peer_noted, query_map, record, sticky_header, PeerError,
    RequestView,
};
use crate::data_plane::router::model::{ContextView, MatchView};
use crate::data_plane::router::router_white_list::resolve;
use crate::data_plane::upstream::ClusterView;
use crate::str_map::{distinct_keys, entry_of, lemma_entry_after_change};
use crate::text::{cut, decimal, pieces, trimmed};
use std::time::Instant;
use vstd::prelude::*;

verus! {

// ---- what a request carries ----

/// Of the headers with a given name that are text the last counts, at whatever place it
/// stands.
pub proof fn last_header_of_a_name_counts(
    headers: Seq<HeaderView>,
    name: Seq<char>,
    value: Seq<char>,
    k: int,
)
    requires
        0 <= k < headers.len(),
        headers[k].name == name,
        headers[k].value == Some(value),
        forall|i: int|
            k < i < headers.len() && (#[trigger] headers[i]).name == name ==> headers[i].value is None,
    ensures
        entry_of(header_map(headers), name) == Some(value),
        distinct_keys(header_map(headers)),
    decreases headers.len(),
{
    lemma_header_map(headers);
    let front = headers.drop_last();
    lemma_header_map(front);
    let last = headers.len() - 1;
    assert(headers[last] == headers.last());
    if k < last {
        assert forall|i: int|
            k < i < front.len() && (#[trigger] front[i]).name == name implies front[i].value is None by {
            assert(front[i] == headers[i]);
        }
        last_header_of_a_name_counts(front, name, value, k);
        if let Some(v) = headers.last().value {
            lemma_entry_after_change(header_map(front), headers.last().name, v, name);
        }
    } else {
        lemma_entry_after_change(header_map(front), name, value, name);
    }
}

/// A request has no header of a name under which it has none that is text.
pub proof fn missing_headers_are_missing(headers: Seq<HeaderView>, name: Seq<char>)
    requires
        forall|i: int|
            0 <= i < headers.len() && (#[trigger] headers[i]).name == name ==> headers[i].value is None,
    ensures
        entry_of(header_map(headers), name) is None,
        distinct_keys(header_map(headers)),
    decreases headers.len(),
{
    lemma_header_map(headers);
    if headers.len() > 0 {
        let front = headers.drop_last();
        lemma_header_map(front);
        let last = headers.len() - 1;
        assert(headers[last] == headers.last());
        assert forall|i: int|
            0 <= i < front.len() && (#[trigger] front[i]).name == name implies front[i].value is None by {
            assert(front[i] == headers[i]);
        }
        missing_headers_are_missing(front, name);
        if let Some(v) = headers.last().value {
            lemma_entry_after_change(header_map(front), headers.last().name, v, name);
        }
    }
}

proof fn lemma_header_map(headers: Seq<HeaderView>)
    ensures
        distinct_keys(header_map(headers)),
    decreases headers.len(),
{
    if headers.len() > 0 {
        let front = headers.drop_last();
        lemma_header_map(front);
        if let Some(v) = headers.last().value {
            lemma_entry_after_change(header_map(front), headers.last().name, v, headers.last().name);
        }
    }
}

/// The name and the value that a piece of a cookie header gives, without the white space
/// round them; nothing for a piece without "=".
pub open spec fn cookie_in(piece: Seq<char>) -> Option<(Seq<char>, Seq<char>)> {
    match cut(trimmed(piece), '=') {
        Some((key, value)) => Some((trimmed(key), trimmed(value))),
        None => None,
    }
}

/// Of the cookies with a given name the last counts, at whatever place it stands.
pub proof fn last_cookie_of_a_name_counts(
    list: Seq<Seq<char>>,
    name: Seq<char>,
    value: Seq<char>,
    k: int,
)
    requires
        0 <= k < list.len(),
        cookie_in(list[k]) == Some((name, value)),
        forall|i: int|
            k < i < list.len() ==> (cookie_in(#[trigger] list[i]) matches Some(c) ==> c.0 != name),
    ensures
        entry_of(cookie_map(list), name) == Some(value),
        distinct_keys(cookie_map(list)),
    decreases list.len(),
{
    let front = list.drop_last();
    lemma_cookie_map(front);
    let last = list.len() - 1;
    assert(list[last] == list.last());
    if k < last {
        assert forall|i: int| k < i < front.len() implies (cookie_in(
            #[trigger] front[i],
        ) matches Some(c) ==> c.0 != name) by {
            assert(front[i] == list[i]);
        }
        last_cookie_of_a_name_counts(front, name, value, k);
    }
    if let Some((key, v)) = cookie_in(list.last()) {
        lemma_entry_after_change(cookie_map(front), key, v, name);
    }
}

/// A request has no cookie of a name that no piece gives.
pub proof fn missing_cookies_are_missing(list: Seq<Seq<char>>, name: Seq<char>)
    requires
        forall|i: int|
            0 <= i < list.len() ==> (cookie_in(#[trigger] list[i]) matches Some(c) ==> c.0 != name),
    ensures
        entry_of(cookie_map(list), name) is None,
        distinct_keys(cookie_map(list)),
    decreases list.len(),
{
    if list.len() > 0 {
        let front = list.drop_last();
        let last = list.len() - 1;
        assert(list[last] == list.last());
        assert forall|i: int| 0 <= i < front.len() implies (cookie_in(
            #[trigger] front[i],
        ) matches Some(c) ==> c.0 != name) by {
            assert(front[i] == list[i]);
        }
        missing_cookies_are_missing(front, name);
        if let Some((key, v)) = cookie_in(list.last()) {
            lemma_entry_after_change(cookie_map(front), key, v, name);
        }
    }
}

proof fn lemma_cookie_map(list: Seq<Seq<char>>)
    ensures
        distinct_keys(cookie_map(list)),
    decreases list.len(),
{
    if list.len() > 0 {
        let front = list.drop_last();
        lemma_cookie_map(front);
        if let Some((key, v)) = cookie_in(list.last()) {
            lemma_entry_after_change(cookie_map(front), key, v, key);
        }
    }
}

/// Of the query parameters with a given name the last counts, at whatever place it stands.
pub proof fn last_parameter_of_a_name_counts(
    list: Seq<Seq<char>>,
    name: Seq<char>,
    value: Seq<char>,
    k: int,
)
    requires
        0 <= k < list.len(),
        cut(list[k], '=') == Some((name, value)),
        forall|i: int|
            k < i < list.len() ==> (cut(#[trigger] list[i], '=') matches Some(c) ==> c.0 != name),
    ensures
        entry_of(query_map(list), name) == Some(value),
        distinct_keys(query_map(list)),
    decreases list.len(),
{
    let front = list.drop_last();
    lemma_query_map(front);
    let last = list.len() - 1;
    assert(list[last] == list.last());
    if k < last {
        assert forall|i: int| k < i < front.len() implies (cut(
            #[trigger] front[i],
            '=',
        ) matches Some(c) ==> c.0 != name) by {
            assert(front[i] == list[i]);
        }
        last_parameter_of_a_name_counts(front, name, value, k);
    }
    if let Some((key, v)) = cut(list.last(), '=') {
        lemma_entry_after_change(query_map(front), key, v, name);
    }
}

/// A request has no query parameter of a name that no piece gives.
pub proof fn missing_parameters_are_missing(list: Seq<Seq<char>>, name: Seq<char>)
    requires
        forall|i: int|
            0 <= i < list.len() ==> (cut(#[trigger] list[i], '=') matches Some(c) ==> c.0 != name),
    ensures
        entry_of(query_map(list), name) is None,
        distinct_keys(query_map(list)),
    decreases list.len(),
{
    if list.len() > 0 {
        let front = list.drop_last();
        let last = list.len() - 1;
        assert(list[last] == list.last());
        assert forall|i: int| 0 <= i < front.len() implies (cut(
            #[trigger] front[i],
            '=',
        ) matches Some(c) ==> c.0 != name) by {
            assert(front[i] == list[i]);
        }
        missing_parameters_are_missing(front, name);
        if let Some((key, v)) = cut(list.last(), '=') {
            lemma_entry_after_change(query_map(front), key, v, name);
        }
    }
}

proof fn lemma_query_map(list: Seq<Seq<char>>)
    ensures
        distinct_keys(query_map(list)),
    decreases list.len(),
{
    if list.len() > 0 {
        let front = list.drop_last();
        lemma_query_map(front);
        if let Some((key, v)) = cut(list.last(), '=') {
            lemma_entry_after_change(query_map(front), key, v, key);
        }
    }
}

/// What decides between versions comes from the headers of the request, from the cookies of
/// its first cookie header, cut at the semicolons, from its query, cut at the ampersands, and
/// from the address of the client; in each part a name stands for one value.
pub proof fn versions_are_decided_by_what_the_request_carries(
    headers: Seq<HeaderView>,
    query: Option<Seq<char>>,
    client_ip: Option<Seq<char>>,
)
    ensures
        ({
            let ctx = canary_context(headers, query, client_ip);
            &&& ctx.headers == header_map(headers)
            &&& header_text(headers, "cookie"@) matches Some(line) ==> ctx.cookies == cookie_map(
                pieces(line, ';'),
            )
            &&& header_text(headers, "cookie"@) is None ==> ctx.cookies.len() == 0
            &&& query matches Some(q) ==> ctx.query_params == query_map(pieces(q, '&'))
            &&& query is None ==> ctx.query_params.len() == 0
            &&& ctx.client_ip == client_ip
            &&& distinct_keys(ctx.headers)
            &&& distinct_keys(ctx.cookies)
            &&& distinct_keys(ctx.query_params)
        }),
{
    lemma_header_map(headers);
    if let Some(line) = header_text(headers, "cookie"@) {
        lemma_cookie_map(pieces(line, ';'));
    }
    if let Some(q) = query {
        lemma_query_map(pieces(q, '&'));
    }
}

// ---- the beginning of a request ----

/// At first the filters know of a request its path, its method, the address of the client
/// and the id of the registered route of the path, and nothing else.
pub proof fn filters_know_the_request(
    path: Option<Seq<char>>,
    method: Seq<char>,
    client_ip: Option<Seq<char>>,
    start_time: Instant,
    state: StateView,
)
    ensures
        ({
            let f = first_context(path, method, client_ip, start_time, state);
            &&& path matches Some(p) ==> f.path == p
            &&& path is None ==> f.path == "/"@
            &&& f.method == method
            &&& client_ip matches Some(ip) ==> f.client_ip == ip
            &&& client_ip is None ==> f.client_ip.len() == 0
            &&& f.start_time == start_time
            &&& resolve(state.entries, f.path) matches Some(entry) ==> f.route_id == Some(
                entry.route_id,
            )
            &&& resolve(state.entries, f.path) is None ==> f.route_id is None
            &&& f.upstream_name is None
            &&& f.rate_limit_remaining is None
            &&& f.auth_user_id is None
        }),
{
}

// ---- where a request is sent ----

/// A request that is not sent on is answered with the first reason that there is: it has
/// taken no route (500), its path is not registered (403), the cluster of its route is not
/// there (500), or the address lists of the route keep the client out (500). Where none of
/// these holds it is sent to the cluster of its route.
pub proof fn the_first_reason_counts(
    state: StateView,
    path: Seq<char>,
    ctx: ContextView,
    taken: Option<MatchView>,
)
    ensures
        taken is None ==> peer_cluster(state, path, ctx, taken) == Err::<ClusterView, PeerError>(
            PeerError::NoRoute,
        ),
        taken is Some && resolve(state.entries, path) is None ==> peer_cluster(
            state,
            path,
            ctx,
            taken,
        ) == Err::<ClusterView, PeerError>(PeerError::NotRegistered),
        taken is Some && resolve(state.entries, path) is Some && entry_of(
            state.clusters,
            taken->0.upstream,
        ) is None ==> peer_cluster(state, path, ctx, taken) == Err::<ClusterView, PeerError>(
            PeerError::NoCluster,
        ),
        taken is Some && resolve(state.entries, path) is Some && entry_of(
            state.clusters,
            taken->0.upstream,
        ) is Some ==> peer_cluster(state, path, ctx, taken) == (if client_allowed(
            state,
            ctx,
            taken->0,
        ) {
            Ok(entry_of(state.clusters, taken->0.upstream)->0)
        } else {
            Err(PeerError::IpNotAllowed)
        }),
        peer_error_status(PeerError::NoRoute) == 500,
        peer_error_status(PeerError::NotRegistered) == 403,
        peer_error_status(PeerError::NoCluster) == 500,
        peer_error_status(PeerError::IpNotAllowed) == 500,
        peer_error_status(PeerError::NoPeer) == 502,
{
}

/// A client is let in by the address lists of the very rule that the request has taken, both
/// of them; a client whose address is not known is taken for one with an empty address.
pub proof fn lists_of_the_route_taken_count(state: StateView, ctx: ContextView, m: MatchView)
    ensures
        state.router.find(m.route_id) matches Some(rule) ==> (client_allowed(state, ctx, m)
            <==> ip_allowed(
            if ctx.client_ip is Some {
                ctx.client_ip->0
            } else {
                ""@
            },
            rule.ip_whitelist,
            rule.ip_blacklist,
        )),
        state.router.find(m.route_id) is None ==> client_allowed(state, ctx, m),
{
}

/// Of a request that is sent on the cluster, the registered route and, where its route has a
/// release, the version are noted; of one that is not, at most the registered route. All else
/// that is known of the request stays.
pub proof fn what_is_noted_of_a_request(
    request: RequestView,
    state: StateView,
    path: Seq<char>,
    ctx: ContextView,
    taken: Option<MatchView>,
)
    ensures
        ({
            let after = peer_noted(request, state, path, ctx, taken);
            let sent = peer_cluster(state, path, ctx, taken);
            &&& after.filter_ctx is Some <==> request.filter_ctx is Some
            &&& request.filter_ctx is Some ==> ({
                let f = request.filter_ctx->0;
                let g = after.filter_ctx->0;
                &&& g.path == f.path
                &&& g.method == f.method
                &&& g.client_ip == f.client_ip
                &&& g.start_time == f.start_time
                &&& g.rate_limit_remaining == f.rate_limit_remaining
                &&& g.auth_user_id == f.auth_user_id
                &&& sent is Ok ==> g.upstream_name == Some(taken->0.upstream)
                &&& sent is Err ==> g.upstream_name == f.upstream_name
                &&& sent is Ok || sent == Err::<ClusterView, PeerError>(PeerError::IpNotAllowed)
                    ==> g.route_id == Some(resolve(state.entries, path)->0.route_id)
                &&& sent is Err && sent != Err::<ClusterView, PeerError>(PeerError::IpNotAllowed)
                    ==> g.route_id == f.route_id
            })
            &&& sent is Err ==> after.canary_decision == request.canary_decision
            &&& sent is Ok ==> (match state.router.find(taken->0.route_id) {
                Some(rule) => match rule.canary {
                    Some(canary) => after.canary_decision == Some(
                        decision(canary, ctx, taken->0.route_id),
                    ),
                    None => after.canary_decision == request.canary_decision,
                },
                None => after.canary_decision == request.canary_decision,
            })
        }),
{
}

// ---- the cookie that keeps a client ----

/// The cookie of a release that keeps clients by one: the configured one, or else
/// `kirin_canary` for the whole site and for an hour.
pub open spec fn cookie_of(canary: CanaryView) -> StickyCookieView {
    match canary.sticky_cookie {
        Some(cookie) => cookie,
        None => StickyCookieView { name: "kirin_canary"@, path: "/"@, max_age: 3600 },
    }
}

/// A client is given the cookie of the release if and only if the release keeps clients by
/// one and the request did not come with that cookie for the route that it takes. The
/// cookie names the route and has the configured path and age.
pub proof fn clients_are_given_the_cookie_of_their_route(
    canary: CanaryView,
    ctx: ContextView,
    request: RequestView,
    route_id: Seq<char>,
)
    requires
        request.filter_ctx is Some,
        request.canary_decision == Some(decision(canary, ctx, route_id)),
    ensures
        sticky_header(request) is Some <==> canary.stick == Some(StickyStrategy::Cookie)
            && entry_of(ctx.cookies, cookie_of(canary).name) != Some(route_id),
        sticky_header(request) matches Some(h) ==> h.name == "Set-Cookie"@ && h.value == cookie_of(
            canary,
        ).name + "="@ + route_id + "; Path="@ + cookie_of(canary).path + "; Max-Age="@ + decimal(
            cookie_of(canary).max_age as nat,
        ),
{
}

/// Without a release, and for a request that the filters never saw, there is no cookie.
pub proof fn no_cookie_without_a_release(request: RequestView)
    requires
        request.filter_ctx is None || request.canary_decision is None,
    ensures
        sticky_header(request) is None,
{
}

// ---- the end of a request ----

/// A finished request is counted under its method, the cluster that it was sent to and
/// whether it failed, and where its route has a release also under the route, with status
/// 500 where it failed and 200 where it did not.
pub proof fn requests_are_counted_by_what_they_were(request: RequestView, failed: bool)
    ensures
        record(request, failed) is Some <==> request.filter_ctx is Some,
        record(request, failed) matches Some(r) ==> {
            &&& r.method == request.filter_ctx->0.method
            &&& request.filter_ctx->0.upstream_name matches Some(u) ==> r.upstream == u
            &&& request.filter_ctx->0.upstream_name is None ==> r.upstream == "unknown"@
            &&& r.failed == failed
            &&& r.canary is Some <==> request.canary_decision is Some
            &&& r.canary matches Some(c) ==> c.0 == request.canary_decision->0.route_id && (failed
                ==> c.1 == "500"@) && (!failed ==> c.1 == "200"@)
        },
{
}

/// Each reason has a message of its own.
pub proof fn reasons_have_their_messages()
    ensures
        peer_error_text(PeerError::NoRoute) == "404 No route matched"@,
        peer_error_text(PeerError::NotRegistered) == "403 Route not registered in whitelist"@,
        peer_error_text(PeerError::NoCluster) == "上游集群未注册"@,
        peer_error_text(PeerError::IpNotAllowed) == "403 IP not allowed"@,
        peer_error_text(PeerError::NoPeer) == "无可用上游节点"@,
{
}

} // verus!
