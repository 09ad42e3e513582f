//! Validation of a configuration: every mistake is reported, in order.
use crate::config::types::{
    AuthConfigRaw, AuthRawView, KirinConfig, KirinView, NodeView, RateLimitConfig, RouteConfig,
    RouteView, ServerConfig, ServerView, UpstreamConfig, UpstreamView,
};
use crate::model::{map_views, views};
use crate::outside::{debug_list, debug_texts, parse_socket_addr, socket_addr_error};
use crate::str_map::{has_key, keys_of, lemma_map_views, StrMap};
use crate::text::{blank, decimal, decimal_text, is_blank, join2, join3, join5, opt_text, same_text};
use vstd::prelude::*;

verus! {

/// A mistake in a configuration.
pub struct ValidationError {
    /// Path of the field at fault.
    pub field: String,
    /// What is wrong with it.
    pub message: String,
    /// The route it belongs to, where it belongs to one.
    pub route_id: Option<String>,
}

pub struct MistakeView {
    pub field: Seq<char>,
    pub message: Seq<char>,
    pub route_id: Option<Seq<char>>,
}

impl View for ValidationError {
    type V = MistakeView;

    open spec fn view(&self) -> MistakeView {
        MistakeView {
            field: self.field@,
            message: self.message@,
            route_id: opt_text(self.route_id),
        }
    }
}

impl ValidationError {
    /// The mistake in one line.
    pub fn to_text(&self) -> (r: String)
        ensures
            r@ == match self@.route_id {
                None => self@.field + ": "@ + self@.message,
                Some(rid) => "[route="@ + rid + "] "@ + self@.field + ": "@ + self@.message,
            },
    {
        match &self.route_id {
            None => join3(self.field.as_str(), ": ", self.message.as_str()),
            Some(rid) => {
                let mut r = join5("[route=", rid.as_str(), "] ", self.field.as_str(), ": ");
                r.append(self.message.as_str());
                r
            },
        }
    }
}

/// A mistake that belongs to no route.
pub open spec fn mistake(field: Seq<char>, message: Seq<char>) -> MistakeView {
    MistakeView { field, message, route_id: None }
}

/// A mistake of a route.
pub open spec fn route_mistake(
    field: Seq<char>,
    message: Seq<char>,
    route_id: Seq<char>,
) -> MistakeView {
    MistakeView { field, message, route_id: Some(route_id) }
}

/// `m` alone where the condition holds, nothing otherwise.
pub open spec fn given(condition: bool, m: MistakeView) -> Seq<MistakeView> {
    if condition {
        seq![m]
    } else {
        Seq::empty()
    }
}

/// The mistakes of the listener.
pub open spec fn server_mistakes(server: ServerView) -> Seq<MistakeView> {
    (match socket_addr_error(server.listen) {
        Some(e) => seq![mistake("server.listen"@, "invalid listen address: "@ + e)],
        None => Seq::empty(),
    }) + given(
        server.threads == Some(0usize),
        mistake("server.threads"@, "worker threads of gateway must be greater than 0"@),
    )
}

/// Whether a required text is missing: absent, or nothing but white space.
pub open spec fn missing(text: Option<Seq<char>>) -> bool {
    match text {
        Some(t) => blank(t),
        None => true,
    }
}

/// Whether a text names a way to match paths.
pub open spec fn known_match_type(s: Seq<char>) -> bool {
    s == "exact"@ || s == "prefix"@ || s == "regex"@
}

/// The mistakes of a route; `repeated` says whether an earlier route has its id.
pub open spec fn route_mistakes(
    route: RouteView,
    repeated: bool,
    upstreams: Seq<(Seq<char>, UpstreamView)>,
) -> Seq<MistakeView> {
    let id = route.route_id;
    if blank(id) {
        seq![mistake("route.route_id"@, "route_id must not be empty"@)]
    } else {
        given(
            repeated,
            route_mistake("route.route_id"@, "route_id '"@ + id + "' is duplicated"@, id),
        ) + given(
            !known_match_type(route.match_type),
            route_mistake(
                "route.match_type"@,
                "Invalid match_type "@ + route.match_type
                    + ". You can choose: exact, prefix, regex"@,
                id,
            ),
        ) + given(
            (route.match_type == "exact"@ || route.match_type == "regex"@) && missing(route.path),
            route_mistake(
                "route.path"@,
                "match_type 为 '"@ + route.match_type + "' 时 path 必须存在且非空"@,
                id,
            ),
        ) + given(
            route.match_type == "prefix"@ && missing(route.path_prefix),
            route_mistake(
                "route.path_prefix"@,
                "match_type 为 'prefix' 时 path_prefix 必须存在且非空"@,
                id,
            ),
        ) + given(
            !has_key(upstreams, route.upstream),
            route_mistake(
                "route.upstream"@,
                "upstream '"@ + route.upstream + "' does not exist. You can choose: "@
                    + debug_list(keys_of(upstreams)),
                id,
            ),
        )
    }
}

/// Whether one of the routes has the id `id`.
pub open spec fn id_among(routes: Seq<RouteView>, id: Seq<char>) -> bool {
    exists|i: int| 0 <= i < routes.len() && #[trigger] routes[i].route_id == id
}

/// The mistakes of a list of routes.
pub open spec fn routes_mistakes(
    routes: Seq<RouteView>,
    upstreams: Seq<(Seq<char>, UpstreamView)>,
) -> Seq<MistakeView>
    decreases routes.len(),
{
    if routes.len() == 0 {
        Seq::empty()
    } else {
        routes_mistakes(routes.drop_last(), upstreams) + route_mistakes(
            routes.last(),
            id_among(routes.drop_last(), routes.last().route_id),
            upstreams,
        )
    }
}

/// The mistakes of the `i`-th node of the upstream `name`.
pub open spec fn node_mistakes(name: Seq<char>, i: nat, node: NodeView) -> Seq<MistakeView> {
    let at = "upstream."@ + name + ".nodes["@ + decimal(i);
    (match socket_addr_error(node.addr) {
        Some(e) => seq![mistake(at + "].addr"@, "地址格式无效: "@ + e)],
        None => Seq::empty(),
    }) + given(node.weight == 0, mistake(at + "].weight"@, "权重必须大于 0"@))
}

/// The mistakes of the nodes of the upstream `name`.
pub open spec fn nodes_mistakes(name: Seq<char>, nodes: Seq<NodeView>) -> Seq<MistakeView>
    decreases nodes.len(),
{
    if nodes.len() == 0 {
        Seq::empty()
    } else {
        nodes_mistakes(name, nodes.drop_last()) + node_mistakes(
            name,
            (nodes.len() - 1) as nat,
            nodes.last(),
        )
    }
}

/// The mistakes of one upstream.
pub open spec fn upstream_mistakes(name: Seq<char>, upstream: UpstreamView) -> Seq<MistakeView> {
    given(
        upstream.nodes.len() == 0,
        mistake("upstream."@ + name + ".nodes"@, "至少需要一个节点"@),
    ) + nodes_mistakes(name, upstream.nodes)
}

/// The mistakes of all upstreams.
pub open spec fn upstreams_mistakes(upstreams: Seq<(Seq<char>, UpstreamView)>) -> Seq<MistakeView>
    decreases upstreams.len(),
{
    if upstreams.len() == 0 {
        Seq::empty()
    } else {
        upstreams_mistakes(upstreams.drop_last()) + upstream_mistakes(
            upstreams.last().0,
            upstreams.last().1,
        )
    }
}

/// The mistakes of a rate limiting policy.
pub open spec fn rate_limit_mistakes(rl: RateLimitConfig) -> Seq<MistakeView> {
    given(rl.capacity == 0, mistake("rate_limit.capacity"@, "令牌桶容量必须大于 0"@)) + given(
        rl.refill_rate == 0,
        mistake("rate_limit.refill_rate"@, "令牌补充速率必须大于 0"@),
    )
}

/// The mistakes of an authentication policy.
pub open spec fn auth_mistakes(auth: AuthRawView) -> Seq<MistakeView> {
    given(
        auth.algorithm != "RS256"@,
        mistake(
            "auth.algorithm"@,
            "签名算法 '"@ + auth.algorithm + "' 无效，当前仅支持 RS256"@,
        ),
    ) + given(
        blank(auth.public_key_path),
        mistake("auth.public_key_path"@, "公钥文件路径不能为空"@),
    ) + given(blank(auth.issuer), mistake("auth.issuer"@, "Token 签发者不能为空"@))
}

/// All mistakes of a configuration, in the order in which they are reported.
pub open spec fn config_mistakes(config: KirinView) -> Seq<MistakeView> {
    server_mistakes(config.server) + routes_mistakes(config.routes, config.upstreams)
        + upstreams_mistakes(config.upstreams) + (match config.rate_limit {
        Some(rl) => rate_limit_mistakes(rl),
        None => Seq::empty(),
    }) + (match config.auth {
        Some(auth) => auth_mistakes(auth),
        None => Seq::empty(),
    })
}

/// Validates a whole configuration: all its mistakes, or none.
pub fn validate_config(config: &KirinConfig) -> (r: Result<(), Vec<ValidationError>>)
    ensures
        match r {
            Ok(_) => config_mistakes(config@).len() == 0,
            Err(errors) => config_mistakes(config@).len() > 0 && views(errors@) == config_mistakes(
                config@,
            ),
        },
{
    let mut errors: Vec<ValidationError> = Vec::new();
    validate_server(&config.server, &mut errors);
    validate_routes(&config.routes, &config.upstreams, &mut errors);
    validate_upstreams(&config.upstreams, &mut errors);
    if let Some(rl) = &config.rate_limit {
        validate_rate_limit(rl, &mut errors);
    }
    if let Some(auth) = &config.auth {
        validate_auth(auth, &mut errors);
    }
    assert(views(errors@) =~= config_mistakes(config@));
    if errors.len() == 0 {
        Ok(())
    } else {
        Err(errors)
    }
}

/// Validates a single route against the given upstreams.
pub fn validate_route_config(route: &RouteConfig, upstreams: &StrMap<UpstreamConfig>) -> (r: Result<
    (),
    Vec<ValidationError>,
>)
    ensures
        match r {
            Ok(_) => route_mistakes(route@, false, map_views(upstreams@)).len() == 0,
            Err(errors) => errors@.len() > 0 && views(errors@) == route_mistakes(
                route@,
                false,
                map_views(upstreams@),
            ),
        },
{
    let mut errors: Vec<ValidationError> = Vec::new();
    validate_route(route, false, upstreams, &mut errors);
    assert(views(errors@) =~= route_mistakes(route@, false, map_views(upstreams@)));
    if errors.len() == 0 {
        Ok(())
    } else {
        Err(errors)
    }
}

/// Appends a mistake that belongs to no route.
fn report(errors: &mut Vec<ValidationError>, field: String, message: String)
    ensures
        views(final(errors)@) == views(old(errors)@).push(mistake(field@, message@)),
{
    errors.push(ValidationError { field, message, route_id: None });
    assert(views(errors@) =~= views(old(errors)@).push(mistake(field@, message@)));
}

/// Appends a mistake of a route.
fn report_route(errors: &mut Vec<ValidationError>, field: &str, message: String, route_id: &String)
    ensures
        views(final(errors)@) == views(old(errors)@).push(
            route_mistake(field@, message@, route_id@),
        ),
{
    errors.push(
        ValidationError { field: field.to_owned(), message, route_id: Some(route_id.clone()) },
    );
    assert(views(errors@) =~= views(old(errors)@).push(
        route_mistake(field@, message@, route_id@),
    ));
}

/// Appends the mistake of an address that is none; `outcome` says whether it is one, and
/// `label` begins the message.
pub fn report_address(
    errors: &mut Vec<ValidationError>,
    field: String,
    label: &str,
    outcome: &Result<(), String>,
)
    ensures
        views(final(errors)@) == views(old(errors)@) + (match outcome {
            Ok(_) => Seq::empty(),
            Err(e) => seq![mistake(field@, label@ + e@)],
        }),
{
    if let Err(e) = outcome {
        report(errors, field, join2(label, e.as_str()));
    }
    assert(views(errors@) =~= views(old(errors)@) + (match outcome {
        Ok(_) => Seq::empty(),
        Err(e) => seq![mistake(field@, label@ + e@)],
    }));
}

fn validate_server(server: &ServerConfig, errors: &mut Vec<ValidationError>)
    ensures
        views(final(errors)@) == views(old(errors)@) + server_mistakes(server@),
{
    let listen = parse_socket_addr(server.listen.as_str());
    report_address(errors, "server.listen".to_owned(), "invalid listen address: ", &listen);
    if let Some(threads) = server.threads {
        if threads == 0 {
            report(
                errors,
                "server.threads".to_owned(),
                "worker threads of gateway must be greater than 0".to_owned(),
            );
        }
    }
    assert(views(errors@) =~= views(old(errors)@) + server_mistakes(server@));
}

/// Whether a required text is missing.
fn is_missing(text: &Option<String>) -> (r: bool)
    ensures
        r == missing(opt_text(*text)),
{
    match text {
        Some(t) => is_blank(t.as_str()),
        None => true,
    }
}

fn validate_routes(
    routes: &Vec<RouteConfig>,
    upstreams: &StrMap<UpstreamConfig>,
    errors: &mut Vec<ValidationError>,
)
    ensures
        views(final(errors)@) == views(old(errors)@) + routes_mistakes(
            views(routes@),
            map_views(upstreams@),
        ),
{
    let ghost all = views(routes@);
    let ghost before = views(errors@);
    let mut i: usize = 0;
    assert(before + routes_mistakes(all.take(0), map_views(upstreams@)) =~= before);
    while i < routes.len()
        invariant
            i <= routes@.len(),
            all == views(routes@),
            views(errors@) == before + routes_mistakes(all.take(i as int), map_views(upstreams@)),
        decreases routes@.len() - i,
    {
        let repeated = id_before(routes, i, routes[i].route_id.as_str());
        validate_route(&routes[i], repeated, upstreams, errors);
        proof {
            assert(all.take(i + 1).drop_last() =~= all.take(i as int));
            assert(all.take(i + 1).last() == routes@[i as int]@);
        }
        assert(views(errors@) =~= before + routes_mistakes(
            all.take(i + 1),
            map_views(upstreams@),
        ));
        i += 1;
    }
    assert(all.take(i as int) =~= all);
}

/// Whether one of the first `n` routes has the id `id`.
fn id_before(routes: &Vec<RouteConfig>, n: usize, id: &str) -> (r: bool)
    requires
        n <= routes@.len(),
    ensures
        r == id_among(views(routes@).take(n as int), id@),
{
    let ghost seen = views(routes@).take(n as int);
    let mut i: usize = 0;
    while i < n
        invariant
            i <= n <= routes@.len(),
            seen == views(routes@).take(n as int),
            forall|j: int| 0 <= j < i ==> #[trigger] seen[j].route_id != id@,
        decreases n - i,
    {
        assert(seen[i as int] == routes@[i as int]@);
        if same_text(routes[i].route_id.as_str(), id) {
            assert(seen[i as int].route_id == id@);
            return true;
        }
        i += 1;
    }
    false
}

fn validate_route(
    route: &RouteConfig,
    repeated: bool,
    upstreams: &StrMap<UpstreamConfig>,
    errors: &mut Vec<ValidationError>,
)
    ensures
        views(final(errors)@) == views(old(errors)@) + route_mistakes(
            route@,
            repeated,
            map_views(upstreams@),
        ),
{
    proof {
        lemma_map_views(upstreams@, route.upstream@);
    }
    if is_blank(route.route_id.as_str()) {
        report(
            errors,
            "route.route_id".to_owned(),
            "route_id must not be empty".to_owned(),
        );
        assert(views(errors@) =~= views(old(errors)@) + route_mistakes(
            route@,
            repeated,
            map_views(upstreams@),
        ));
        return ;
    }
    if repeated {
        report_route(
            errors,
            "route.route_id",
            join3("route_id '", route.route_id.as_str(), "' is duplicated"),
            &route.route_id,
        );
    }
    let exact = same_text(route.match_type.as_str(), "exact");
    let regex = same_text(route.match_type.as_str(), "regex");
    let prefix = same_text(route.match_type.as_str(), "prefix");
    if !exact && !regex && !prefix {
        report_route(
            errors,
            "route.match_type",
            join3(
                "Invalid match_type ",
                route.match_type.as_str(),
                ". You can choose: exact, prefix, regex",
            ),
            &route.route_id,
        );
    }
    if (exact || regex) && is_missing(&route.path) {
        report_route(
            errors,
            "route.path",
            join3(
                "match_type 为 '",
                route.match_type.as_str(),
                "' 时 path 必须存在且非空",
            ),
            &route.route_id,
        );
    }
    if prefix && is_missing(&route.path_prefix) {
        report_route(
            errors,
            "route.path_prefix",
            "match_type 为 'prefix' 时 path_prefix 必须存在且非空".to_owned(),
            &route.route_id,
        );
    }
    if !upstreams.contains_key(route.upstream.as_str()) {
        let names = upstreams.keys();
        let mut message = join3(
            "upstream '",
            route.upstream.as_str(),
            "' does not exist. You can choose: ",
        );
        message.append(debug_texts(&names).as_str());
        report_route(errors, "route.upstream", message, &route.route_id);
    }
    assert(views(errors@) =~= views(old(errors)@) + route_mistakes(
        route@,
        repeated,
        map_views(upstreams@),
    ));
}

fn validate_upstreams(upstreams: &StrMap<UpstreamConfig>, errors: &mut Vec<ValidationError>)
    ensures
        views(final(errors)@) == views(old(errors)@) + upstreams_mistakes(map_views(upstreams@)),
{
    let ghost all = map_views(upstreams@);
    let ghost before = views(errors@);
    let mut i: usize = 0;
    assert(before + upstreams_mistakes(all.take(0)) =~= before);
    while i < upstreams.len()
        invariant
            i <= upstreams@.len(),
            all == map_views(upstreams@),
            views(errors@) == before + upstreams_mistakes(all.take(i as int)),
        decreases upstreams@.len() - i,
    {
        validate_upstream(upstreams.key_at(i), upstreams.value_at(i), errors);
        proof {
            assert(all.take(i + 1).drop_last() =~= all.take(i as int));
            assert(all.take(i + 1).last() == all[i as int]);
        }
        assert(views(errors@) =~= before + upstreams_mistakes(all.take(i + 1)));
        i += 1;
    }
    assert(all.take(i as int) =~= all);
}

fn validate_upstream(name: &String, upstream: &UpstreamConfig, errors: &mut Vec<ValidationError>)
    ensures
        views(final(errors)@) == views(old(errors)@) + upstream_mistakes(name@, upstream@),
{
    if upstream.nodes.len() == 0 {
        report(
            errors,
            join3("upstream.", name.as_str(), ".nodes"),
            "至少需要一个节点".to_owned(),
        );
    }
    let ghost all = views(upstream.nodes@);
    let ghost before = views(errors@);
    let mut i: usize = 0;
    assert(before + nodes_mistakes(name@, all.take(0)) =~= before);
    while i < upstream.nodes.len()
        invariant
            i <= upstream.nodes@.len(),
            all == views(upstream.nodes@),
            views(errors@) == before + nodes_mistakes(name@, all.take(i as int)),
        decreases upstream.nodes@.len() - i,
    {
        let node = &upstream.nodes[i];
        let ghost sofar = views(errors@);
        let mut at = join3("upstream.", name.as_str(), ".nodes[");
        at.append(decimal_text(i as u64).as_str());
        let addr = parse_socket_addr(node.addr.as_str());
        report_address(errors, join2(at.as_str(), "].addr"), "地址格式无效: ", &addr);
        if node.weight == 0 {
            report(errors, join2(at.as_str(), "].weight"), "权重必须大于 0".to_owned());
        }
        proof {
            assert(all.take(i + 1).drop_last() =~= all.take(i as int));
            assert(all.take(i + 1).last() == node@);
            assert(views(errors@) =~= sofar + node_mistakes(name@, i as nat, node@));
        }
        assert(views(errors@) =~= before + nodes_mistakes(name@, all.take(i + 1)));
        i += 1;
    }
    assert(all.take(i as int) =~= all);
    assert(views(errors@) =~= views(old(errors)@) + upstream_mistakes(name@, upstream@));
}

fn validate_rate_limit(rl: &RateLimitConfig, errors: &mut Vec<ValidationError>)
    ensures
        views(final(errors)@) == views(old(errors)@) + rate_limit_mistakes(*rl),
{
    if rl.capacity == 0 {
        report(
            errors,
            "rate_limit.capacity".to_owned(),
            "令牌桶容量必须大于 0".to_owned(),
        );
    }
    if rl.refill_rate == 0 {
        report(
            errors,
            "rate_limit.refill_rate".to_owned(),
            "令牌补充速率必须大于 0".to_owned(),
        );
    }
    assert(views(errors@) =~= views(old(errors)@) + rate_limit_mistakes(*rl));
}

fn validate_auth(auth: &AuthConfigRaw, errors: &mut Vec<ValidationError>)
    ensures
        views(final(errors)@) == views(old(errors)@) + auth_mistakes(auth@),
{
    if !same_text(auth.algorithm.as_str(), "RS256") {
        report(
            errors,
            "auth.algorithm".to_owned(),
            join3(
                "签名算法 '",
                auth.algorithm.as_str(),
                "' 无效，当前仅支持 RS256",
            ),
        );
    }
    if is_blank(auth.public_key_path.as_str()) {
        report(
            errors,
            "auth.public_key_path".to_owned(),
            "公钥文件路径不能为空".to_owned(),
        );
    }
    if is_blank(auth.issuer.as_str()) {
        report(errors, "auth.issuer".to_owned(), "Token 签发者不能为空".to_owned());
    }
    assert(views(errors@) =~= views(old(errors)@) + auth_mistakes(auth@));
}

/// What every accepted route satisfies.
pub open spec fn sound_route(route: RouteView, upstreams: Seq<(Seq<char>, UpstreamView)>) -> bool {
    &&& !blank(route.route_id)
    &&& known_match_type(route.match_type)
    &&& (route.match_type == "exact"@ || route.match_type == "regex"@) ==> !missing(route.path)
    &&& route.match_type == "prefix"@ ==> !missing(route.path_prefix)
    &&& has_key(upstreams, route.upstream)
}

/// Whether no two routes have the same id.
pub open spec fn distinct_ids(routes: Seq<RouteView>) -> bool {
    forall|i: int, j: int|
        0 <= i < j < routes.len() ==> #[trigger] routes[i].route_id
            != #[trigger] routes[j].route_id
}

/// A list of routes has no mistake exactly if each of them is sound and no id is
/// used twice.
pub proof fn routes_without_mistakes(
    routes: Seq<RouteView>,
    upstreams: Seq<(Seq<char>, UpstreamView)>,
)
    ensures
        routes_mistakes(routes, upstreams).len() == 0 <==> (distinct_ids(routes) && forall|i: int|
            0 <= i < routes.len() ==> sound_route(#[trigger] routes[i], upstreams)),
    decreases routes.len(),
{
    if routes.len() > 0 {
        let front = routes.drop_last();
        let last = routes.last();
        routes_without_mistakes(front, upstreams);
        let repeated = id_among(front, last.route_id);
        assert(route_mistakes(last, repeated, upstreams).len() == 0 <==> !repeated && sound_route(
            last,
            upstreams,
        ));
        let sound = distinct_ids(routes) && forall|i: int|
            0 <= i < routes.len() ==> sound_route(#[trigger] routes[i], upstreams);
        if routes_mistakes(routes, upstreams).len() == 0 {
            assert forall|i: int, j: int| 0 <= i < j < routes.len() implies #[trigger] routes[i].route_id
                != #[trigger] routes[j].route_id by {
                assert(routes[i] == front[i]);
                if j < routes.len() - 1 {
                    assert(routes[j] == front[j]);
                }
            }
            assert forall|i: int| 0 <= i < routes.len() implies sound_route(
                #[trigger] routes[i],
                upstreams,
            ) by {
                if i < routes.len() - 1 {
                    assert(routes[i] == front[i]);
                }
            }
        }
        if sound {
            assert forall|i: int, j: int| 0 <= i < j < front.len() implies #[trigger] front[i].route_id
                != #[trigger] front[j].route_id by {
                assert(routes[i].route_id != routes[j].route_id);
            }
            assert forall|i: int| 0 <= i < front.len() implies sound_route(
                #[trigger] front[i],
                upstreams,
            ) by {
                assert(sound_route(routes[i], upstreams));
            }
            if repeated {
                let k = choose|k: int|
                    0 <= k < front.len() && #[trigger] front[k].route_id == last.route_id;
                assert(routes[k].route_id != routes[routes.len() - 1].route_id);
            }
            assert(sound_route(routes[routes.len() - 1], upstreams));
        }
    }
}

/// What every accepted upstream satisfies.
pub open spec fn sound_upstream(upstream: UpstreamView) -> bool {
    &&& upstream.nodes.len() > 0
    &&& forall|i: int|
        0 <= i < upstream.nodes.len() ==> socket_addr_error((#[trigger] upstream.nodes[i]).addr) is None
            && upstream.nodes[i].weight > 0
}

proof fn lemma_nodes_without_mistakes(name: Seq<char>, nodes: Seq<NodeView>)
    ensures
        nodes_mistakes(name, nodes).len() == 0 <==> forall|i: int|
            0 <= i < nodes.len() ==> socket_addr_error((#[trigger] nodes[i]).addr) is None
                && nodes[i].weight > 0,
    decreases nodes.len(),
{
    if nodes.len() > 0 {
        let front = nodes.drop_last();
        lemma_nodes_without_mistakes(name, front);
        assert forall|i: int| 0 <= i < front.len() implies #[trigger] front[i] == nodes[i] by {}
        assert(node_mistakes(name, (nodes.len() - 1) as nat, nodes.last()).len() == 0
            <==> socket_addr_error(nodes.last().addr) is None && nodes.last().weight > 0);
        if nodes_mistakes(name, nodes).len() == 0 {
            assert forall|i: int| 0 <= i < nodes.len() implies socket_addr_error(
                (#[trigger] nodes[i]).addr,
            ) is None && nodes[i].weight > 0 by {
                if i < nodes.len() - 1 {
                    assert(nodes[i] == front[i]);
                }
            }
        }
        if forall|i: int|
            0 <= i < nodes.len() ==> socket_addr_error((#[trigger] nodes[i]).addr) is None
                && nodes[i].weight > 0 {
            assert(socket_addr_error(nodes[nodes.len() - 1].addr) is None);
        }
    }
}

/// A list of upstreams has no mistake exactly if each of them is sound.
pub proof fn upstreams_without_mistakes(upstreams: Seq<(Seq<char>, UpstreamView)>)
    ensures
        upstreams_mistakes(upstreams).len() == 0 <==> forall|i: int|
            0 <= i < upstreams.len() ==> sound_upstream((#[trigger] upstreams[i]).1),
    decreases upstreams.len(),
{
    if upstreams.len() > 0 {
        let front = upstreams.drop_last();
        let last = upstreams.last();
        upstreams_without_mistakes(front);
        lemma_nodes_without_mistakes(last.0, last.1.nodes);
        assert(upstream_mistakes(last.0, last.1).len() == 0 <==> sound_upstream(last.1));
        if upstreams_mistakes(upstreams).len() == 0 {
            assert forall|i: int| 0 <= i < upstreams.len() implies sound_upstream(
                (#[trigger] upstreams[i]).1,
            ) by {
                if i < upstreams.len() - 1 {
                    assert(upstreams[i] == front[i]);
                }
            }
        }
        if forall|i: int| 0 <= i < upstreams.len() ==> sound_upstream((#[trigger] upstreams[i]).1) {
            assert forall|i: int| 0 <= i < front.len() implies sound_upstream(
                (#[trigger] front[i]).1,
            ) by {
                assert(sound_upstream(upstreams[i].1));
            }
            assert(sound_upstream(upstreams[upstreams.len() - 1].1));
        }
    }
}

/// A configuration is accepted exactly if its listener, its routes, its upstreams
/// and its policies are sound.
pub proof fn accepted_exactly_if_sound(config: KirinView)
    ensures
        config_mistakes(config).len() == 0 <==> {
            &&& socket_addr_error(config.server.listen) is None
            &&& config.server.threads != Some(0usize)
            &&& distinct_ids(config.routes)
            &&& forall|i: int|
                0 <= i < config.routes.len() ==> sound_route(
                    #[trigger] config.routes[i],
                    config.upstreams,
                )
            &&& forall|i: int|
                0 <= i < config.upstreams.len() ==> sound_upstream(
                    (#[trigger] config.upstreams[i]).1,
                )
            &&& config.rate_limit matches Some(rl) ==> rl.capacity > 0 && rl.refill_rate > 0
            &&& config.auth matches Some(auth) ==> auth.algorithm == "RS256"@ && !blank(
                auth.public_key_path,
            ) && !blank(auth.issuer)
        },
{
    routes_without_mistakes(config.routes, config.upstreams);
    upstreams_without_mistakes(config.upstreams);
}

} // verus!
