//! The Admin API: which request asks for what, and how the answers look.
use crate::config::types::NodeView;
use crate::control_plane::admin_api::dto::{RateLimitDTO, UpstreamSummary};
use crate::control_plane::gateway_state::model::Clusters;
use crate::control_plane::gateway_state::GatewayState;
use crate::data_plane::upstream::ClusterView;
use crate::outside::{json_string, to_json_string};
use crate::text::{join3, same_text};
use vstd::prelude::*;

pub mod dto;

verus! {

/// What a request to the Admin API asks for.
#[derive(Clone, Copy, Debug, PartialEq, Eq, Structural)]
pub enum AdminAction {
    /// All routing rules.
    Routes,
    /// All upstream clusters.
    Upstreams,
    /// The rate limiting policy.
    RateLimit,
    /// A full reload of the configuration.
    Reload,
    /// Nothing that there is.
    NotFound,
}

/// What a request to the Admin API asks for.
pub open spec fn action_of(method: Seq<char>, path: Seq<char>) -> AdminAction {
    if method == "GET"@ && path == "/admin/routes"@ {
        AdminAction::Routes
    } else if method == "GET"@ && path == "/admin/upstreams"@ {
        AdminAction::Upstreams
    } else if method == "GET"@ && path == "/admin/rate-limit"@ {
        AdminAction::RateLimit
    } else if method == "POST"@ && path == "/admin/reload"@ {
        AdminAction::Reload
    } else {
        AdminAction::NotFound
    }
}

/// What a request to the Admin API asks for.
pub fn admin_action(method: &str, path: &str) -> (r: AdminAction)
    ensures
        r == action_of(method@, path@),
{
    let get = same_text(method, "GET");
    if get && same_text(path, "/admin/routes") {
        AdminAction::Routes
    } else if get && same_text(path, "/admin/upstreams") {
        AdminAction::Upstreams
    } else if get && same_text(path, "/admin/rate-limit") {
        AdminAction::RateLimit
    } else if same_text(method, "POST") && same_text(path, "/admin/reload") {
        AdminAction::Reload
    } else {
        AdminAction::NotFound
    }
}

/// The body of an answer that carries data, which is given as JSON.
pub open spec fn ok_body(data: Seq<char>) -> Seq<char> {
    "{\"status\":\"ok\",\"data\":"@ + data + "}"@
}

/// The body of an answer that carries an error message.
pub open spec fn error_body(message: Seq<char>) -> Seq<char> {
    "{\"status\":\"error\",\"message\":"@ + json_string(message) + "}"@
}

/// The answer to a request that succeeds: the status and the body. `data` is the data
/// as JSON.
pub fn build_ok_response(data: &str) -> (r: (u16, String))
    ensures
        r.0 == 200,
        r.1@ == ok_body(data@),
{
    (200, join3("{\"status\":\"ok\",\"data\":", data, "}"))
}

/// The answer to a request that fails: the status and the body.
pub fn build_error_response(status: u16, message: &str) -> (r: (u16, String))
    ensures
        r.0 == status,
        r.1@ == error_body(message@),
{
    (
        status,
        join3("{\"status\":\"error\",\"message\":", to_json_string(message).as_str(), "}"),
    )
}

/// The answer to a request for something that there is not.
pub fn not_found_response() -> (r: (u16, String))
    ensures
        r.0 == 404,
        r.1@ == error_body("接口不存在"@),
{
    build_error_response(404, "接口不存在")
}

/// The answer where the state cannot be read.
pub fn unavailable_response() -> (r: (u16, String))
    ensures
        r.0 == 500,
        r.1@ == error_body("内部错误"@),
{
    build_error_response(500, "内部错误")
}

/// The answer to a reload.
pub fn reload_response(result: &Result<(), String>) -> (r: (u16, String))
    ensures
        match result {
            Ok(_) => r.0 == 200 && r.1@ == ok_body(json_string("重载成功"@)),
            Err(e) => r.0 == 400 && r.1@ == error_body(e@),
        },
{
    match result {
        Ok(_) => build_ok_response(to_json_string("重载成功").as_str()),
        Err(e) => build_error_response(400, e.as_str()),
    }
}

/// What is shown of all clusters.
pub open spec fn cluster_summaries(clusters: Clusters) -> Seq<UpstreamSummary> {
    clusters.map_values(
        |e: (Seq<char>, ClusterView)|
            UpstreamSummary {
                name: e.1.name,
                nodes: e.1.nodes.map_values(|n: NodeView| n.addr),
            },
    )
}

/// What is shown of the rate limiting policy.
pub fn rate_limit_or_default(state: &GatewayState) -> (r: RateLimitDTO)
    ensures
        r == match state@.limiter {
            Some(l) => RateLimitDTO {
                enabled: true,
                capacity: Some(l.capacity),
                refill_rate: Some(l.refill_rate),
            },
            None => RateLimitDTO { enabled: false, capacity: None, refill_rate: None },
        },
{
    match state.rate_limit_summary() {
        Some(dto) => dto,
        None => RateLimitDTO::default(),
    }
}

/// Routes, upstreams and the policy are asked for with GET, a reload with POST, each under
/// its own path; with any other method, and under any other path, there is nothing.
pub proof fn requests_ask_for_what_their_path_names(method: Seq<char>, path: Seq<char>)
    ensures
        action_of(method, path) == AdminAction::Routes <==> method == "GET"@ && path
            == "/admin/routes"@,
        action_of(method, path) == AdminAction::Upstreams <==> method == "GET"@ && path
            == "/admin/upstreams"@,
        action_of(method, path) == AdminAction::RateLimit <==> method == "GET"@ && path
            == "/admin/rate-limit"@,
        action_of(method, path) == AdminAction::Reload <==> method == "POST"@ && path
            == "/admin/reload"@,
{
    reveal_strlit("GET");
    reveal_strlit("POST");
    reveal_strlit("/admin/routes");
    reveal_strlit("/admin/upstreams");
    reveal_strlit("/admin/rate-limit");
    reveal_strlit("/admin/reload");
    assert("GET"@.len() != "POST"@.len());
    assert("/admin/routes"@.len() != "/admin/upstreams"@.len());
    assert("/admin/routes"@.len() != "/admin/rate-limit"@.len());
    assert("/admin/upstreams"@[7] == 'u');
    assert("/admin/rate-limit"@[7] == 'r');
}

/// Of each cluster its name and the addresses of its nodes are shown, in order.
pub proof fn every_cluster_is_shown(clusters: Clusters, i: int)
    requires
        0 <= i < clusters.len(),
    ensures
        cluster_summaries(clusters).len() == clusters.len(),
        cluster_summaries(clusters)[i].name == clusters[i].1.name,
        cluster_summaries(clusters)[i].nodes.len() == clusters[i].1.nodes.len(),
        forall|j: int|
            0 <= j < clusters[i].1.nodes.len() ==> #[trigger] cluster_summaries(
                clusters,
            )[i].nodes[j] == clusters[i].1.nodes[j].addr,
{
}

/// An answer is a JSON object with its status and either its data or the message, which is
/// written as a JSON string.
pub proof fn answers_are_json_objects(data: Seq<char>, message: Seq<char>)
    ensures
        ok_body(data) == "{\"status\":\"ok\",\"data\":"@ + data + "}"@,
        error_body(message) == "{\"status\":\"error\",\"message\":"@ + json_string(message)
            + "}"@,
{
}

} // verus!
