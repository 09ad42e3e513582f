//! Upstream clusters: groups of nodes and the way in which they share the load.
use crate::config::types::{
    HealthCheckConfig, NodeConfig, NodeView, UpstreamConfig, UpstreamView,
};
use crate::control_plane::admin_api::dto::{UpstreamDTO, UpstreamSummary};
use crate::model::views;
use crate::outside::{parse_socket_addr, socket_addr_error};
use crate::text::{join3, join5, same_text, texts};
use vstd::prelude::*;

verus! {

/// How the nodes of a cluster share the load.
#[derive(Clone, Copy, Debug, PartialEq, Eq, Structural)]
pub enum LoadBalancerKind {
    /// In turn, by weight.
    RoundRobin,
    /// The same node for the same key.
    Consistent,
}

/// An upstream cluster.
pub struct UpstreamCluster {
    /// Name of the cluster.
    pub name: String,
    /// How its nodes share the load.
    pub lb: LoadBalancerKind,
    nodes: Vec<NodeConfig>,
    health_check: Option<HealthCheckConfig>,
}

#[verifier::ext_equal]
pub struct ClusterView {
    pub name: Seq<char>,
    pub lb: LoadBalancerKind,
    pub nodes: Seq<NodeView>,
    pub health_check: Option<HealthCheckConfig>,
}

impl View for UpstreamCluster {
    type V = ClusterView;

    closed spec fn view(&self) -> ClusterView {
        ClusterView {
            name: self.name@,
            lb: self.lb,
            nodes: views(self.nodes@),
            health_check: self.health_check,
        }
    }
}

/// The way of sharing the load that a configuration names.
pub open spec fn balancer_named(algorithm: Seq<char>) -> Option<LoadBalancerKind> {
    if algorithm == "round_robin"@ || algorithm == ""@ {
        Some(LoadBalancerKind::RoundRobin)
    } else if algorithm == "consistent_hash"@ {
        Some(LoadBalancerKind::Consistent)
    } else {
        None
    }
}

/// The first node whose address is none, with the reason.
pub open spec fn first_bad_node(nodes: Seq<NodeView>) -> Option<(Seq<char>, Seq<char>)>
    decreases nodes.len(),
{
    if nodes.len() == 0 {
        None
    } else {
        match socket_addr_error(nodes[0].addr) {
            Some(e) => Some((nodes[0].addr, e)),
            None => first_bad_node(nodes.skip(1)),
        }
    }
}

/// The message for a node whose address is none.
pub open spec fn bad_node_text(addr: Seq<char>, e: Seq<char>) -> Seq<char> {
    "节点地址 '"@ + addr
        + "' 无效: ' InternalError context: invalid socket addr cause: "@ + e + "'"@
}

/// The cluster that a configuration describes, or why it describes none.
pub open spec fn cluster_of(name: Seq<char>, config: UpstreamView) -> Result<ClusterView, Seq<char>> {
    match balancer_named(config.algorithm) {
        None => Err(
            "不支持的负载均衡算法 '"@ + config.algorithm
                + "'，可选: round_robin, consistent_hash"@,
        ),
        Some(lb) => match first_bad_node(config.nodes) {
            Some((addr, e)) => Err(bad_node_text(addr, e)),
            None => Ok(
                ClusterView {
                    name,
                    lb,
                    nodes: config.nodes,
                    health_check: config.health_check,
                },
            ),
        },
    }
}

impl UpstreamCluster {
    /// Makes the cluster that a configuration describes.
    pub fn from_config(name: &str, upstream_cfg: &UpstreamConfig) -> (r: Result<Self, String>)
        ensures
            match r {
                Ok(c) => cluster_of(name@, upstream_cfg@) == Ok::<ClusterView, Seq<char>>(c@),
                Err(e) => cluster_of(name@, upstream_cfg@) == Err::<ClusterView, Seq<char>>(e@),
            },
    {
        let algorithm = upstream_cfg.algorithm.as_str();
        let lb = if same_text(algorithm, "round_robin") || same_text(algorithm, "") {
            LoadBalancerKind::RoundRobin
        } else if same_text(algorithm, "consistent_hash") {
            LoadBalancerKind::Consistent
        } else {
            return Err(
                join3(
                    "不支持的负载均衡算法 '",
                    algorithm,
                    "'，可选: round_robin, consistent_hash",
                ),
            );
        };
        check_nodes(&upstream_cfg.nodes)?;
        let nodes = upstream_cfg.nodes.clone();
        assert(views(nodes@) =~= views(upstream_cfg.nodes@));
        Ok(
            UpstreamCluster {
                name: name.to_owned(),
                lb,
                nodes,
                health_check: upstream_cfg.health_check,
            },
        )
    }

    /// What is shown of the cluster.
    pub fn summary(&self) -> (r: UpstreamDTO)
        ensures
            r@ == (UpstreamSummary {
                name: self@.name,
                nodes: self@.nodes.map_values(|n: NodeView| n.addr),
            }),
    {
        let mut addrs: Vec<String> = Vec::new();
        let mut i: usize = 0;
        while i < self.nodes.len()
            invariant
                i <= self.nodes@.len(),
                addrs@.len() == i,
                forall|j: int| 0 <= j < i ==> (#[trigger] addrs@[j])@ == self.nodes@[j].addr@,
            decreases self.nodes@.len() - i,
        {
            addrs.push(self.nodes[i].addr.clone());
            i += 1;
        }
        assert(texts(addrs@) =~= self@.nodes.map_values(|n: NodeView| n.addr));
        UpstreamDTO { name: self.name.clone(), nodes: addrs }
    }

    /// Whether a health check is configured.
    pub fn has_health_check(&self) -> (r: bool)
        ensures
            r == (self@.health_check is Some),
    {
        self.health_check.is_some()
    }

    /// The health check, where one is configured.
    pub fn health_check(&self) -> (r: Option<HealthCheckConfig>)
        ensures
            r == self@.health_check,
    {
        self.health_check
    }

    /// The nodes.
    pub fn nodes(&self) -> (r: &Vec<NodeConfig>)
        ensures
            views(r@) == self@.nodes,
    {
        &self.nodes
    }
}

/// Checks that every node has a socket address.
fn check_nodes(nodes: &Vec<NodeConfig>) -> (r: Result<(), String>)
    ensures
        match r {
            Ok(_) => first_bad_node(views(nodes@)) is None,
            Err(t) => first_bad_node(views(nodes@)) matches Some(bad) && t@ == bad_node_text(
                bad.0,
                bad.1,
            ),
        },
{
    let ghost all = views(nodes@);
    let mut i: usize = 0;
    assert(all.skip(0) =~= all);
    while i < nodes.len()
        invariant
            i <= nodes@.len(),
            all == views(nodes@),
            first_bad_node(all) == first_bad_node(all.skip(i as int)),
        decreases nodes@.len() - i,
    {
        proof {
            assert(all.skip(i as int)[0] == nodes@[i as int]@);
            assert(all.skip(i as int).skip(1) =~= all.skip(i + 1));
        }
        if let Err(e) = parse_socket_addr(nodes[i].addr.as_str()) {
            return Err(
                join5(
                    "节点地址 '",
                    nodes[i].addr.as_str(),
                    "' 无效: ' InternalError context: invalid socket addr cause: ",
                    e.as_str(),
                    "'",
                ),
            );
        }
        i += 1;
    }
    Ok(())
}

/// A cluster can be made exactly if its algorithm is known and every node has a
/// socket address.
pub proof fn clusters_need_algorithm_and_addresses(name: Seq<char>, config: UpstreamView)
    ensures
        cluster_of(name, config) is Ok <==> balancer_named(config.algorithm) is Some && forall|i: int|
            0 <= i < config.nodes.len() ==> socket_addr_error((#[trigger] config.nodes[i]).addr) is None,
{
    lemma_first_bad_node(config.nodes);
}

proof fn lemma_first_bad_node(nodes: Seq<NodeView>)
    ensures
        first_bad_node(nodes) is None <==> forall|i: int|
            0 <= i < nodes.len() ==> socket_addr_error((#[trigger] nodes[i]).addr) is None,
    decreases nodes.len(),
{
    if nodes.len() > 0 {
        let rest = nodes.skip(1);
        lemma_first_bad_node(rest);
        if first_bad_node(nodes) is None {
            assert forall|i: int| 0 <= i < nodes.len() implies socket_addr_error(
                (#[trigger] nodes[i]).addr,
            ) is None by {
                if i > 0 {
                    assert(rest[i - 1] == nodes[i]);
                }
            }
        }
        if forall|i: int|
            0 <= i < nodes.len() ==> socket_addr_error((#[trigger] nodes[i]).addr) is None {
            assert(socket_addr_error(nodes[0].addr) is None);
            assert forall|i: int| 0 <= i < rest.len() implies socket_addr_error(
                (#[trigger] rest[i]).addr,
            ) is None by {
                assert(rest[i] == nodes[i + 1]);
            }
        }
    }
}

} // verus!
