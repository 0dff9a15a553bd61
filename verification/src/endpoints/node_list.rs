//! The list of the nodes of a chain, and the nodes grouped by the version of
//! the node software that they run.

use crate::byte_order::{compare_text, lemma_text_lt_total, lemma_text_lt_transitive, text_lt, Rank};
use crate::endpoints::shared::SUniqueNodeIdentity;
use crate::node_types::{view_opt, view_seq, Block, NodeDetails, NodeDetailsView};
use crate::scan::{first_index, lemma_first_index_bounds, lemma_first_index_is};
use crate::state::chain::{identity_of, is_present, Chain};
use crate::state::node::{IdentityView, Node, NodeView};
use vstd::prelude::*;

verus! {

/// A version of the node software and the nodes that run it.
#[derive(Debug)]
pub struct NodeListImplementations {
    pub version: String,
    pub nodes: Vec<SUniqueNodeIdentity>,
    pub count: usize,
}

/// A version and the identities of the nodes that run it.
pub ghost struct ImplementationView {
    pub version: Seq<char>,
    pub nodes: Seq<IdentityView>,
}

/// A version, the nodes that run it and their number, as views.
pub ghost struct NodeListImplementationsView {
    pub version: Seq<char>,
    pub nodes: Seq<IdentityView>,
    pub count: usize,
}

impl View for NodeListImplementations {
    type V = NodeListImplementationsView;

    open spec fn view(&self) -> NodeListImplementationsView {
        NodeListImplementationsView {
            version: self.version@,
            nodes: view_seq(self.nodes@),
            count: self.count,
        }
    }
}

/// The groups whose version is not above `version`.
pub open spec fn version_reached(version: Seq<char>) -> spec_fn(ImplementationView) -> bool {
    |g: ImplementationView| !text_lt(version, g.version)
}

/// The versions descend strictly.
pub open spec fn versions_descend(groups: Seq<ImplementationView>) -> bool {
    forall|a: int, b: int|
        0 <= a < b < groups.len() ==> text_lt(
            (#[trigger] groups[b]).version,
            (#[trigger] groups[a]).version,
        )
}

/// The groups after the node `identity` that runs `version` joined: it is
/// appended to the group of its version, or makes a new group where the
/// descending order of versions puts it.
pub open spec fn group_node(
    groups: Seq<ImplementationView>,
    version: Seq<char>,
    identity: IdentityView,
) -> Seq<ImplementationView> {
    let k = first_index(groups, version_reached(version));
    if k < groups.len() && groups[k].version == version {
        groups.update(k, ImplementationView { version, nodes: groups[k].nodes.push(identity) })
    } else {
        groups.insert(k, ImplementationView { version, nodes: seq![identity] })
    }
}

/// The nodes of a chain grouped by version, the greatest version first,
/// the nodes of a group in the order of their indices.
pub open spec fn group_nodes(nodes: Seq<Option<NodeView>>) -> Seq<ImplementationView>
    decreases nodes.len(),
{
    if nodes.len() == 0 {
        Seq::empty()
    } else {
        let earlier = group_nodes(nodes.drop_last());
        match nodes.last() {
            Some(node) => group_node(earlier, node.details.version, identity_of(node)),
            None => earlier,
        }
    }
}

/// A node that joins groups in descending order leaves them so.
pub proof fn lemma_group_node_descends(
    groups: Seq<ImplementationView>,
    version: Seq<char>,
    identity: IdentityView,
)
    requires
        versions_descend(groups),
    ensures
        versions_descend(group_node(groups, version, identity)),
{
    let k = first_index(groups, version_reached(version));
    let after = group_node(groups, version, identity);
    lemma_first_index_bounds(groups, version_reached(version));
    if k < groups.len() && groups[k].version == version {
        assert forall|a: int, b: int| 0 <= a < b < after.len() implies text_lt(
            (#[trigger] after[b]).version,
            (#[trigger] after[a]).version,
        ) by {
            assert(text_lt(groups[b].version, groups[a].version));
        }
    } else {
        assert forall|a: int, b: int| 0 <= a < b < after.len() implies text_lt(
            (#[trigger] after[b]).version,
            (#[trigger] after[a]).version,
        ) by {
            if b == k {
                assert(!version_reached(version)(groups[a]));
            } else if a == k {
                lemma_text_lt_total(version, groups[k].version);
                assert(version_reached(version)(groups[k]));
                if b - 1 > k {
                    assert(text_lt(groups[b - 1].version, groups[k].version));
                    lemma_text_lt_transitive(groups[b - 1].version, groups[k].version, version);
                }
            } else if a < k && b > k {
                assert(after[a] == groups[a]);
                assert(after[b] == groups[b - 1]);
            } else if a < k {
                assert(after[a] == groups[a] && after[b] == groups[b]);
            } else {
                assert(after[a] == groups[a - 1] && after[b] == groups[b - 1]);
            }
        }
    }
}

/// The groups of any nodes are in strictly descending order of version.
pub proof fn lemma_groups_descend(nodes: Seq<Option<NodeView>>)
    ensures
        versions_descend(group_nodes(nodes)),
    decreases nodes.len(),
{
    if nodes.len() > 0 {
        lemma_groups_descend(nodes.drop_last());
        if let Some(node) = nodes.last() {
            lemma_group_node_descends(
                group_nodes(nodes.drop_last()),
                node.details.version,
                identity_of(node),
            );
        }
    }
}

/// The group of a version, without the count of its nodes.
pub open spec fn group_of(g: NodeListImplementationsView) -> ImplementationView {
    ImplementationView { version: g.version, nodes: g.nodes }
}

/// A group with the count of its nodes.
pub open spec fn counted(g: ImplementationView) -> NodeListImplementationsView {
    NodeListImplementationsView { version: g.version, nodes: g.nodes, count: g.nodes.len() as usize }
}

/// The nodes of a chain grouped by version, the greatest version first,
/// each group with the count of its nodes.
pub open spec fn counted_groups(nodes: Seq<Option<NodeView>>) -> Seq<NodeListImplementationsView> {
    group_nodes(nodes).map_values(|g: ImplementationView| counted(g))
}

/// The nodes of `chain` grouped by version, each group with its size.
pub fn group_versions(chain: &Chain) -> (groups: Vec<NodeListImplementations>)
    ensures
        view_seq(groups@) == counted_groups(chain@.nodes),
{
    let nodes = chain.nodes_slice();
    let ghost all = chain@.nodes;
    let n = nodes.len();
    let mut groups: Vec<NodeListImplementations> = Vec::new();
    let mut i: usize = 0;
    assert(all.take(0) =~= Seq::<Option<NodeView>>::empty());
    assert(view_seq(groups@).map_values(|g: NodeListImplementationsView| group_of(g))
        =~= group_nodes(all.take(0)));
    while i < n
        invariant
            n == nodes@.len(),
            i <= n,
            all == nodes@.map_values(|n: Option<Node>| view_opt(n)),
            view_seq(groups@).map_values(|g: NodeListImplementationsView| group_of(g))
                == group_nodes(all.take(i as int)),
            forall|a: int|
                0 <= a < groups@.len() ==> (#[trigger] groups@[a]).count == groups@[a].nodes@.len(),
        decreases n - i,
    {
        proof {
            assert(all.take(i as int + 1).drop_last() =~= all.take(i as int));
            assert(all.take(i as int + 1).last() == all[i as int]);
        }
        if let Some(node) = &nodes[i] {
            let ghost before = view_seq(groups@).map_values(
                |g: NodeListImplementationsView| group_of(g),
            );
            let ghost version = node@.details.version;
            let ghost id = identity_of(node@);
            let identity = SUniqueNodeIdentity::from(&node.identity());
            let m = groups.len();
            let mut k: usize = 0;
            while k < m && compare_text(node.details().version.as_str(), groups[k].version.as_str())
                == Rank::Below
                invariant
                    m == groups@.len(),
                    k <= m,
                    version == node@.details.version,
                    before == view_seq(groups@).map_values(
                        |g: NodeListImplementationsView| group_of(g),
                    ),
                    forall|l: int| 0 <= l < k ==> !version_reached(version)(#[trigger] before[l]),
                decreases m - k,
            {
                k += 1;
            }
            proof {
                lemma_first_index_is(before, version_reached(version), k as int);
            }
            if k < m && compare_text(node.details().version.as_str(), groups[k].version.as_str())
                == Rank::Same {
                let group = &mut groups[k];
                group.nodes.push(identity);
                group.count = group.nodes.len();
                assert(view_seq(groups@).map_values(|g: NodeListImplementationsView| group_of(g))
                    =~= before.update(
                    k as int,
                    ImplementationView { version, nodes: before[k as int].nodes.push(id) },
                )) by {
                    assert(view_seq(groups@[k as int].nodes@) =~= before[k as int].nodes.push(id));
                }
            } else {
                let fresh = NodeListImplementations {
                    version: node.details().version.clone(),
                    nodes: vec![identity],
                    count: 1,
                };
                assert(view_seq(fresh.nodes@) =~= seq![id]);
                groups.insert(k, fresh);
                assert(view_seq(groups@).map_values(|g: NodeListImplementationsView| group_of(g))
                    =~= before.insert(k as int, ImplementationView { version, nodes: seq![id] }));
            }
        }
        i += 1;
    }
    assert(all.take(n as int) =~= all);
    proof {
        let shown = view_seq(groups@);
        let grouped = group_nodes(all);
        assert(shown.map_values(|g: NodeListImplementationsView| group_of(g)) == grouped);
        assert forall|a: int| 0 <= a < shown.len() implies shown[a] == counted(grouped[a]) by {
            assert(shown.map_values(|g: NodeListImplementationsView| group_of(g))[a] == group_of(
                shown[a],
            ));
            assert(groups@[a].count == groups@[a].nodes@.len());
        }
        assert(shown =~= counted_groups(all));
    }
    groups
}

/// One node as the list shows it.
#[derive(Debug)]
pub struct NodeListNodeDetails {
    pub identity: SUniqueNodeIdentity,
    pub details: NodeDetails,
    pub best_block: Block,
    pub finalized_block: Block,
    pub best_block_timestamp: u64,
    pub peers: u64,
    pub txcount: u64,
    pub stale: bool,
    pub is_authority: Option<bool>,
}

/// One node of the list, as views.
pub ghost struct NodeListNodeDetailsView {
    pub identity: IdentityView,
    pub details: NodeDetailsView,
    pub best_block: Block,
    pub finalized_block: Block,
    pub best_block_timestamp: u64,
    pub peers: u64,
    pub txcount: u64,
    pub stale: bool,
    pub is_authority: Option<bool>,
}

impl View for NodeListNodeDetails {
    type V = NodeListNodeDetailsView;

    open spec fn view(&self) -> NodeListNodeDetailsView {
        NodeListNodeDetailsView {
            identity: self.identity@,
            details: self.details@,
            best_block: self.best_block,
            finalized_block: self.finalized_block,
            best_block_timestamp: self.best_block_timestamp,
            peers: self.peers,
            txcount: self.txcount,
            stale: self.stale,
            is_authority: self.is_authority,
        }
    }
}

/// How the list shows the node `node`.
pub open spec fn row_of(node: NodeView) -> NodeListNodeDetailsView {
    NodeListNodeDetailsView {
        identity: identity_of(node),
        details: node.details,
        best_block: node.best.block,
        finalized_block: node.finalized,
        best_block_timestamp: node.best.block_timestamp,
        peers: node.stats.peers,
        txcount: node.stats.txcount,
        stale: node.stale,
        is_authority: node.details.is_authority,
    }
}

impl NodeListNodeDetails {
    /// How the list shows `value`.
    pub fn from(value: &Node) -> (r: Self)
        ensures
            r@ == row_of(value@),
    {
        NodeListNodeDetails {
            identity: SUniqueNodeIdentity::from(&value.identity()),
            details: value.details().clone(),
            best_block: *value.best(),
            finalized_block: *value.finalized(),
            best_block_timestamp: value.best_timestamp(),
            peers: value.stats().peers,
            txcount: value.stats().txcount,
            stale: value.stale(),
            is_authority: value.is_authority(),
        }
    }
}

/// The rows of the nodes in `nodes`, in the order of their indices.
pub open spec fn rows_of(nodes: Seq<Option<NodeView>>) -> Seq<NodeListNodeDetailsView> {
    nodes.filter(is_present()).map_values(|n: Option<NodeView>| row_of(n->0))
}

/// The nodes of one chain: grouped by version, and one by one.
#[derive(Debug)]
pub struct NodeList {
    implementations: Vec<NodeListImplementations>,
    nodes: Vec<NodeListNodeDetails>,
}

/// The nodes of one chain, as views.
pub ghost struct NodeListView {
    pub implementations: Seq<NodeListImplementationsView>,
    pub nodes: Seq<NodeListNodeDetailsView>,
}

impl View for NodeList {
    type V = NodeListView;

    closed spec fn view(&self) -> NodeListView {
        NodeListView {
            implementations: view_seq(self.implementations@),
            nodes: view_seq(self.nodes@),
        }
    }
}

impl NodeList {
    /// The nodes of `value`: grouped by version, the greatest version
    /// first, and one by one in the order of their indices.
    pub fn from(value: &Chain) -> (r: Self)
        ensures
            r@.implementations == counted_groups(value@.nodes),
            r@.nodes == rows_of(value@.nodes),
            forall|a: int, b: int|
                0 <= a < b < r@.implementations.len() ==> text_lt(
                    (#[trigger] r@.implementations[b]).version,
                    (#[trigger] r@.implementations[a]).version,
                ),
    {
        let implementations = group_versions(value);
        proof {
            lemma_groups_descend(value@.nodes);
            let groups = group_nodes(value@.nodes);
            assert forall|a: int, b: int|
                0 <= a < b < counted_groups(value@.nodes).len() implies text_lt(
                (#[trigger] counted_groups(value@.nodes)[b]).version,
                (#[trigger] counted_groups(value@.nodes)[a]).version,
            ) by {
                assert(text_lt(groups[b].version, groups[a].version));
            }
        }
        let slab = value.nodes_slice();
        let ghost all = value@.nodes;
        let n = slab.len();
        let mut nodes: Vec<NodeListNodeDetails> = Vec::new();
        let mut i: usize = 0;
        assert(all.take(0) =~= Seq::<Option<NodeView>>::empty());
        assert(view_seq(nodes@) =~= rows_of(all.take(0)));
        while i < n
            invariant
                n == slab@.len(),
                i <= n,
                all == slab@.map_values(|n: Option<Node>| view_opt(n)),
                view_seq(nodes@) == rows_of(all.take(i as int)),
            decreases n - i,
        {
            proof {
                all.lemma_take_succ_push(i as int);
                all.take(i as int).lemma_filter_push(all[i as int], is_present());
            }
            if let Some(node) = &slab[i] {
                let ghost known = view_seq(nodes@);
                nodes.push(NodeListNodeDetails::from(node));
                assert(view_seq(nodes@) =~= known.push(row_of(node@)));
                assert(rows_of(all.take(i as int + 1)) =~= known.push(row_of(node@)));
            }
            i += 1;
        }
        assert(all.take(n as int) =~= all);
        NodeList { implementations, nodes }
    }

    /// The nodes grouped by version, the greatest version first.
    pub fn implementations(&self) -> (r: &Vec<NodeListImplementations>)
        ensures
            view_seq(r@) == self@.implementations,
    {
        &self.implementations
    }

    /// The nodes one by one, in the order of their indices.
    pub fn nodes(&self) -> (r: &Vec<NodeListNodeDetails>)
        ensures
            view_seq(r@) == self@.nodes,
    {
        &self.nodes
    }
}

} // verus!
