//! A pipeline's nodes and the links between them: which node feeds which,
//! with the mapping each link carries, which nodes are up, and the order
//! they come up in.
use vstd::prelude::*;
use std::collections::HashMap;
use vstd::std_specs::iter::IteratorSpec;
use crate::runtime::mapper::{Mapper, without_output, covered, plan_of};

verus! {

broadcast use vstd::std_specs::hash::group_hash_axioms;

pub type PipelineId = usize;

pub type NodeId = usize;

/// A link as it stands: the node it feeds, the mappings it carries, whether
/// they were found to fit the target, and how many messages it dropped.
pub struct LinkView {
    pub to: NodeId,
    pub mappings: Seq<(Seq<usize>, Seq<usize>)>,
    pub verified: bool,
    pub dropped: usize,
}

/// A link from a node to the one it feeds, with the mapping between their
/// messages.
pub struct Connector {
    pub to_node_id: NodeId,
    pub mapper: Mapper,
    /// Whether the mapping fills the target's fields with the kinds it wants,
    /// worked out when the link is made so messages need no checking.
    pub verified: bool,
    /// Drops happen at message rate, so they are counted and reported
    /// sparsely instead of once per message.
    pub dropped: usize,
}

impl View for Connector {
    type V = LinkView;

    open spec fn view(&self) -> LinkView {
        LinkView {
            to: self.to_node_id,
            mappings: self.mapper@,
            verified: self.verified,
            dropped: self.dropped,
        }
    }
}

/// Whether the drop with this count is reported: the first, then every
/// thousandth.
pub open spec fn reported(count: int) -> bool {
    count == 1 || count % 1000 == 0
}

impl Connector {
    /// Counts a message dropped on this link, and says whether to report it.
    pub fn count_drop(&mut self) -> (r: bool)
        ensures
            final(self).dropped == old(self).dropped.wrapping_add(1),
            final(self).to_node_id == old(self).to_node_id,
            final(self).verified == old(self).verified,
            final(self).mapper@ == old(self).mapper@,
            r == reported(final(self).dropped as int),
    {
        self.dropped = self.dropped.wrapping_add(1);
        let dropped = self.dropped;
        dropped == 1 || dropped % 1000 == 0
    }
}

/// What a pipeline keeps of a node.
pub struct Node {
    pub id: NodeId,
    pub name: String,
    /// The plugin instance the node runs, by its handle.
    pub plugin: usize,
    /// A source has no input to wait on: it produces while it is switched on.
    pub is_source: bool,
    /// The kinds of the fields of the message it takes, by code.
    pub input_shape: Vec<u32>,
    /// The kinds of the fields of the message it writes, by code.
    pub output_shape: Vec<u32>,
    /// Whether its task has been spawned.
    pub started: bool,
    /// Whether it processes what reaches it; off, it drops it.
    pub running: bool,
    /// A node that fails does so every round, so failures are counted and
    /// reported sparsely instead of at message rate.
    pub failures: usize,
}

/// A pipeline as it stands: its nodes by id, the links out of each node
/// that feeds another, which node last became each target's parent, and
/// the id the next node gets.
pub struct PipelineView {
    pub nodes: Map<NodeId, Node>,
    pub links: Map<NodeId, Seq<LinkView>>,
    pub parents: Map<NodeId, NodeId>,
    pub next_id: NodeId,
}

/// Whether some link in `s` feeds `to`.
pub open spec fn has_link(s: Seq<LinkView>, to: NodeId) -> bool {
    exists|i: int| 0 <= i < s.len() && s[i].to == to
}

/// Where in `s` the link feeding `to` stands.
pub open spec fn link_to(s: Seq<LinkView>, to: NodeId) -> int {
    choose|i: int| 0 <= i < s.len() && s[i].to == to
}

/// No two links in `s` feed the same node.
pub open spec fn distinct_targets(s: Seq<LinkView>) -> bool {
    forall|i: int, j: int| 0 <= i < j < s.len() ==> #[trigger] s[i].to != #[trigger] s[j].to
}

/// The links out of `from`; none for a node that feeds nothing.
pub open spec fn links_of(links: Map<NodeId, Seq<LinkView>>, from: NodeId) -> Seq<LinkView> {
    if links.contains_key(from) {
        links[from]
    } else {
        Seq::empty()
    }
}

/// The links once `l` is made: it takes the place of the link to the same
/// node if there is one, and goes last otherwise.
pub open spec fn linked(s: Seq<LinkView>, l: LinkView) -> Seq<LinkView> {
    if has_link(s, l.to) {
        s.update(link_to(s, l.to), l)
    } else {
        s.push(l)
    }
}

/// The links left once those feeding `to` are dropped, in order.
pub open spec fn unlinked(s: Seq<LinkView>, to: NodeId) -> Seq<LinkView>
    decreases s.len(),
{
    if s.len() == 0 {
        Seq::empty()
    } else if s.last().to == to {
        unlinked(s.drop_last(), to)
    } else {
        unlinked(s.drop_last(), to).push(s.last())
    }
}

impl PipelineView {
    /// Every node's list of links feeds each node at most once.
    pub open spec fn links_distinct(self) -> bool {
        forall|k: NodeId| #[trigger] self.links.contains_key(k) ==> distinct_targets(self.links[k])
    }
}

/// The nodes of a pipeline and the links between them.
pub struct Pipeline {
    id: PipelineId,
    name: String,
    nodes: HashMap<NodeId, Node>,
    connectors: HashMap<NodeId, Vec<Connector>>,
    parent_lookup: HashMap<NodeId, NodeId>,
    next_id: NodeId,
}

/// The links of a list of connectors.
pub open spec fn link_views(v: Vec<Connector>) -> Seq<LinkView> {
    v@.map_values(|c: Connector| c@)
}

impl View for Pipeline {
    type V = PipelineView;

    closed spec fn view(&self) -> PipelineView {
        PipelineView {
            nodes: self.nodes@,
            links: self.connectors@.map_values(|v: Vec<Connector>| link_views(v)),
            parents: self.parent_lookup@,
            next_id: self.next_id,
        }
    }
}

impl Pipeline {
    #[verifier::type_invariant]
    closed spec fn well_formed(self) -> bool {
        &&& forall|k: NodeId| #[trigger] self.nodes@.contains_key(k) ==> k < self.next_id && self.nodes@[k].id == k
        &&& forall|k: NodeId| #[trigger] self.connectors@.contains_key(k) ==> distinct_targets(link_views(self.connectors@[k]))
    }

    pub closed spec fn spec_id(&self) -> PipelineId {
        self.id
    }

    pub closed spec fn spec_name(&self) -> Seq<char> {
        self.name@
    }
}

impl Pipeline {
    pub fn new(id: PipelineId, name: &str) -> (r: Self)
        ensures
            r.spec_id() == id,
            r.spec_name() == name@,
            r@.nodes == Map::<NodeId, Node>::empty(),
            r@.links == Map::<NodeId, Seq<LinkView>>::empty(),
            r@.parents == Map::<NodeId, NodeId>::empty(),
            r@.next_id == 0,
            r@.links_distinct(),
    {
        let r = Pipeline {
            id,
            name: name.to_owned(),
            nodes: HashMap::new(),
            connectors: HashMap::new(),
            parent_lookup: HashMap::new(),
            next_id: 0,
        };
        proof {
            assert(r@.links =~= Map::<NodeId, Seq<LinkView>>::empty());
        }
        r
    }

    pub fn id(&self) -> (r: PipelineId)
        ensures
            r == self.spec_id(),
    {
        self.id
    }

    pub fn name(&self) -> (r: &str)
        ensures
            r@ == self.spec_name(),
    {
        self.name.as_str()
    }

    /// Adds a node running `plugin` under `name`, and returns its id. Only a
    /// source generates work on its own, so only a source starts off.
    pub fn add_node(&mut self, name: &str, plugin: usize, is_source: bool, input_shape: Vec<u32>, output_shape: Vec<u32>) -> (r: NodeId)
        requires
            old(self)@.next_id < usize::MAX,
        ensures
            r == old(self)@.next_id,
            !old(self)@.nodes.contains_key(r),
            final(self)@.next_id == r + 1,
            final(self)@.nodes.dom() == old(self)@.nodes.dom().insert(r),
            forall|k: NodeId| k != r ==> #[trigger] final(self)@.nodes.get(k) == old(self)@.nodes.get(k),
            final(self)@.nodes[r].id == r,
            final(self)@.nodes[r].name@ == name@,
            final(self)@.nodes[r].plugin == plugin,
            final(self)@.nodes[r].is_source == is_source,
            final(self)@.nodes[r].input_shape@ == input_shape@,
            final(self)@.nodes[r].output_shape@ == output_shape@,
            !final(self)@.nodes[r].started,
            final(self)@.nodes[r].running == !is_source,
            final(self)@.nodes[r].failures == 0,
            final(self)@.links == old(self)@.links,
            final(self)@.parents == old(self)@.parents,
            final(self).spec_id() == old(self).spec_id(),
            final(self).spec_name() == old(self).spec_name(),
            final(self)@.links_distinct(),
    {
        proof {
            use_type_invariant(&*self);
        }
        let node_id = self.next_id;
        let node = Node {
            id: node_id,
            name: name.to_owned(),
            plugin,
            is_source,
            input_shape,
            output_shape,
            started: false,
            running: !is_source,
            failures: 0,
        };
        self.next_id = node_id + 1;
        let mut nodes = HashMap::new();
        std::mem::swap(&mut nodes, &mut self.nodes);
        nodes.insert(node_id, node);
        self.nodes = nodes;
        proof {
            assert(self@.nodes.dom() =~= old(self)@.nodes.dom().insert(node_id));
        }
        node_id
    }

    /// A node is kept from the time it is added until it is removed,
    /// started or not.
    pub fn has_node(&self, node_id: NodeId) -> (r: bool)
        ensures
            r == self@.nodes.contains_key(node_id),
    {
        self.nodes.contains_key(&node_id)
    }
}


/// Where in `list` the first link feeding `to` stands, if one does.
fn position(list: &Vec<Connector>, to: NodeId) -> (r: Option<usize>)
    ensures
        match r {
            Some(i) => i < list@.len() && list@[i as int].to_node_id == to
                && forall|j: int| 0 <= j < i ==> #[trigger] list@[j].to_node_id != to,
            None => forall|j: int| 0 <= j < list@.len() ==> #[trigger] list@[j].to_node_id != to,
        },
{
    let mut i: usize = 0;
    while i < list.len()
        invariant
            i <= list@.len(),
            forall|j: int| 0 <= j < i ==> #[trigger] list@[j].to_node_id != to,
        decreases list@.len() - i,
    {
        if list[i].to_node_id == to {
            return Some(i);
        }
        i = i + 1;
    }
    None
}

/// In a list whose links feed distinct nodes, the link feeding `to` is the
/// one `link_to` names.
proof fn lemma_link_to_unique(s: Seq<LinkView>, to: NodeId, i: int)
    requires
        distinct_targets(s),
        0 <= i < s.len(),
        s[i].to == to,
    ensures
        has_link(s, to),
        link_to(s, to) == i,
{
    assert(has_link(s, to));
    let k = link_to(s, to);
    assert(0 <= k < s.len() && s[k].to == to);
    if k < i {
        assert(s[k].to != s[i].to);
    } else if i < k {
        assert(s[i].to != s[k].to);
    }
}

impl Pipeline {
    /// Links `from` to `to` with `mapper`, false if either node is unknown.
    /// Connecting is allowed while running: the mapping just changes under
    /// the traffic. Connecting the same pair again replaces its mapping, and
    /// the new one gets a fresh drop count. Whether the mapping fills the
    /// target's fields with the kinds it wants is worked out here, once,
    /// rather than per message.
    pub fn connect(&mut self, from_node_id: NodeId, to_node_id: NodeId, mapper: Mapper) -> (r: bool)
        ensures
            r == (old(self)@.nodes.contains_key(from_node_id) && old(self)@.nodes.contains_key(to_node_id)),
            r ==> final(self)@.links == old(self)@.links.insert(
                from_node_id,
                linked(
                    links_of(old(self)@.links, from_node_id),
                    LinkView {
                        to: to_node_id,
                        mappings: mapper@,
                        verified: covered(
                            plan_of(mapper@),
                            old(self)@.nodes[from_node_id].output_shape@,
                            old(self)@.nodes[to_node_id].input_shape@,
                        ),
                        dropped: 0,
                    },
                ),
            ),
            r ==> final(self)@.parents == old(self)@.parents.insert(to_node_id, from_node_id),
            !r ==> final(self)@.links == old(self)@.links,
            !r ==> final(self)@.parents == old(self)@.parents,
            final(self)@.nodes == old(self)@.nodes,
            final(self)@.next_id == old(self)@.next_id,
            final(self).spec_id() == old(self).spec_id(),
            final(self).spec_name() == old(self).spec_name(),
            final(self)@.links_distinct(),
    {
        proof {
            use_type_invariant(&*self);
        }
        let verified = match (self.nodes.get(&from_node_id), self.nodes.get(&to_node_id)) {
            (Some(from), Some(to)) => mapper.covers(from.output_shape.as_slice(), to.input_shape.as_slice()),
            _ => {
                return false;
            },
        };
        let ghost link = LinkView { to: to_node_id, mappings: mapper@, verified, dropped: 0 };
        let ghost before = links_of(old(self)@.links, from_node_id);
        let mut connectors = HashMap::new();
        std::mem::swap(&mut connectors, &mut self.connectors);
        let ghost all = connectors@;
        let mut list = match connectors.remove(&from_node_id) {
            Some(list) => list,
            None => Vec::new(),
        };
        proof {
            if all.contains_key(from_node_id) {
                assert(link_views(list) == before);
            } else {
                assert(link_views(list) =~= before);
            }
            assert(distinct_targets(before));
        }
        let connector = Connector { to_node_id, mapper, verified, dropped: 0 };
        match position(&list, to_node_id) {
            Some(i) => {
                let ghost prior = list@;
                list.remove(i);
                list.insert(i, connector);
                proof {
                    assert(list@ =~= prior.update(i as int, connector));
                    assert(link_views(list) =~= before.update(i as int, link));
                    lemma_link_to_unique(before, to_node_id, i as int);
                    assert(distinct_targets(link_views(list)));
                }
            },
            None => {
                list.push(connector);
                proof {
                    assert(link_views(list) =~= before.push(link));
                    assert(!has_link(before, to_node_id));
                    assert(distinct_targets(link_views(list)));
                }
            },
        }
        proof {
            assert(link_views(list) == linked(before, link));
        }
        connectors.insert(from_node_id, list);
        proof {
            assert(connectors@.map_values(|v: Vec<Connector>| link_views(v)) =~= old(self)@.links.insert(from_node_id, linked(before, link)));
        }
        self.connectors = connectors;
        let mut parents = HashMap::new();
        std::mem::swap(&mut parents, &mut self.parent_lookup);
        parents.insert(to_node_id, from_node_id);
        self.parent_lookup = parents;
        true
    }
}


/// The ids a map is keyed by, each once.
fn keys_of<V>(m: &HashMap<NodeId, V>) -> (r: Vec<NodeId>)
    ensures
        r@.to_set() == m@.dom(),
        r@.no_duplicates(),
{
    let ghost ks = vstd::std_specs::hash::spec_keys_iter(m).remaining();
    let mut out: Vec<NodeId> = Vec::new();
    for k in it: m.keys()
        invariant
            it.seq() == ks,
            out@ == ks.take(it.index()).map_values(|x: &NodeId| *x),
    {
        out.push(*k);
        proof {
            assert(ks.take(it.index() + 1) =~= ks.take(it.index()).push(ks[it.index()]));
        }
    }
    proof {
        assert(ks.take(ks.len() as int) =~= ks);
        assert(ks.unref() =~= out@);
    }
    out
}

/// What dropping the links to `to` leaves: links that were there, none of
/// them to `to`, every other one kept, and the whole list when none fed `to`.
pub proof fn lemma_unlinked(s: Seq<LinkView>, to: NodeId)
    ensures
        unlinked(s, to).len() <= s.len(),
        forall|i: int| 0 <= i < unlinked(s, to).len() ==> #[trigger] unlinked(s, to)[i].to != to && s.contains(unlinked(s, to)[i]),
        forall|i: int| 0 <= i < s.len() && s[i].to != to ==> unlinked(s, to).contains(#[trigger] s[i]),
        !has_link(unlinked(s, to), to),
        (unlinked(s, to).len() == s.len()) == !has_link(s, to),
        !has_link(s, to) ==> unlinked(s, to) == s,
        distinct_targets(s) ==> distinct_targets(unlinked(s, to)),
    decreases s.len(),
{
    if s.len() > 0 {
        let init = s.drop_last();
        let l = s.last();
        lemma_unlinked(init, to);
        let rest = unlinked(init, to);
        assert(s =~= init.push(l));
        assert forall|i: int| 0 <= i < unlinked(s, to).len() implies #[trigger] unlinked(s, to)[i].to != to && s.contains(unlinked(s, to)[i]) by {
            if i < rest.len() {
                assert(unlinked(s, to)[i] == rest[i]);
                let j = choose|j: int| 0 <= j < init.len() && init[j] == rest[i];
                assert(s[j] == rest[i]);
            } else {
                assert(s[s.len() - 1] == l);
            }
        }
        assert forall|i: int| 0 <= i < s.len() && s[i].to != to implies unlinked(s, to).contains(#[trigger] s[i]) by {
            if i < init.len() {
                assert(init[i] == s[i]);
                assert(rest.contains(s[i]));
                let j = choose|j: int| 0 <= j < rest.len() && rest[j] == s[i];
                assert(unlinked(s, to)[j] == s[i]);
            } else {
                assert(unlinked(s, to)[rest.len() as int] == s[i]);
            }
        }
        if has_link(s, to) {
            let k = choose|k: int| 0 <= k < s.len() && s[k].to == to;
            if k < init.len() {
                assert(init[k].to == to);
                assert(has_link(init, to));
            }
        }
        if !has_link(s, to) {
            assert forall|k: int| 0 <= k < init.len() implies init[k].to != to by {
                assert(s[k] == init[k]);
            }
            assert(!has_link(init, to));
            assert(l.to != to);
            assert(unlinked(s, to) =~= s);
        }
        if has_link(init, to) {
            let k = choose|k: int| 0 <= k < init.len() && init[k].to == to;
            assert(s[k] == init[k]);
        }
        if distinct_targets(s) {
            assert(distinct_targets(init)) by {
                assert forall|i: int, j: int| 0 <= i < j < init.len() implies #[trigger] init[i].to != #[trigger] init[j].to by {
                    assert(s[i] == init[i] && s[j] == init[j]);
                }
            }
            if l.to != to {
                let u = unlinked(s, to);
                assert forall|i: int, j: int| 0 <= i < j < u.len() implies #[trigger] u[i].to != #[trigger] u[j].to by {
                    if j == u.len() - 1 {
                        assert(u[i] == rest[i]);
                        let m = choose|m: int| 0 <= m < init.len() && init[m] == rest[i];
                        assert(s[m] == init[m]);
                        assert(s[m].to != s[s.len() - 1].to);
                    } else {
                        assert(u[i] == rest[i] && u[j] == rest[j]);
                    }
                }
            }
        }
    }
}

/// The connectors of `list` that do not feed `to`, in order.
fn drop_links_to(list: Vec<Connector>, to: NodeId) -> (r: Vec<Connector>)
    ensures
        link_views(r) == unlinked(link_views(list), to),
{
    let ghost orig = list@;
    let ghost all = link_views(list);
    let mut rest = list;
    let mut kept: Vec<Connector> = Vec::new();
    while rest.len() > 0
        invariant
            all == orig.map_values(|c: Connector| c@),
            rest@ == orig.skip(orig.len() - rest@.len()),
            rest@.len() <= orig.len(),
            link_views(kept) == unlinked(all.take(orig.len() - rest@.len()), to),
        decreases rest@.len(),
    {
        let ghost i = orig.len() - rest@.len();
        let connector = rest.remove(0);
        proof {
            assert(orig.skip(i)[0] == orig[i]);
            assert(rest@ =~= orig.skip(i + 1));
            assert(all.take(i + 1) =~= all.take(i).push(all[i]));
            assert(all.take(i + 1).drop_last() =~= all.take(i));
        }
        if connector.to_node_id != to {
            let ghost prior = kept@;
            kept.push(connector);
            proof {
                assert(link_views(kept) =~= prior.map_values(|c: Connector| c@).push(connector@));
            }
        }
    }
    proof {
        assert(all.take(orig.len() as int) =~= all);
    }
    kept
}

impl Pipeline {
    /// Drops the link between two nodes, and says whether one was there. A
    /// node left feeding nothing no longer counts as feeding another, and the
    /// target loses its parent only if it still names `from`: it may have been
    /// reconnected to something else since.
    pub fn disconnect(&mut self, from_node_id: NodeId, to_node_id: NodeId) -> (r: bool)
        ensures
            r == (old(self)@.links.contains_key(from_node_id) && has_link(old(self)@.links[from_node_id], to_node_id)),
            r ==> final(self)@.links == (if unlinked(old(self)@.links[from_node_id], to_node_id).len() == 0 {
                old(self)@.links.remove(from_node_id)
            } else {
                old(self)@.links.insert(from_node_id, unlinked(old(self)@.links[from_node_id], to_node_id))
            }),
            r ==> final(self)@.parents == (if old(self)@.parents.contains_key(to_node_id) && old(self)@.parents[to_node_id] == from_node_id {
                old(self)@.parents.remove(to_node_id)
            } else {
                old(self)@.parents
            }),
            !r ==> final(self)@.links == old(self)@.links,
            !r ==> final(self)@.parents == old(self)@.parents,
            final(self)@.nodes == old(self)@.nodes,
            final(self)@.next_id == old(self)@.next_id,
            final(self).spec_id() == old(self).spec_id(),
            final(self).spec_name() == old(self).spec_name(),
            final(self)@.links_distinct(),
    {
        proof {
            use_type_invariant(&*self);
        }
        let mut connectors = HashMap::new();
        std::mem::swap(&mut connectors, &mut self.connectors);
        let ghost all = connectors@;
        let list = match connectors.remove(&from_node_id) {
            Some(list) => list,
            None => {
                proof {
                    assert(connectors@ =~= all);
                }
                self.connectors = connectors;
                return false;
            },
        };
        let ghost before = link_views(list);
        let before_len = list.len();
        let kept = drop_links_to(list, to_node_id);
        proof {
            lemma_unlinked(before, to_node_id);
        }
        if kept.len() == before_len {
            connectors.insert(from_node_id, kept);
            proof {
                assert(connectors@.map_values(|v: Vec<Connector>| link_views(v)) =~= old(self)@.links);
            }
            self.connectors = connectors;
            return false;
        }
        if kept.len() > 0 {
            connectors.insert(from_node_id, kept);
        }
        proof {
            assert(connectors@.map_values(|v: Vec<Connector>| link_views(v)) =~= (if unlinked(before, to_node_id).len() == 0 {
                old(self)@.links.remove(from_node_id)
            } else {
                old(self)@.links.insert(from_node_id, unlinked(before, to_node_id))
            }));
        }
        self.connectors = connectors;
        let names_from = match self.parent_lookup.get(&to_node_id) {
            Some(parent) => *parent == from_node_id,
            None => false,
        };
        if names_from {
            let mut parents = HashMap::new();
            std::mem::swap(&mut parents, &mut self.parent_lookup);
            parents.remove(&to_node_id);
            self.parent_lookup = parents;
        }
        true
    }

    /// Drops the mapping filling `output` on the link between two nodes:
    /// None when the pair is not linked, otherwise whether one was there.
    pub fn remove_mapping(&mut self, from_node_id: NodeId, to_node_id: NodeId, output: &[usize]) -> (r: Option<bool>)
        ensures
            !has_link(links_of(old(self)@.links, from_node_id), to_node_id) ==> r is None && final(self)@.links == old(self)@.links,
            has_link(links_of(old(self)@.links, from_node_id), to_node_id) ==> {
                let s = old(self)@.links[from_node_id];
                let l = s[link_to(s, to_node_id)];
                let kept = without_output(l.mappings, output@);
                &&& r == Some(kept.len() < l.mappings.len())
                &&& final(self)@.links == old(self)@.links.insert(
                    from_node_id,
                    s.update(link_to(s, to_node_id), LinkView { mappings: kept, ..l }),
                )
            },
            final(self)@.parents == old(self)@.parents,
            final(self)@.nodes == old(self)@.nodes,
            final(self)@.next_id == old(self)@.next_id,
            final(self).spec_id() == old(self).spec_id(),
            final(self).spec_name() == old(self).spec_name(),
            final(self)@.links_distinct(),
    {
        proof {
            use_type_invariant(&*self);
        }
        let mut connectors = HashMap::new();
        std::mem::swap(&mut connectors, &mut self.connectors);
        let ghost all = connectors@;
        let mut list = match connectors.remove(&from_node_id) {
            Some(list) => list,
            None => {
                proof {
                    assert(connectors@ =~= all);
                }
                self.connectors = connectors;
                return None;
            },
        };
        let ghost before = link_views(list);
        let i = match position(&list, to_node_id) {
            Some(i) => i,
            None => {
                proof {
                    if has_link(before, to_node_id) {
                        let k = choose|k: int| 0 <= k < before.len() && before[k].to == to_node_id;
                        assert(list@[k]@ == before[k]);
                    }
                }
                connectors.insert(from_node_id, list);
                proof {
                    assert(connectors@ =~= all);
                }
                self.connectors = connectors;
                return None;
            },
        };
        proof {
            lemma_link_to_unique(before, to_node_id, i as int);
        }
        let ghost prior = list@;
        let mut connector = list.remove(i);
        let removed = connector.mapper.remove(output);
        let ghost changed = connector;
        list.insert(i, connector);
        proof {
            assert(list@ =~= prior.update(i as int, changed));
            assert(link_views(list) =~= before.update(i as int, LinkView { mappings: changed.mapper@, ..before[i as int] }));
            assert(distinct_targets(link_views(list)));
        }
        connectors.insert(from_node_id, list);
        proof {
            assert(connectors@.map_values(|v: Vec<Connector>| link_views(v)) =~= old(self)@.links.insert(
                from_node_id,
                before.update(i as int, LinkView { mappings: changed.mapper@, ..before[i as int] }),
            ));
        }
        self.connectors = connectors;
        Some(removed)
    }

    /// Counts a message dropped on the link between two nodes and says
    /// whether to report it: the first, then every thousandth. None when the
    /// pair is not linked.
    pub fn note_drop(&mut self, from_node_id: NodeId, to_node_id: NodeId) -> (r: Option<bool>)
        ensures
            !has_link(links_of(old(self)@.links, from_node_id), to_node_id) ==> r is None && final(self)@.links == old(self)@.links,
            has_link(links_of(old(self)@.links, from_node_id), to_node_id) ==> {
                let s = old(self)@.links[from_node_id];
                let l = s[link_to(s, to_node_id)];
                let count = l.dropped.wrapping_add(1);
                &&& r == Some(reported(count as int))
                &&& final(self)@.links == old(self)@.links.insert(
                    from_node_id,
                    s.update(link_to(s, to_node_id), LinkView { dropped: count, ..l }),
                )
            },
            final(self)@.parents == old(self)@.parents,
            final(self)@.nodes == old(self)@.nodes,
            final(self)@.next_id == old(self)@.next_id,
            final(self).spec_id() == old(self).spec_id(),
            final(self).spec_name() == old(self).spec_name(),
            final(self)@.links_distinct(),
    {
        proof {
            use_type_invariant(&*self);
        }
        let mut connectors = HashMap::new();
        std::mem::swap(&mut connectors, &mut self.connectors);
        let ghost all = connectors@;
        let mut list = match connectors.remove(&from_node_id) {
            Some(list) => list,
            None => {
                proof {
                    assert(connectors@ =~= all);
                }
                self.connectors = connectors;
                return None;
            },
        };
        let ghost before = link_views(list);
        let i = match position(&list, to_node_id) {
            Some(i) => i,
            None => {
                proof {
                    if has_link(before, to_node_id) {
                        let k = choose|k: int| 0 <= k < before.len() && before[k].to == to_node_id;
                        assert(list@[k]@ == before[k]);
                    }
                }
                connectors.insert(from_node_id, list);
                proof {
                    assert(connectors@ =~= all);
                }
                self.connectors = connectors;
                return None;
            },
        };
        proof {
            lemma_link_to_unique(before, to_node_id, i as int);
        }
        let ghost prior = list@;
        let mut connector = list.remove(i);
        let report = connector.count_drop();
        let ghost changed = connector;
        list.insert(i, connector);
        proof {
            assert(list@ =~= prior.update(i as int, changed));
            assert(link_views(list) =~= before.update(i as int, LinkView { dropped: changed.dropped, ..before[i as int] }));
            assert(distinct_targets(link_views(list)));
        }
        connectors.insert(from_node_id, list);
        proof {
            assert(connectors@.map_values(|v: Vec<Connector>| link_views(v)) =~= old(self)@.links.insert(
                from_node_id,
                before.update(i as int, LinkView { dropped: changed.dropped, ..before[i as int] }),
            ));
        }
        self.connectors = connectors;
        Some(report)
    }
}


/// The parents left once `node` goes: none of it, and none naming it.
pub open spec fn orphaned(parents: Map<NodeId, NodeId>, node: NodeId) -> Map<NodeId, NodeId> {
    Map::new(|k: NodeId| parents.contains_key(k) && k != node && parents[k] != node, |k: NodeId| parents[k])
}

/// The links left once `node` goes: none out of it, and none into it.
pub open spec fn cut(links: Map<NodeId, Seq<LinkView>>, node: NodeId) -> Map<NodeId, Seq<LinkView>> {
    links.remove(node).map_values(|s: Seq<LinkView>| unlinked(s, node))
}

/// What a sequence's prefix holds after it grows by one.
proof fn lemma_take_contains<A>(s: Seq<A>, i: int, x: A)
    requires
        0 <= i < s.len(),
    ensures
        s.take(i + 1).contains(x) <==> (s.take(i).contains(x) || s[i] == x),
{
    let t = s.take(i);
    let u = s.take(i + 1);
    assert(u =~= t.push(s[i]));
    if u.contains(x) {
        let k = choose|k: int| 0 <= k < u.len() && u[k] == x;
        if k < i {
            assert(t[k] == x);
        }
    }
    if t.contains(x) {
        let k = choose|k: int| 0 <= k < t.len() && t[k] == x;
        assert(u[k] == x);
    }
    if s[i] == x {
        assert(u[i] == x);
    }
}

/// In a sequence without repeats, an item is not in the prefix before it.
proof fn lemma_not_before<A>(s: Seq<A>, i: int)
    requires
        0 <= i < s.len(),
        s.no_duplicates(),
    ensures
        !s.take(i).contains(s[i]),
{
    let t = s.take(i);
    if t.contains(s[i]) {
        let k = choose|k: int| 0 <= k < t.len() && t[k] == s[i];
        assert(s[k] == s[i]);
    }
}

/// A sequence holds what its whole prefix holds.
proof fn lemma_take_all<A>(s: Seq<A>)
    ensures
        s.take(s.len() as int) == s,
{
    assert(s.take(s.len() as int) =~= s);
}

impl Pipeline {
    /// Unlinks a node and drops it, and says whether it had been started: its
    /// task holds the plugin, so the caller must see it end before the
    /// plugin is released.
    pub fn remove_node(&mut self, node_id: NodeId) -> (r: bool)
        ensures
            r == (old(self)@.nodes.contains_key(node_id) && old(self)@.nodes[node_id].started),
            final(self)@.nodes == old(self)@.nodes.remove(node_id),
            final(self)@.links == cut(old(self)@.links, node_id),
            final(self)@.parents == orphaned(old(self)@.parents, node_id),
            final(self)@.next_id == old(self)@.next_id,
            final(self).spec_id() == old(self).spec_id(),
            final(self).spec_name() == old(self).spec_name(),
            final(self)@.links_distinct(),
    {
        proof {
            use_type_invariant(&*self);
        }
        let mut connectors = HashMap::new();
        std::mem::swap(&mut connectors, &mut self.connectors);
        connectors.remove(&node_id);
        let ghost base = connectors@;
        let keys = keys_of(&connectors);
        let mut i: usize = 0;
        while i < keys.len()
            invariant
                i <= keys@.len(),
                keys@.to_set() == base.dom(),
                keys@.no_duplicates(),
                connectors@.dom() == base.dom(),
                forall|k: NodeId| #[trigger] base.contains_key(k) ==> distinct_targets(link_views(base[k])),
                forall|k: NodeId| #[trigger] base.contains_key(k) ==> if keys@.take(i as int).contains(k) {
                    link_views(connectors@[k]) == unlinked(link_views(base[k]), node_id)
                } else {
                    connectors@[k] == base[k]
                },
            decreases keys@.len() - i,
        {
            let k = keys[i];
            proof {
                assert(keys@.to_set().contains(k));
                lemma_not_before(keys@, i as int);
            }
            let list = match connectors.remove(&k) {
                Some(list) => list,
                None => Vec::new(),
            };
            let kept = drop_links_to(list, node_id);
            connectors.insert(k, kept);
            proof {
                assert forall|x: NodeId| #[trigger] base.contains_key(x) implies if keys@.take(i + 1).contains(x) {
                    link_views(connectors@[x]) == unlinked(link_views(base[x]), node_id)
                } else {
                    connectors@[x] == base[x]
                } by {
                    lemma_take_contains(keys@, i as int, x);
                }
                assert(connectors@.dom() =~= base.dom());
            }
            i = i + 1;
        }
        proof {
            lemma_take_all(keys@);
            assert forall|k: NodeId| #[trigger] connectors@.contains_key(k) implies distinct_targets(link_views(connectors@[k])) by {
                assert(keys@.to_set().contains(k));
                lemma_unlinked(link_views(base[k]), node_id);
            }
            assert(connectors@.map_values(|v: Vec<Connector>| link_views(v)) =~= cut(old(self)@.links, node_id)) by {
                assert forall|k: NodeId| #[trigger] connectors@.contains_key(k) implies keys@.contains(k) by {
                    assert(keys@.to_set().contains(k));
                }
            }
        }
        self.connectors = connectors;

        let mut parents = HashMap::new();
        std::mem::swap(&mut parents, &mut self.parent_lookup);
        parents.remove(&node_id);
        let ghost pbase = parents@;
        let pkeys = keys_of(&parents);
        let mut j: usize = 0;
        while j < pkeys.len()
            invariant
                j <= pkeys@.len(),
                pkeys@.to_set() == pbase.dom(),
                pkeys@.no_duplicates(),
                forall|k: NodeId| #[trigger] parents@.contains_key(k) ==> pbase.contains_key(k) && parents@[k] == pbase[k],
                forall|k: NodeId| #[trigger] pbase.contains_key(k) ==> (parents@.contains_key(k) <==> !(pkeys@.take(j as int).contains(k) && pbase[k] == node_id)),
            decreases pkeys@.len() - j,
        {
            let k = pkeys[j];
            proof {
                assert(pkeys@.to_set().contains(k));
                lemma_not_before(pkeys@, j as int);
            }
            let names_node = match parents.get(&k) {
                Some(parent) => *parent == node_id,
                None => false,
            };
            if names_node {
                parents.remove(&k);
            }
            proof {
                assert forall|x: NodeId| #[trigger] pbase.contains_key(x) implies (parents@.contains_key(x) <==> !(pkeys@.take(j + 1).contains(x) && pbase[x] == node_id)) by {
                    lemma_take_contains(pkeys@, j as int, x);
                }
            }
            j = j + 1;
        }
        proof {
            lemma_take_all(pkeys@);
            assert(pbase =~= old(self)@.parents.remove(node_id));
            assert forall|k: NodeId| #[trigger] pbase.contains_key(k) implies pkeys@.contains(k) by {
                assert(pkeys@.to_set().contains(k));
            }
            let o = orphaned(old(self)@.parents, node_id);
            assert forall|k: NodeId| #[trigger] o.contains_key(k) implies parents@.contains_key(k) && parents@[k] == o[k] by {
                assert(pbase.contains_key(k));
            }
            assert forall|k: NodeId| #[trigger] parents@.contains_key(k) implies o.contains_key(k) by {
                assert(pbase.contains_key(k));
            }
            assert(parents@ =~= o);
        }
        self.parent_lookup = parents;

        let mut nodes = HashMap::new();
        std::mem::swap(&mut nodes, &mut self.nodes);
        let removed = nodes.remove(&node_id);
        self.nodes = nodes;
        match removed {
            Some(node) => node.started,
            None => false,
        }
    }
}


/// A node not yet started.
pub open spec fn waiting(nodes: Map<NodeId, Node>, k: NodeId) -> bool {
    nodes.contains_key(k) && !nodes[k].started
}

/// Whether no link out of a node listed earlier in `order` comes before a
/// node that feeds nothing: targets come up before what feeds them.
pub open spec fn targets_first(order: Seq<NodeId>, links: Map<NodeId, Seq<LinkView>>) -> bool {
    forall|i: int, j: int| 0 <= i < j < order.len() && links.contains_key(#[trigger] order[i]) ==> links.contains_key(#[trigger] order[j])
}

impl Pipeline {
    /// Starts every node not started yet and switches every node on. Returns
    /// the order the nodes were started in: those that feed nothing first, so
    /// no output is routed to a node that has no task yet.
    pub fn start(&mut self) -> (order: Vec<NodeId>)
        ensures
            order@.to_set() == Set::new(|k: NodeId| waiting(old(self)@.nodes, k)),
            order@.no_duplicates(),
            targets_first(order@, old(self)@.links),
            final(self)@.nodes.dom() == old(self)@.nodes.dom(),
            forall|k: NodeId| #[trigger] old(self)@.nodes.contains_key(k) ==> final(self)@.nodes[k] == (Node {
                started: true,
                running: true,
                ..old(self)@.nodes[k]
            }),
            final(self)@.links == old(self)@.links,
            final(self)@.parents == old(self)@.parents,
            final(self)@.next_id == old(self)@.next_id,
            final(self).spec_id() == old(self).spec_id(),
            final(self).spec_name() == old(self).spec_name(),
            final(self)@.links_distinct(),
    {
        proof {
            use_type_invariant(&*self);
        }
        let keys = keys_of(&self.nodes);
        let ghost nodes0 = self.nodes@;
        let ghost links0 = self.connectors@;
        let mut first: Vec<NodeId> = Vec::new();
        let mut later: Vec<NodeId> = Vec::new();
        let mut i: usize = 0;
        while i < keys.len()
            invariant
                i <= keys@.len(),
                nodes0 == self.nodes@,
                links0 == self.connectors@,
                keys@.to_set() == nodes0.dom(),
                keys@.no_duplicates(),
                first@.no_duplicates(),
                later@.no_duplicates(),
                forall|x: NodeId| #[trigger] first@.contains(x) ==> keys@.take(i as int).contains(x) && waiting(nodes0, x) && !links0.contains_key(x),
                forall|x: NodeId| #[trigger] later@.contains(x) ==> keys@.take(i as int).contains(x) && waiting(nodes0, x) && links0.contains_key(x),
                forall|j: int| 0 <= j < i && waiting(nodes0, #[trigger] keys@[j]) ==> first@.contains(keys@[j]) || later@.contains(keys@[j]),
            decreases keys@.len() - i,
        {
            let k = keys[i];
            proof {
                lemma_not_before(keys@, i as int);
                assert forall|x: NodeId| #[trigger] first@.contains(x) implies keys@.take(i + 1).contains(x) by {
                    lemma_take_contains(keys@, i as int, x);
                }
                assert forall|x: NodeId| #[trigger] later@.contains(x) implies keys@.take(i + 1).contains(x) by {
                    lemma_take_contains(keys@, i as int, x);
                }
                lemma_take_contains(keys@, i as int, k);
            }
            let is_waiting = match self.nodes.get(&k) {
                Some(node) => !node.started,
                None => false,
            };
            if is_waiting {
                if self.connectors.contains_key(&k) {
                    let ghost prior = later@;
                    later.push(k);
                    proof {
                        lemma_push_holds(prior, k);
                    }
                } else {
                    let ghost prior = first@;
                    first.push(k);
                    proof {
                        lemma_push_holds(prior, k);
                    }
                }
            }
            i = i + 1;
        }
        let ghost firsts = first@;
        let mut order = first;
        let mut m: usize = 0;
        while m < later.len()
            invariant
                m <= later@.len(),
                order@ == firsts + later@.take(m as int),
            decreases later@.len() - m,
        {
            order.push(later[m]);
            proof {
                assert(later@.take(m + 1) =~= later@.take(m as int).push(later@[m as int]));
            }
            m = m + 1;
        }
        proof {
            lemma_take_all(later@);
            lemma_take_all(keys@);
            let o = order@;
            assert(o == firsts + later@);
            assert forall|a: int, b: int| 0 <= a < b < o.len() implies o[a] != o[b] by {
                if b < firsts.len() {
                    assert(firsts[a] != firsts[b]);
                } else if a >= firsts.len() {
                    assert(later@[a - firsts.len()] != later@[b - firsts.len()]);
                } else {
                    assert(firsts.contains(o[a]));
                    assert(later@.contains(o[b]));
                }
            }
            assert forall|a: int, b: int| 0 <= a < b < o.len() && links0.contains_key(#[trigger] o[a]) implies links0.contains_key(#[trigger] o[b]) by {
                if a < firsts.len() {
                    assert(firsts.contains(o[a]));
                }
                assert(later@.contains(o[b]));
            }
            assert forall|k: NodeId| #[trigger] o.to_set().contains(k) <==> waiting(nodes0, k) by {
                if waiting(nodes0, k) {
                    assert(keys@.to_set().contains(k));
                    let j = choose|j: int| 0 <= j < keys@.len() && keys@[j] == k;
                    if firsts.contains(k) {
                        let p = choose|p: int| 0 <= p < firsts.len() && firsts[p] == k;
                        assert(o[p] == k);
                    } else {
                        assert(later@.contains(k));
                        let p = choose|p: int| 0 <= p < later@.len() && later@[p] == k;
                        assert(o[firsts.len() + p] == k);
                    }
                }
                if o.to_set().contains(k) {
                    let p = choose|p: int| 0 <= p < o.len() && o[p] == k;
                    if p < firsts.len() {
                        assert(firsts.contains(k));
                    } else {
                        assert(later@[p - firsts.len()] == k);
                        assert(later@.contains(k));
                    }
                }
            }
            assert(o.to_set() =~= Set::new(|k: NodeId| waiting(old(self)@.nodes, k)));
        }

        let mut nodes = HashMap::new();
        std::mem::swap(&mut nodes, &mut self.nodes);
        let mut n: usize = 0;
        while n < keys.len()
            invariant
                n <= keys@.len(),
                keys@.to_set() == nodes0.dom(),
                keys@.no_duplicates(),
                nodes@.dom() == nodes0.dom(),
                forall|k: NodeId| #[trigger] nodes0.contains_key(k) ==> if keys@.take(n as int).contains(k) {
                    nodes@[k] == (Node { started: true, running: true, ..nodes0[k] })
                } else {
                    nodes@[k] == nodes0[k]
                },
            decreases keys@.len() - n,
        {
            let k = keys[n];
            proof {
                assert(keys@.to_set().contains(k));
                lemma_not_before(keys@, n as int);
            }
            match nodes.remove(&k) {
                Some(mut node) => {
                    node.started = true;
                    node.running = true;
                    nodes.insert(k, node);
                },
                None => {},
            }
            proof {
                assert forall|x: NodeId| #[trigger] nodes0.contains_key(x) implies if keys@.take(n + 1).contains(x) {
                    nodes@[x] == (Node { started: true, running: true, ..nodes0[x] })
                } else {
                    nodes@[x] == nodes0[x]
                } by {
                    lemma_take_contains(keys@, n as int, x);
                }
                assert(nodes@.dom() =~= nodes0.dom());
            }
            n = n + 1;
        }
        proof {
            assert forall|k: NodeId| #[trigger] nodes0.contains_key(k) implies keys@.contains(k) by {
                assert(keys@.to_set().contains(k));
            }
        }
        self.nodes = nodes;
        order
    }
}

/// A sequence without repeats keeps none when it grows by an item it lacks.
proof fn lemma_push_holds<A>(s: Seq<A>, x: A)
    ensures
        s.push(x).contains(x),
        forall|y: A| s.contains(y) ==> #[trigger] s.push(x).contains(y),
        forall|y: A| #[trigger] s.push(x).contains(y) ==> s.contains(y) || y == x,
        s.no_duplicates() && !s.contains(x) ==> s.push(x).no_duplicates(),
{
    let t = s.push(x);
    assert(t[s.len() as int] == x);
    assert forall|y: A| s.contains(y) implies #[trigger] t.contains(y) by {
        let k = choose|k: int| 0 <= k < s.len() && s[k] == y;
        assert(t[k] == y);
    }
    assert forall|y: A| #[trigger] t.contains(y) implies s.contains(y) || y == x by {
        let k = choose|k: int| 0 <= k < t.len() && t[k] == y;
        if k < s.len() {
            assert(s[k] == y);
        }
    }
    if s.no_duplicates() && !s.contains(x) {
        assert forall|a: int, b: int| 0 <= a < b < t.len() implies t[a] != t[b] by {
            if b == s.len() {
                assert(s[a] == t[a]);
            }
        }
    }
}


impl Pipeline {
    /// Starts one node not started yet; it keeps whether it was switched on.
    pub fn start_node(&mut self, node_id: NodeId)
        requires
            waiting(old(self)@.nodes, node_id),
        ensures
            final(self)@.nodes == old(self)@.nodes.insert(node_id, Node { started: true, ..old(self)@.nodes[node_id] }),
            final(self)@.links == old(self)@.links,
            final(self)@.parents == old(self)@.parents,
            final(self)@.next_id == old(self)@.next_id,
            final(self).spec_id() == old(self).spec_id(),
            final(self).spec_name() == old(self).spec_name(),
            final(self)@.links_distinct(),
    {
        proof {
            use_type_invariant(&*self);
        }
        let mut nodes = HashMap::new();
        std::mem::swap(&mut nodes, &mut self.nodes);
        let ghost before = nodes@;
        match nodes.remove(&node_id) {
            Some(mut node) => {
                node.started = true;
                nodes.insert(node_id, node);
            },
            None => {},
        }
        proof {
            assert(nodes@ =~= before.insert(node_id, Node { started: true, ..before[node_id] }));
        }
        self.nodes = nodes;
    }

    /// Switches a started node on or off; false if there is no such node
    /// or it has not been started.
    pub fn set_node_running(&mut self, node_id: NodeId, running: bool) -> (r: bool)
        ensures
            r == (old(self)@.nodes.contains_key(node_id) && old(self)@.nodes[node_id].started),
            r ==> final(self)@.nodes == old(self)@.nodes.insert(node_id, Node { running, ..old(self)@.nodes[node_id] }),
            !r ==> final(self)@.nodes == old(self)@.nodes,
            final(self)@.links == old(self)@.links,
            final(self)@.parents == old(self)@.parents,
            final(self)@.next_id == old(self)@.next_id,
            final(self).spec_id() == old(self).spec_id(),
            final(self).spec_name() == old(self).spec_name(),
            final(self)@.links_distinct(),
    {
        proof {
            use_type_invariant(&*self);
        }
        let started = match self.nodes.get(&node_id) {
            Some(node) => node.started,
            None => false,
        };
        if !started {
            return false;
        }
        let mut nodes = HashMap::new();
        std::mem::swap(&mut nodes, &mut self.nodes);
        let ghost before = nodes@;
        match nodes.remove(&node_id) {
            Some(mut node) => {
                node.running = running;
                nodes.insert(node_id, node);
            },
            None => {},
        }
        proof {
            assert(nodes@ =~= before.insert(node_id, Node { running, ..before[node_id] }));
        }
        self.nodes = nodes;
        true
    }

    /// Switches the started sources off and leaves the rest running, so
    /// whatever is still in flight drains instead of being dropped.
    pub fn stop(&mut self)
        ensures
            final(self)@.nodes.dom() == old(self)@.nodes.dom(),
            forall|k: NodeId| #[trigger] old(self)@.nodes.contains_key(k) ==> final(self)@.nodes[k] == (
            if old(self)@.nodes[k].started && old(self)@.nodes[k].is_source {
                Node { running: false, ..old(self)@.nodes[k] }
            } else {
                old(self)@.nodes[k]
            }),
            final(self)@.links == old(self)@.links,
            final(self)@.parents == old(self)@.parents,
            final(self)@.next_id == old(self)@.next_id,
            final(self).spec_id() == old(self).spec_id(),
            final(self).spec_name() == old(self).spec_name(),
            final(self)@.links_distinct(),
    {
        proof {
            use_type_invariant(&*self);
        }
        let keys = keys_of(&self.nodes);
        let mut nodes = HashMap::new();
        std::mem::swap(&mut nodes, &mut self.nodes);
        let ghost nodes0 = nodes@;
        let mut n: usize = 0;
        while n < keys.len()
            invariant
                n <= keys@.len(),
                keys@.to_set() == nodes0.dom(),
                keys@.no_duplicates(),
                nodes@.dom() == nodes0.dom(),
                forall|k: NodeId| #[trigger] nodes0.contains_key(k) ==> nodes@[k] == (
                if keys@.take(n as int).contains(k) && nodes0[k].started && nodes0[k].is_source {
                    Node { running: false, ..nodes0[k] }
                } else {
                    nodes0[k]
                }),
            decreases keys@.len() - n,
        {
            let k = keys[n];
            proof {
                assert(keys@.to_set().contains(k));
                lemma_not_before(keys@, n as int);
            }
            match nodes.remove(&k) {
                Some(mut node) => {
                    if node.started && node.is_source {
                        node.running = false;
                    }
                    nodes.insert(k, node);
                },
                None => {},
            }
            proof {
                assert forall|x: NodeId| #[trigger] nodes0.contains_key(x) implies nodes@[x] == (
                if keys@.take(n + 1).contains(x) && nodes0[x].started && nodes0[x].is_source {
                    Node { running: false, ..nodes0[x] }
                } else {
                    nodes0[x]
                }) by {
                    lemma_take_contains(keys@, n as int, x);
                }
                assert(nodes@.dom() =~= nodes0.dom());
            }
            n = n + 1;
        }
        proof {
            lemma_take_all(keys@);
            assert forall|k: NodeId| #[trigger] nodes0.contains_key(k) implies keys@.contains(k) by {
                assert(keys@.to_set().contains(k));
            }
        }
        self.nodes = nodes;
    }

    /// Renames a node; false if there is no such node.
    pub fn set_node_name(&mut self, node_id: NodeId, name: &str) -> (r: bool)
        ensures
            r == old(self)@.nodes.contains_key(node_id),
            final(self)@.nodes.dom() == old(self)@.nodes.dom(),
            forall|k: NodeId| k != node_id ==> #[trigger] final(self)@.nodes.get(k) == old(self)@.nodes.get(k),
            r ==> final(self)@.nodes[node_id].name@ == name@,
            r ==> final(self)@.nodes[node_id].id == old(self)@.nodes[node_id].id,
            r ==> final(self)@.nodes[node_id].plugin == old(self)@.nodes[node_id].plugin,
            r ==> final(self)@.nodes[node_id].is_source == old(self)@.nodes[node_id].is_source,
            r ==> final(self)@.nodes[node_id].input_shape == old(self)@.nodes[node_id].input_shape,
            r ==> final(self)@.nodes[node_id].output_shape == old(self)@.nodes[node_id].output_shape,
            r ==> final(self)@.nodes[node_id].started == old(self)@.nodes[node_id].started,
            r ==> final(self)@.nodes[node_id].running == old(self)@.nodes[node_id].running,
            r ==> final(self)@.nodes[node_id].failures == old(self)@.nodes[node_id].failures,
            final(self)@.links == old(self)@.links,
            final(self)@.parents == old(self)@.parents,
            final(self)@.next_id == old(self)@.next_id,
            final(self).spec_id() == old(self).spec_id(),
            final(self).spec_name() == old(self).spec_name(),
            final(self)@.links_distinct(),
    {
        proof {
            use_type_invariant(&*self);
        }
        let mut nodes = HashMap::new();
        std::mem::swap(&mut nodes, &mut self.nodes);
        let ghost before = nodes@;
        let renamed = match nodes.remove(&node_id) {
            Some(mut node) => {
                node.name = name.to_owned();
                nodes.insert(node_id, node);
                true
            },
            None => false,
        };
        proof {
            assert(nodes@.dom() =~= before.dom());
        }
        self.nodes = nodes;
        renamed
    }

    pub fn node_name(&self, node_id: NodeId) -> (r: Option<&str>)
        ensures
            match r {
                Some(name) => self@.nodes.contains_key(node_id) && name@ == self@.nodes[node_id].name@,
                None => !self@.nodes.contains_key(node_id),
            },
    {
        match self.nodes.get(&node_id) {
            Some(node) => Some(node.name.as_str()),
            None => None,
        }
    }

    /// The nodes running a plugin instance, those not started first.
    pub fn nodes_of(&self, plugin: usize) -> (r: Vec<NodeId>)
        ensures
            r@.to_set() == Set::new(|k: NodeId| self@.nodes.contains_key(k) && self@.nodes[k].plugin == plugin),
            r@.no_duplicates(),
            forall|i: int, j: int| 0 <= i < j < r@.len() && self@.nodes[#[trigger] r@[i]].started ==> self@.nodes[#[trigger] r@[j]].started,
    {
        let keys = keys_of(&self.nodes);
        let waiting = running_plugin(&self.nodes, &keys, plugin, false);
        let started = running_plugin(&self.nodes, &keys, plugin, true);
        let ghost firsts = waiting@;
        let mut order = waiting;
        let mut m: usize = 0;
        while m < started.len()
            invariant
                m <= started@.len(),
                order@ == firsts + started@.take(m as int),
            decreases started@.len() - m,
        {
            order.push(started[m]);
            proof {
                assert(started@.take(m + 1) =~= started@.take(m as int).push(started@[m as int]));
            }
            m = m + 1;
        }
        proof {
            lemma_take_all(started@);
            let o = order@;
            let nodes = self@.nodes;
            assert(o == firsts + started@);
            assert forall|a: int| 0 <= a < firsts.len() implies !nodes[#[trigger] firsts[a]].started by {
                assert(firsts.contains(firsts[a]));
            }
            assert forall|a: int| 0 <= a < started@.len() implies nodes[#[trigger] started@[a]].started by {
                assert(started@.contains(started@[a]));
            }
            assert forall|a: int, b: int| 0 <= a < b < o.len() implies o[a] != o[b] by {
                if b < firsts.len() {
                    assert(firsts[a] != firsts[b]);
                } else if a >= firsts.len() {
                    assert(started@[a - firsts.len()] != started@[b - firsts.len()]);
                } else {
                    assert(!nodes[firsts[a]].started);
                    assert(nodes[started@[b - firsts.len()]].started);
                }
            }
            assert forall|a: int, b: int| 0 <= a < b < o.len() && nodes[#[trigger] o[a]].started implies nodes[#[trigger] o[b]].started by {
                if a < firsts.len() {
                    assert(!nodes[firsts[a]].started);
                }
                assert(nodes[started@[b - firsts.len()]].started);
            }
            assert forall|k: NodeId| #[trigger] o.to_set().contains(k) <==> (nodes.contains_key(k) && nodes[k].plugin == plugin) by {
                if nodes.contains_key(k) && nodes[k].plugin == plugin {
                    if nodes[k].started {
                        assert(started@.contains(k));
                        let p = choose|p: int| 0 <= p < started@.len() && started@[p] == k;
                        assert(o[firsts.len() + p] == k);
                    } else {
                        assert(firsts.contains(k));
                        let p = choose|p: int| 0 <= p < firsts.len() && firsts[p] == k;
                        assert(o[p] == k);
                    }
                }
                if o.to_set().contains(k) {
                    let p = choose|p: int| 0 <= p < o.len() && o[p] == k;
                    if p < firsts.len() {
                        assert(firsts.contains(k));
                    } else {
                        assert(started@[p - firsts.len()] == k);
                        assert(started@.contains(k));
                    }
                }
            }
            assert(o.to_set() =~= Set::new(|k: NodeId| nodes.contains_key(k) && nodes[k].plugin == plugin));
        }
        order
    }

    /// The nodes `from` feeds, in the order its links were made.
    pub fn targets(&self, from_node_id: NodeId) -> (r: Vec<NodeId>)
        ensures
            r@ == links_of(self@.links, from_node_id).map_values(|l: LinkView| l.to),
    {
        let mut out: Vec<NodeId> = Vec::new();
        match self.connectors.get(&from_node_id) {
            Some(list) => {
                let mut i: usize = 0;
                while i < list.len()
                    invariant
                        i <= list@.len(),
                        out@ == list@.take(i as int).map_values(|c: Connector| c.to_node_id),
                    decreases list@.len() - i,
                {
                    out.push(list[i].to_node_id);
                    proof {
                        assert(list@.take(i + 1) =~= list@.take(i as int).push(list@[i as int]));
                    }
                    i = i + 1;
                }
                proof {
                    lemma_take_all(list@);
                    assert(out@ =~= links_of(self@.links, from_node_id).map_values(|l: LinkView| l.to));
                }
            },
            None => {
                proof {
                    assert(out@ =~= links_of(self@.links, from_node_id).map_values(|l: LinkView| l.to));
                }
            },
        }
        out
    }

    /// The node that last became `node_id`'s parent, if it still is.
    pub fn parent(&self, node_id: NodeId) -> (r: Option<NodeId>)
        ensures
            r == self@.parents.get(node_id),
    {
        match self.parent_lookup.get(&node_id) {
            Some(parent) => Some(*parent),
            None => None,
        }
    }
}


/// The keys of the nodes running `plugin` whose started flag is `started`,
/// in the order of `keys`.
fn running_plugin(nodes: &HashMap<NodeId, Node>, keys: &Vec<NodeId>, plugin: usize, started: bool) -> (r: Vec<NodeId>)
    requires
        keys@.to_set() == nodes@.dom(),
        keys@.no_duplicates(),
    ensures
        r@.no_duplicates(),
        forall|x: NodeId| #[trigger] r@.contains(x) <==> (nodes@.contains_key(x) && nodes@[x].plugin == plugin && nodes@[x].started == started),
{
    let mut out: Vec<NodeId> = Vec::new();
    let mut i: usize = 0;
    while i < keys.len()
        invariant
            i <= keys@.len(),
            keys@.to_set() == nodes@.dom(),
            keys@.no_duplicates(),
            out@.no_duplicates(),
            forall|x: NodeId| #[trigger] out@.contains(x) <==> (keys@.take(i as int).contains(x) && nodes@[x].plugin == plugin && nodes@[x].started == started),
        decreases keys@.len() - i,
    {
        let k = keys[i];
        proof {
            assert(keys@.to_set().contains(k));
            lemma_not_before(keys@, i as int);
        }
        let pick = match nodes.get(&k) {
            Some(node) => node.plugin == plugin && node.started == started,
            None => false,
        };
        let ghost prior = out@;
        if pick {
            out.push(k);
            proof {
                lemma_push_holds(prior, k);
            }
        }
        proof {
            assert forall|x: NodeId| #[trigger] out@.contains(x) <==> (keys@.take(i + 1).contains(x) && nodes@[x].plugin == plugin && nodes@[x].started == started) by {
                lemma_take_contains(keys@, i as int, x);
                if pick {
                    lemma_push_holds(prior, k);
                }
            }
        }
        i = i + 1;
    }
    proof {
        lemma_take_all(keys@);
        assert forall|x: NodeId| #[trigger] out@.contains(x) <==> (nodes@.contains_key(x) && nodes@[x].plugin == plugin && nodes@[x].started == started) by {
            if nodes@.contains_key(x) {
                assert(keys@.to_set().contains(x));
            }
            if keys@.contains(x) {
                assert(keys@.to_set().contains(x));
            }
        }
    }
    out
}


/// Dropping the links to a node whose link was just replaced drops the
/// same links as before the replacement.
proof fn lemma_unlinked_update(s: Seq<LinkView>, k: int, x: LinkView)
    requires
        0 <= k < s.len(),
        s[k].to == x.to,
    ensures
        unlinked(s.update(k, x), x.to) == unlinked(s, x.to),
    decreases s.len(),
{
    let u = s.update(k, x);
    if k == s.len() - 1 {
        assert(u.drop_last() =~= s.drop_last());
    } else {
        assert(u.drop_last() =~= s.drop_last().update(k, x));
        lemma_unlinked_update(s.drop_last(), k, x);
    }
}

/// A link just made is the one link to its target, and leaves the others
/// feeding distinct nodes.
pub proof fn law_link_is_single(s: Seq<LinkView>, l: LinkView)
    requires
        distinct_targets(s),
    ensures
        distinct_targets(linked(s, l)),
        has_link(linked(s, l), l.to),
        linked(s, l)[link_to(linked(s, l), l.to)] == l,
{
    let t = linked(s, l);
    if has_link(s, l.to) {
        let k = link_to(s, l.to);
        assert(distinct_targets(t)) by {
            assert forall|i: int, j: int| 0 <= i < j < t.len() implies #[trigger] t[i].to != #[trigger] t[j].to by {
                assert(s[i].to != s[j].to);
            }
        }
        lemma_link_to_unique(t, l.to, k);
    } else {
        assert(distinct_targets(t)) by {
            assert forall|i: int, j: int| 0 <= i < j < t.len() implies #[trigger] t[i].to != #[trigger] t[j].to by {
                if j == s.len() {
                    assert(t[i] == s[i]);
                } else {
                    assert(s[i].to != s[j].to);
                }
            }
        }
        lemma_link_to_unique(t, l.to, s.len() as int);
    }
}

/// Connecting a pair and then disconnecting it leaves the node's links as
/// disconnecting alone would: the other links, in their order, and none to
/// that target.
pub proof fn law_connect_then_disconnect(s: Seq<LinkView>, l: LinkView)
    requires
        distinct_targets(s),
    ensures
        unlinked(linked(s, l), l.to) == unlinked(s, l.to),
        !has_link(unlinked(linked(s, l), l.to), l.to),
{
    if has_link(s, l.to) {
        let k = link_to(s, l.to);
        lemma_unlinked_update(s, k, l);
    } else {
        assert(s.push(l).drop_last() =~= s);
    }
    lemma_unlinked(linked(s, l), l.to);
}

/// Connecting a pair again leaves one link between them, carrying the last
/// mapping, where the first link stood.
pub proof fn law_reconnect_replaces(s: Seq<LinkView>, first: LinkView, second: LinkView)
    requires
        distinct_targets(s),
        first.to == second.to,
    ensures
        linked(linked(s, first), second) == linked(s, second),
{
    let t = linked(s, first);
    law_link_is_single(s, first);
    if has_link(s, first.to) {
        let k = link_to(s, first.to);
        lemma_link_to_unique(t, first.to, k);
        assert(t.update(k, second) =~= s.update(k, second));
    } else {
        lemma_link_to_unique(t, first.to, s.len() as int);
        assert(t.update(s.len() as int, second) =~= s.push(second));
    }
}

/// Once a node is removed, no link leaves it or reaches it, and no node
/// names it as its parent.
pub proof fn law_removed_node_unreferenced(links: Map<NodeId, Seq<LinkView>>, parents: Map<NodeId, NodeId>, node: NodeId)
    ensures
        !cut(links, node).contains_key(node),
        forall|k: NodeId| #[trigger] cut(links, node).contains_key(k) ==> !has_link(cut(links, node)[k], node),
        !orphaned(parents, node).contains_key(node),
        forall|k: NodeId| #[trigger] orphaned(parents, node).contains_key(k) ==> orphaned(parents, node)[k] != node,
{
    assert forall|k: NodeId| #[trigger] cut(links, node).contains_key(k) implies !has_link(cut(links, node)[k], node) by {
        lemma_unlinked(links[k], node);
    }
}


/// What becomes of a node's output on one of its links, as far as the
/// pipeline can tell before looking at the message.
#[derive(Debug, Clone, Copy, PartialEq, Eq, Structural)]
pub enum Route {
    /// An unmapped link carries nothing: a target reading a field the
    /// mapper never wrote is how plugins get killed.
    Unmapped,
    /// The target has no task yet.
    NoWorker,
    /// Mapped and handed over; unless `verified`, the mapped message is
    /// checked against the target's input first.
    Deliver { to: NodeId, verified: bool },
}

/// Where a link sends output, given the nodes.
pub open spec fn route_of(l: LinkView, nodes: Map<NodeId, Node>) -> Route {
    if l.mappings.len() == 0 {
        Route::Unmapped
    } else if !(nodes.contains_key(l.to) && nodes[l.to].started) {
        Route::NoWorker
    } else {
        Route::Deliver { to: l.to, verified: l.verified }
    }
}

impl Pipeline {
    /// What becomes of `from`'s output on each of its links, in link order.
    pub fn routes(&self, from_node_id: NodeId) -> (r: Vec<Route>)
        ensures
            r@ == links_of(self@.links, from_node_id).map_values(|l: LinkView| route_of(l, self@.nodes)),
    {
        let mut out: Vec<Route> = Vec::new();
        match self.connectors.get(&from_node_id) {
            Some(list) => {
                let ghost ls = link_views(*list);
                let mut i: usize = 0;
                while i < list.len()
                    invariant
                        i <= list@.len(),
                        ls == link_views(*list),
                        out@ == ls.take(i as int).map_values(|l: LinkView| route_of(l, self@.nodes)),
                    decreases list@.len() - i,
                {
                    let connector = &list[i];
                    let route = if connector.mapper.is_empty() {
                        Route::Unmapped
                    } else {
                        let started = match self.nodes.get(&connector.to_node_id) {
                            Some(node) => node.started,
                            None => false,
                        };
                        if started {
                            Route::Deliver { to: connector.to_node_id, verified: connector.verified }
                        } else {
                            Route::NoWorker
                        }
                    };
                    out.push(route);
                    proof {
                        assert(ls[i as int] == connector@);
                        assert(ls.take(i + 1) =~= ls.take(i as int).push(ls[i as int]));
                    }
                    i = i + 1;
                }
                proof {
                    lemma_take_all(ls);
                }
            },
            None => {
                proof {
                    assert(out@ =~= links_of(self@.links, from_node_id).map_values(|l: LinkView| route_of(l, self@.nodes)));
                }
            },
        }
        out
    }
}


/// Which end of a node a shape belongs to.
#[derive(Debug, Clone, Copy, PartialEq, Eq, Structural)]
pub enum Side {
    Input,
    Output,
}

impl Pipeline {
    /// The kinds of the fields of a node's input or output, by code; none
    /// for an unknown node.
    pub fn shape_of(&self, node_id: NodeId, side: Side) -> (r: Vec<u32>)
        ensures
            r@ == if self@.nodes.contains_key(node_id) {
                match side {
                    Side::Input => self@.nodes[node_id].input_shape@,
                    Side::Output => self@.nodes[node_id].output_shape@,
                }
            } else {
                Seq::<u32>::empty()
            },
    {
        match self.nodes.get(&node_id) {
            Some(node) => match side {
                Side::Input => node.input_shape.clone(),
                Side::Output => node.output_shape.clone(),
            },
            None => Vec::new(),
        }
    }
}


impl Pipeline {
    /// Counts a failure of a node to process, or to write its output schema,
    /// and says whether to report it: the first, then every thousandth. None
    /// for an unknown node.
    pub fn note_failure(&mut self, node_id: NodeId) -> (r: Option<bool>)
        ensures
            !old(self)@.nodes.contains_key(node_id) ==> r is None && final(self)@.nodes == old(self)@.nodes,
            old(self)@.nodes.contains_key(node_id) ==> {
                let count = old(self)@.nodes[node_id].failures.wrapping_add(1);
                &&& r == Some(reported(count as int))
                &&& final(self)@.nodes == old(self)@.nodes.insert(node_id, Node { failures: count, ..old(self)@.nodes[node_id] })
            },
            final(self)@.links == old(self)@.links,
            final(self)@.parents == old(self)@.parents,
            final(self)@.next_id == old(self)@.next_id,
            final(self).spec_id() == old(self).spec_id(),
            final(self).spec_name() == old(self).spec_name(),
            final(self)@.links_distinct(),
    {
        proof {
            use_type_invariant(&*self);
        }
        let mut nodes = HashMap::new();
        std::mem::swap(&mut nodes, &mut self.nodes);
        let ghost before = nodes@;
        let r = match nodes.remove(&node_id) {
            Some(mut node) => {
                node.failures = node.failures.wrapping_add(1);
                let failures = node.failures;
                nodes.insert(node_id, node);
                Some(failures == 1 || failures % 1000 == 0)
            },
            None => None,
        };
        proof {
            if before.contains_key(node_id) {
                assert(nodes@ =~= before.insert(node_id, Node { failures: before[node_id].failures.wrapping_add(1), ..before[node_id] }));
            } else {
                assert(nodes@ =~= before);
            }
        }
        self.nodes = nodes;
        r
    }
}

} // verus!
