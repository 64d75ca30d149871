//! A full description of the scene, for readers that want all of it at once.
use vstd::prelude::*;

use crate::agent::scene::{record_node, Entity, Node, SceneTree};
use crate::agent::world::SceneWorld;

verus! {

/// One node of the description with what stands below it.
#[derive(Debug)]
pub struct DescriptorNode {
    /// `frame`, `rectangle`, `text`, or `unknown`.
    pub node_type: String,
    pub depth: u32,
    pub data: Option<Node>,
    pub children: Vec<DescriptorNode>,
}

#[derive(Clone, Copy, Debug, PartialEq, Eq, Structural)]
pub struct DescriptorMetadata {
    pub root_count: usize,
    pub max_depth: u32,
}

#[derive(Debug)]
pub struct SceneGraphDescriptor {
    pub metadata: DescriptorMetadata,
    pub roots: Vec<DescriptorNode>,
}

/// The tag of a variant.
pub open spec fn type_tag(n: Option<Node>) -> Seq<char> {
    match n {
        Some(Node::Frame(_)) => "frame"@,
        Some(Node::Rectangle(_)) => "rectangle"@,
        Some(Node::Text(_)) => "text"@,
        None => "unknown"@,
    }
}

impl SceneTree {
    /// The node that the components of `e` make up.
    pub open spec fn node(self, e: Entity) -> Option<Node> {
        if self.alive(e) {
            record_node(self.rec(e))
        } else {
            None
        }
    }

    /// Whether `list` describes the scene nodes `nodes`, which stand at
    /// `depth`, with all scene nodes below them, `levels` levels in all.
    pub open spec fn described(
        self,
        list: Seq<DescriptorNode>,
        nodes: Seq<Entity>,
        depth: nat,
        levels: nat,
    ) -> bool
        decreases levels, nodes.len(),
    {
        if levels == 0 || nodes.len() == 0 {
            list.len() == 0
        } else {
            &&& list.len() == nodes.len()
            &&& self.described(list.drop_last(), nodes.drop_last(), depth, levels)
            &&& list.last().data == self.node(nodes.last())
            &&& list.last().node_type@ == type_tag(self.node(nodes.last()))
            &&& list.last().depth == depth
            &&& self.described(
                list.last().children@,
                self.scene_kids(nodes.last()),
                depth + 1,
                (levels - 1) as nat,
            )
        }
    }
}

fn tag_of(n: &Option<Node>) -> (r: String)
    ensures
        r@ == type_tag(*n),
{
    match n {
        Some(Node::Frame(_)) => "frame".to_owned(),
        Some(Node::Rectangle(_)) => "rectangle".to_owned(),
        Some(Node::Text(_)) => "text".to_owned(),
        None => "unknown".to_owned(),
    }
}

/// Describes the scene nodes `nodes` with all scene nodes below them.
fn describe_nodes(tree: &SceneTree, nodes: &Vec<Entity>, depth: u64, levels: u64) -> (r: Vec<
    DescriptorNode,
>)
    requires
        tree.wf(),
        depth + levels <= tree.slots@.len() + 1,
    ensures
        tree.described(r@, nodes@, depth as nat, levels as nat),
    decreases levels,
{
    let mut out: Vec<DescriptorNode> = Vec::new();
    if levels == 0 {
        return out;
    }
    let mut i: usize = 0;
    assert(nodes@.take(0) =~= seq![]);
    while i < nodes.len()
        invariant
            tree.wf(),
            0 < levels,
            depth + levels <= tree.slots@.len() + 1,
            i <= nodes@.len(),
            out@.len() == i,
            tree.described(out@, nodes@.take(i as int), depth as nat, levels as nat),
        decreases nodes@.len() - i,
    {
        let e = nodes[i];
        let kids = tree.scene_kids_of(e);
        let children = describe_nodes(tree, &kids, depth + 1, levels - 1);
        let data = tree.materialize_at(e);
        let node_type = tag_of(&data);
        let ghost before = out@;
        out.push(DescriptorNode { node_type, depth: depth as u32, data, children });
        proof {
            let t = nodes@.take(i + 1);
            assert(t.drop_last() =~= nodes@.take(i as int));
            assert(t.last() == e);
            assert(out@.drop_last() =~= before);
        }
        i = i + 1;
    }
    assert(nodes@.take(i as int) =~= nodes@);
    out
}

/// Describes the whole scene.
pub fn scene_descriptor(sw: &SceneWorld) -> (r: SceneGraphDescriptor)
    requires
        sw.wf(),
    ensures
        sw.tree.described(r.roots@, sw.tree.roots(), 0, sw.tree.all_levels()),
        r.metadata.root_count == sw.tree.roots().len(),
        r.metadata.max_depth == sw.tree.depth(),
{
    let starts = sw.tree.roots_of();
    let levels = sw.tree.slots.len() as u64 + 1;
    let roots = describe_nodes(&sw.tree, &starts, 0, levels);
    let max_depth = crate::agent::scan::compute_max_depth(sw);
    SceneGraphDescriptor {
        metadata: DescriptorMetadata { root_count: starts.len(), max_depth },
        roots,
    }
}

// ---------------------------------------------------------------------------
// Laws
// ---------------------------------------------------------------------------

impl SceneTree {
    /// A description has one entry for each scene node it is to describe, in
    /// order: with the node's data, the tag that goes with it, its level, and an
    /// entry one level deeper for each of its scene children.
    pub proof fn description_tells_each_node(
        self,
        list: Seq<DescriptorNode>,
        nodes: Seq<Entity>,
        depth: nat,
        levels: nat,
        i: int,
    )
        requires
            levels > 0,
            self.described(list, nodes, depth, levels),
        ensures
            list.len() == nodes.len(),
            0 <= i < nodes.len() && self.alive(nodes[i]) ==> {
                let r = self.rec(nodes[i]);
                &&& list[i].depth == depth
                &&& list[i].data == record_node(r)
                &&& r.frame is Some ==> list[i].node_type@ == "frame"@
                &&& r.frame is None && r.rectangle is Some ==> list[i].node_type@ == "rectangle"@
                &&& r.frame is None && r.rectangle is None && r.text is Some
                    ==> list[i].node_type@ == "text"@
                &&& r.frame is None && r.rectangle is None && r.text is None
                    ==> list[i].node_type@ == "unknown"@
                &&& self.described(
                    list[i].children@,
                    self.scene_kids(nodes[i]),
                    depth + 1,
                    (levels - 1) as nat,
                )
            },
        decreases nodes.len(),
    {
        if nodes.len() > 0 {
            self.description_tells_each_node(
                list.drop_last(),
                nodes.drop_last(),
                depth,
                levels,
                i,
            );
        }
    }
}

} // verus!
