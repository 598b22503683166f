use vstd::prelude::*;

use crate::constraint::Constraint;
use crate::px::{Px, PxPosition, PxSize};

verus! {

/// The resolved size of a measured node.
#[derive(Debug, Clone, Copy, PartialEq, Eq, Hash, Structural)]
pub struct ComputedData {
    pub width: Px,
    pub height: Px,
}

impl ComputedData {
    pub fn zero() -> (r: ComputedData)
        ensures
            r.width.0 == 0,
            r.height.0 == 0,
    {
        ComputedData { width: Px(0), height: Px(0) }
    }
}

impl From<ComputedData> for PxSize {
    fn from(data: ComputedData) -> (r: PxSize) {
        PxSize { width: data.width, height: data.height }
    }
}

impl vstd::std_specs::convert::FromSpecImpl<ComputedData> for PxSize {
    open spec fn obeys_from_spec() -> bool {
        true
    }

    open spec fn from_spec(data: ComputedData) -> PxSize {
        PxSize { width: data.width, height: data.height }
    }
}

/// Why a measurement did not produce a size.
#[derive(Debug, Clone, PartialEq, Eq)]
pub enum MeasurementError {
    /// Measuring the subtree of this child failed.
    ChildMeasurementFailed(usize),
    /// The measurement itself failed, for the reason given.
    MeasureFnFailed(String),
}

/// How the children of a row or column share its main axis.
#[derive(Debug, Clone, Copy, PartialEq, Eq, Hash, Structural)]
pub enum MainAxisAlignment {
    /// Packed at the start.
    Start,
    /// Packed in the middle.
    Center,
    /// Packed at the end.
    End,
    /// Equal gaps before, between and after the children.
    SpaceEvenly,
    /// Equal gaps between the children, none at the ends.
    SpaceBetween,
    /// Equal gaps between the children, half a gap at each end.
    SpaceAround,
}

/// Where the children of a row or column sit across its main axis.
#[derive(Debug, Clone, Copy, PartialEq, Eq, Hash, Structural)]
pub enum CrossAxisAlignment {
    Start,
    Center,
    End,
}

/// The measurement behaviour a node registers while it composes.
#[derive(Debug, Clone, Copy, PartialEq, Eq, Hash, Structural)]
pub enum MeasurePolicy {
    /// A node sized by content it draws itself (such as a text run of the
    /// given size); it measures none of its children.
    Leaf { content: PxSize },
    /// A container with padding on every side around its first child; any
    /// further children are not measured.
    Surface { padding: Px },
    /// Children side by side, left to right.
    Row { main_axis_alignment: MainAxisAlignment, cross_axis_alignment: CrossAxisAlignment },
    /// Children stacked, top to bottom.
    Column { main_axis_alignment: MainAxisAlignment, cross_axis_alignment: CrossAxisAlignment },
    /// A track of the given size whose first child, the thumb, slides from
    /// `thumb_padding` at the start to `thumb_padding` before the end as
    /// `progress_permille` goes from 0 to 1000, centred across. Measuring a
    /// toggle without a child fails.
    Toggle { width: Px, height: Px, thumb_padding: Px, progress_permille: u32 },
}

/// One node of the per-frame arena.
#[derive(Debug)]
pub struct ComponentNode {
    /// The node this one was created under, if any.
    pub parent: Option<usize>,
    /// The children in composition order, which is also measurement and
    /// paint order.
    pub children: Vec<usize>,
    /// What the node itself asks for.
    pub constraint: Constraint,
    pub policy: MeasurePolicy,
}

/// What measurement and placement record about a node during one frame.
#[derive(Debug, Clone, Copy, PartialEq, Eq, Structural)]
pub struct ComponentNodeMetaData {
    /// The size resolved for the node, once measured.
    pub computed_data: Option<ComputedData>,
    /// The position relative to the parent's content origin, once placed.
    pub rel_position: Option<PxPosition>,
}

impl ComponentNodeMetaData {
    pub fn empty() -> (r: ComponentNodeMetaData)
        ensures
            r.computed_data is None,
            r.rel_position is None,
    {
        ComponentNodeMetaData { computed_data: None, rel_position: None }
    }
}

/// The arena of one frame: the nodes, the metadata table beside them, the
/// drawable each node may carry and the state handler each node may register.
/// Node identities are indices, valid for the current frame only.
pub struct ComponentTree<D, H> {
    pub nodes: Vec<ComponentNode>,
    pub metadatas: Vec<ComponentNodeMetaData>,
    pub drawables: Vec<Option<D>>,
    pub handlers: Vec<Option<H>>,
    /// The nodes whose composition is under way, outermost first.
    pub stack: Vec<usize>,
}

/// The `k`-th child of node `i`.
pub open spec fn child(nodes: Seq<ComponentNode>, i: int, k: int) -> int {
    nodes[i].children@[k] as int
}

/// Node `i` is linked consistently: its parent precedes it, and its children
/// follow it in increasing order and name it as their parent.
pub open spec fn node_wf(nodes: Seq<ComponentNode>, i: int) -> bool {
    &&& nodes[i].parent matches Some(p) ==> p < i
    &&& forall|k: int|
        0 <= k < nodes[i].children@.len() ==> i < #[trigger] child(nodes, i, k) < nodes.len()
            && nodes[child(nodes, i, k)].parent == Some(i as usize)
    &&& forall|k1: int, k2: int|
        0 <= k1 < k2 < nodes[i].children@.len() ==> #[trigger] child(nodes, i, k1) < #[trigger] child(
            nodes,
            i,
            k2,
        )
}

pub open spec fn nodes_wf(nodes: Seq<ComponentNode>) -> bool {
    forall|i: int| 0 <= i < nodes.len() ==> #[trigger] node_wf(nodes, i)
}

/// `j` lies in the subtree of `a`: following parent links from `j` reaches `a`.
pub open spec fn is_descendant(nodes: Seq<ComponentNode>, j: int, a: int) -> bool
    decreases j,
{
    if j == a {
        true
    } else if 0 <= j < nodes.len() {
        match nodes[j].parent {
            Some(p) => if 0 <= p < j {
                is_descendant(nodes, p as int, a)
            } else {
                false
            },
            None => false,
        }
    } else {
        false
    }
}

pub proof fn lemma_descendant_not_before(nodes: Seq<ComponentNode>, j: int, a: int)
    requires
        is_descendant(nodes, j, a),
    ensures
        j >= a,
    decreases j,
{
    if j != a {
        let p = nodes[j].parent.unwrap() as int;
        lemma_descendant_not_before(nodes, p, a);
    }
}

pub proof fn lemma_descendant_trans(nodes: Seq<ComponentNode>, j: int, c: int, a: int)
    requires
        is_descendant(nodes, j, c),
        is_descendant(nodes, c, a),
    ensures
        is_descendant(nodes, j, a),
    decreases j,
{
    if j != c {
        let p = nodes[j].parent.unwrap() as int;
        lemma_descendant_trans(nodes, p, c, a);
        lemma_descendant_not_before(nodes, p, a);
    }
}

/// Two ancestors of one node are ancestor and descendant of each other.
pub proof fn lemma_ancestors_ordered(nodes: Seq<ComponentNode>, j: int, x: int, y: int)
    requires
        is_descendant(nodes, j, x),
        is_descendant(nodes, j, y),
    ensures
        is_descendant(nodes, x, y) || is_descendant(nodes, y, x),
    decreases j,
{
    if j != x && j != y {
        let p = nodes[j].parent.unwrap() as int;
        lemma_ancestors_ordered(nodes, p, x, y);
    }
}

pub proof fn lemma_child_is_descendant(nodes: Seq<ComponentNode>, i: int, k: int)
    requires
        nodes_wf(nodes),
        0 <= i < nodes.len(),
        0 <= k < nodes[i].children@.len(),
    ensures
        is_descendant(nodes, child(nodes, i, k), i),
        child(nodes, i, k) > i,
{
    assert(node_wf(nodes, i));
    let c = child(nodes, i, k);
    assert(is_descendant(nodes, i, i));
}

/// The subtrees of two different children of a node share no node.
pub proof fn lemma_siblings_disjoint(nodes: Seq<ComponentNode>, i: int, k1: int, k2: int, j: int)
    requires
        nodes_wf(nodes),
        0 <= i < nodes.len(),
        0 <= k1 < nodes[i].children@.len(),
        0 <= k2 < nodes[i].children@.len(),
        k1 != k2,
    ensures
        !(is_descendant(nodes, j, child(nodes, i, k1)) && is_descendant(
            nodes,
            j,
            child(nodes, i, k2),
        )),
{
    assert(node_wf(nodes, i));
    let c1 = child(nodes, i, k1);
    let c2 = child(nodes, i, k2);
    assert(c1 != c2) by {
        if k1 < k2 {
            assert(c1 < c2);
        } else {
            assert(c2 < c1);
        }
    }
    if is_descendant(nodes, j, c1) && is_descendant(nodes, j, c2) {
        lemma_ancestors_ordered(nodes, j, c1, c2);
        if is_descendant(nodes, c1, c2) {
            // c1's parent is i, which precedes c2
            assert(nodes[c1].parent == Some(i as usize));
            lemma_descendant_not_before(nodes, i, c2);
        } else {
            assert(nodes[c2].parent == Some(i as usize));
            lemma_descendant_not_before(nodes, i, c1);
        }
    }
}

impl<D, H> ComponentTree<D, H> {
    /// The arena is consistent: one metadata entry, drawable slot and handler
    /// slot per node, every node linked consistently, and the composition
    /// stack naming existing nodes.
    pub open spec fn wf(&self) -> bool {
        &&& self.metadatas@.len() == self.nodes@.len()
        &&& self.drawables@.len() == self.nodes@.len()
        &&& self.handlers@.len() == self.nodes@.len()
        &&& nodes_wf(self.nodes@)
        &&& forall|k: int| 0 <= k < self.stack@.len() ==> #[trigger] self.stack@[k] < self.nodes@.len()
    }

    /// An empty arena.
    pub fn new() -> (r: Self)
        ensures
            r.wf(),
            r.nodes@.len() == 0,
            r.stack@.len() == 0,
    {
        ComponentTree {
            nodes: Vec::new(),
            metadatas: Vec::new(),
            drawables: Vec::new(),
            handlers: Vec::new(),
            stack: Vec::new(),
        }
    }

    /// The number of nodes.
    pub fn len(&self) -> (r: usize)
        ensures
            r == self.nodes@.len(),
    {
        self.nodes.len()
    }

    /// Creates a node under the node currently composing (the top of the
    /// stack), or as a root when none is, and makes it the one composing.
    /// Returns its identity.
    pub fn add_node(
        &mut self,
        constraint: Constraint,
        policy: MeasurePolicy,
        drawable: Option<D>,
        handler: Option<H>,
    ) -> (r: usize)
        requires
            old(self).wf(),
            old(self).nodes@.len() < usize::MAX,
        ensures
            final(self).wf(),
            r == old(self).nodes@.len(),
            final(self).nodes@.len() == r + 1,
            final(self).stack@ == old(self).stack@.push(r),
            final(self).nodes@[r as int].parent == (if old(self).stack@.len() == 0 {
                None
            } else {
                Some(old(self).stack@.last())
            }),
            final(self).nodes@[r as int].children@.len() == 0,
            final(self).nodes@[r as int].constraint == constraint,
            final(self).nodes@[r as int].policy == policy,
            final(self).drawables@ == old(self).drawables@.push(drawable),
            final(self).handlers@ == old(self).handlers@.push(handler),
            final(self).metadatas@ == old(self).metadatas@.push(
                ComponentNodeMetaData { computed_data: None, rel_position: None },
            ),
            old(self).stack@.len() > 0 ==> ({
                let p = old(self).stack@.last() as int;
                &&& final(self).nodes@[p].children@ == old(self).nodes@[p].children@.push(r)
                &&& forall|i: int|
                    0 <= i < r && i != p ==> #[trigger] final(self).nodes@[i] == old(self).nodes@[i]
            }),
            old(self).stack@.len() == 0 ==> forall|i: int|
                0 <= i < r ==> #[trigger] final(self).nodes@[i] == old(self).nodes@[i],
    {
        let id = self.nodes.len();
        let parent = if self.stack.len() == 0 {
            None
        } else {
            Some(self.stack[self.stack.len() - 1])
        };
        let ghost old_nodes = self.nodes@;
        if let Some(p) = parent {
            let mut kids = Vec::new();
            std::mem::swap(&mut kids, &mut self.nodes[p].children);
            kids.push(id);
            std::mem::swap(&mut kids, &mut self.nodes[p].children);
        }
        self.nodes.push(ComponentNode { parent, children: Vec::new(), constraint, policy });
        self.metadatas.push(ComponentNodeMetaData::empty());
        self.drawables.push(drawable);
        self.handlers.push(handler);
        self.stack.push(id);
        proof {
            let nodes = self.nodes@;
            assert forall|i: int| 0 <= i < nodes.len() implies #[trigger] node_wf(nodes, i) by {
                if i < id {
                    assert(node_wf(old_nodes, i));
                    if parent == Some(i as usize) {
                        assert forall|k: int| 0 <= k < nodes[i].children@.len() implies i < #[trigger] child(
                            nodes,
                            i,
                            k,
                        ) < nodes.len() && nodes[child(nodes, i, k)].parent == Some(
                            i as usize,
                        ) by {
                            if k < old_nodes[i].children@.len() {
                                assert(child(old_nodes, i, k) == child(nodes, i, k));
                            }
                        }
                        assert forall|k1: int, k2: int|
                            0 <= k1 < k2 < nodes[i].children@.len() implies #[trigger] child(
                                nodes,
                                i,
                                k1,
                            ) < #[trigger] child(nodes, i, k2) by {
                            assert(child(old_nodes, i, k1) == child(nodes, i, k1));
                            if k2 < old_nodes[i].children@.len() {
                                assert(child(old_nodes, i, k2) == child(nodes, i, k2));
                            }
                        }
                    } else {
                        assert forall|k: int| 0 <= k < nodes[i].children@.len() implies i < #[trigger] child(
                            nodes,
                            i,
                            k,
                        ) < nodes.len() && nodes[child(nodes, i, k)].parent == Some(
                            i as usize,
                        ) by {
                            assert(child(old_nodes, i, k) == child(nodes, i, k));
                        }
                        assert forall|k1: int, k2: int|
                            0 <= k1 < k2 < nodes[i].children@.len() implies #[trigger] child(
                                nodes,
                                i,
                                k1,
                            ) < #[trigger] child(nodes, i, k2) by {
                            assert(child(old_nodes, i, k1) == child(nodes, i, k1));
                            assert(child(old_nodes, i, k2) == child(nodes, i, k2));
                        }
                    }
                }
            }
        }
        id
    }

    /// Ends the composition of the node on top of the stack.
    pub fn pop_node(&mut self)
        requires
            old(self).wf(),
        ensures
            final(self).wf(),
            final(self).nodes@ == old(self).nodes@,
            final(self).metadatas@ == old(self).metadatas@,
            final(self).drawables@ == old(self).drawables@,
            final(self).handlers@ == old(self).handlers@,
            final(self).stack@ == if old(self).stack@.len() == 0 {
                old(self).stack@
            } else {
                old(self).stack@.drop_last()
            },
    {
        if self.stack.len() > 0 {
            self.stack.pop();
        }
    }

    /// Discards every node and all metadata, ending the frame.
    pub fn clear(&mut self)
        ensures
            final(self).wf(),
            final(self).nodes@.len() == 0,
            final(self).stack@.len() == 0,
    {
        self.nodes = Vec::new();
        self.metadatas = Vec::new();
        self.drawables = Vec::new();
        self.handlers = Vec::new();
        self.stack = Vec::new();
    }
}

} // verus!
