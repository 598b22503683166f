use vstd::prelude::*;

use crate::constraint::{Constraint, DimensionValue};
use crate::layout::{
    child_laid_out, child_offer, child_position, effective, failed_child, laid_out,
    lemma_laid_out_unfold, measure_ok, measured_count, node_size,
};
use crate::px::{saturate, Px, PxPosition, PxSize};
use crate::events::{CursorEvent, StateHandler, StateHandlerInput};
use crate::tree::{
    child, is_descendant, lemma_child_is_descendant, lemma_descendant_not_before,
    lemma_descendant_trans, lemma_siblings_disjoint, node_wf, nodes_wf, ComponentNode,
    ComponentNodeMetaData, ComponentTree, ComputedData, MeasurementError,
};

verus! {

/// One entry of the draw-command stream: a drawable with the absolute
/// position and the size of the node that carries it.
#[derive(Debug, Clone, PartialEq)]
pub struct DrawCommand<D> {
    pub position: PxPosition,
    pub size: ComputedData,
    pub drawable: D,
}

/// The absolute origin of a node placed at `rel` under a parent whose
/// origin is `origin`, saturating.
pub open spec fn shifted(origin: PxPosition, rel: PxPosition) -> PxPosition {
    PxPosition {
        x: Px(saturate(origin.x.0 + rel.x.0) as i32),
        y: Px(saturate(origin.y.0 + rel.y.0) as i32),
    }
}

/// The paint order of the subtree of `id` as the metadata records it: `id`
/// itself at `origin` when it was measured and carries a drawable, then the
/// subtrees of its placed children, in child order, each at its recorded
/// position. Entries are (absolute position, size, node).
pub open spec fn paint_order<D>(
    nodes: Seq<ComponentNode>,
    metas: Seq<ComponentNodeMetaData>,
    drawables: Seq<Option<D>>,
    id: int,
    origin: PxPosition,
) -> Seq<(PxPosition, ComputedData, usize)>
    decreases nodes.len() - id, nodes[id].children@.len() + 1,
{
    if 0 <= id < nodes.len() {
        let own = if drawables[id] is Some && metas[id].computed_data is Some {
            seq![(origin, metas[id].computed_data.unwrap(), id as usize)]
        } else {
            Seq::empty()
        };
        own + children_paint(
            nodes,
            metas,
            drawables,
            id,
            origin,
            nodes[id].children@.len() as int,
        )
    } else {
        Seq::empty()
    }
}

/// The paint order of the subtrees of the first `k` children of `id`.
pub open spec fn children_paint<D>(
    nodes: Seq<ComponentNode>,
    metas: Seq<ComponentNodeMetaData>,
    drawables: Seq<Option<D>>,
    id: int,
    origin: PxPosition,
    k: int,
) -> Seq<(PxPosition, ComputedData, usize)>
    decreases nodes.len() - id, k,
{
    if 0 <= id < nodes.len() && 0 < k <= nodes[id].children@.len() {
        let c = child(nodes, id, k - 1);
        children_paint(nodes, metas, drawables, id, origin, k - 1) + match metas[c].rel_position {
            Some(r) => if id < c < nodes.len() {
                paint_order(nodes, metas, drawables, c, shifted(origin, r))
            } else {
                Seq::empty()
            },
            None => Seq::empty(),
        }
    } else {
        Seq::empty()
    }
}

/// The paint order of the subtree of `id` measured under `offered` with its
/// origin at `origin`, from the tree alone: `id` when it carries a drawable,
/// then, in child order, the subtrees of the children its policy measures.
pub open spec fn frame_order<D>(
    nodes: Seq<ComponentNode>,
    drawables: Seq<Option<D>>,
    id: int,
    offered: Constraint,
    origin: PxPosition,
) -> Seq<(PxPosition, ComputedData, usize)>
    decreases nodes.len() - id, nodes[id].children@.len() + 1,
{
    if 0 <= id < nodes.len() {
        let own = if drawables[id] is Some {
            seq![(origin, node_size(nodes, id, offered), id as usize)]
        } else {
            Seq::empty()
        };
        own + frame_children(
            nodes,
            drawables,
            id,
            offered,
            origin,
            measured_count(nodes[id].policy, nodes[id].children@.len() as int),
        )
    } else {
        Seq::empty()
    }
}

/// The paint order of the subtrees of the first `k` children of `id`.
pub open spec fn frame_children<D>(
    nodes: Seq<ComponentNode>,
    drawables: Seq<Option<D>>,
    id: int,
    offered: Constraint,
    origin: PxPosition,
    k: int,
) -> Seq<(PxPosition, ComputedData, usize)>
    decreases nodes.len() - id, k,
{
    if 0 <= id < nodes.len() && 0 < k <= nodes[id].children@.len() {
        let c = child(nodes, id, k - 1);
        frame_children(nodes, drawables, id, offered, origin, k - 1) + if id < c < nodes.len() {
            frame_order(
                nodes,
                drawables,
                c,
                child_offer(nodes[id].policy, effective(nodes, id, offered)),
                shifted(origin, child_position(nodes, id, offered, k - 1)),
            )
        } else {
            Seq::empty()
        }
    } else {
        Seq::empty()
    }
}

/// What the root is offered: the screen, exactly.
pub open spec fn screen_constraint(screen: PxSize) -> Constraint {
    Constraint {
        width: DimensionValue::Fixed(screen.width),
        height: DimensionValue::Fixed(screen.height),
    }
}

pub open spec fn origin() -> PxPosition {
    PxPosition { x: Px(0), y: Px(0) }
}

/// The draw commands of a frame: the paint order of the tree rooted at node
/// zero under the screen, each entry with the drawable of its node.
pub open spec fn frame_commands<D>(
    nodes: Seq<ComponentNode>,
    drawables: Seq<Option<D>>,
    screen: PxSize,
) -> Seq<DrawCommand<D>> {
    if nodes.len() == 0 {
        Seq::empty()
    } else {
        frame_order(nodes, drawables, 0, screen_constraint(screen), origin()).map_values(
            |e: (PxPosition, ComputedData, usize)|
                DrawCommand { position: e.0, size: e.1, drawable: drawables[e.2 as int].unwrap() },
        )
    }
}

/// No node occurs twice in `s`.
pub open spec fn nodes_distinct(s: Seq<(PxPosition, ComputedData, usize)>) -> bool {
    forall|i: int, j: int| 0 <= i < j < s.len() ==> #[trigger] s[i].2 != #[trigger] s[j].2
}

/// Once the subtree of `id` is laid out, its recorded paint order is the one
/// the tree alone determines.
pub proof fn lemma_paint_matches_frame<D>(
    nodes: Seq<ComponentNode>,
    metas: Seq<ComponentNodeMetaData>,
    drawables: Seq<Option<D>>,
    id: int,
    offered: Constraint,
    origin: PxPosition,
)
    requires
        nodes_wf(nodes),
        metas.len() == nodes.len(),
        laid_out(nodes, metas, id, offered),
    ensures
        paint_order(nodes, metas, drawables, id, origin) == frame_order(
            nodes,
            drawables,
            id,
            offered,
            origin,
        ),
    decreases nodes.len() - id, nodes[id].children@.len() + 1,
{
    lemma_laid_out_unfold(nodes, metas, id, offered);
    let n = nodes[id].children@.len() as int;
    lemma_children_paint_matches(nodes, metas, drawables, id, offered, origin, n);
}

proof fn lemma_children_paint_matches<D>(
    nodes: Seq<ComponentNode>,
    metas: Seq<ComponentNodeMetaData>,
    drawables: Seq<Option<D>>,
    id: int,
    offered: Constraint,
    origin: PxPosition,
    k: int,
)
    requires
        nodes_wf(nodes),
        metas.len() == nodes.len(),
        laid_out(nodes, metas, id, offered),
        0 <= k <= nodes[id].children@.len(),
    ensures
        children_paint(nodes, metas, drawables, id, origin, k) == frame_children(
            nodes,
            drawables,
            id,
            offered,
            origin,
            if k < measured_count(nodes[id].policy, nodes[id].children@.len() as int) {
                k
            } else {
                measured_count(nodes[id].policy, nodes[id].children@.len() as int)
            },
        ),
    decreases nodes.len() - id, k,
{
    lemma_laid_out_unfold(nodes, metas, id, offered);
    let m = measured_count(nodes[id].policy, nodes[id].children@.len() as int);
    if k > 0 {
        lemma_children_paint_matches(nodes, metas, drawables, id, offered, origin, k - 1);
        assert(child_laid_out(nodes, metas, id, offered, k - 1));
        let c = child(nodes, id, k - 1);
        if k - 1 < m {
            let c_off = child_offer(nodes[id].policy, effective(nodes, id, offered));
            lemma_paint_matches_frame(
                nodes,
                metas,
                drawables,
                c,
                c_off,
                shifted(origin, child_position(nodes, id, offered, k - 1)),
            );
        } else {
            assert(children_paint(nodes, metas, drawables, id, origin, k) =~= children_paint(
                nodes,
                metas,
                drawables,
                id,
                origin,
                k - 1,
            ));
        }
    } else {
        assert(frame_children(nodes, drawables, id, offered, origin, 0) =~= Seq::<
            (PxPosition, ComputedData, usize),
        >::empty());
    }
}

/// Every node in the recorded paint order of `id` lies in its subtree, and
/// none occurs twice.
pub proof fn lemma_paint_nodes<D>(
    nodes: Seq<ComponentNode>,
    metas: Seq<ComponentNodeMetaData>,
    drawables: Seq<Option<D>>,
    id: int,
    origin: PxPosition,
)
    requires
        nodes_wf(nodes),
        0 <= id < nodes.len(),
        nodes.len() <= usize::MAX,
    ensures
        ({
            let s = paint_order(nodes, metas, drawables, id, origin);
            &&& forall|i: int|
                0 <= i < s.len() ==> is_descendant(nodes, #[trigger] s[i].2 as int, id) && s[i].2
                    < nodes.len() && drawables[s[i].2 as int] is Some
            &&& nodes_distinct(s)
        }),
    decreases nodes.len() - id, nodes[id].children@.len() + 1,
{
    let n = nodes[id].children@.len() as int;
    lemma_children_paint_nodes(nodes, metas, drawables, id, origin, n);
    let own = if drawables[id] is Some && metas[id].computed_data is Some {
        seq![(origin, metas[id].computed_data.unwrap(), id as usize)]
    } else {
        Seq::empty()
    };
    let rest = children_paint(nodes, metas, drawables, id, origin, n);
    let s = paint_order(nodes, metas, drawables, id, origin);
    assert(s == own + rest);
    assert(is_descendant(nodes, id, id));
    assert forall|i: int| 0 <= i < s.len() implies is_descendant(nodes, #[trigger] s[i].2 as int, id)
        && s[i].2 < nodes.len() && drawables[s[i].2 as int] is Some by {
        if i >= own.len() {
            assert(s[i] == rest[i - own.len()]);
            assert(is_descendant(nodes, rest[i - own.len()].2 as int, id));
            assert(drawables[rest[i - own.len()].2 as int] is Some);
        } else {
            assert(s[i] == own[i]);
        }
    }
    assert forall|i: int, j: int| 0 <= i < j < s.len() implies #[trigger] s[i].2 != #[trigger] s[j].2 by {
        if j >= own.len() {
            assert(s[j] == rest[j - own.len()]);
            assert(rest[j - own.len()].2 != id);
            if i >= own.len() {
                assert(s[i] == rest[i - own.len()]);
                assert(rest[i - own.len()].2 != rest[j - own.len()].2);
            } else {
                assert(s[i] == own[i]);
            }
        } else {
            assert(s[i] == own[i]);
            assert(s[j] == own[j]);
        }
    }
}

proof fn lemma_children_paint_nodes<D>(
    nodes: Seq<ComponentNode>,
    metas: Seq<ComponentNodeMetaData>,
    drawables: Seq<Option<D>>,
    id: int,
    origin: PxPosition,
    k: int,
)
    requires
        nodes_wf(nodes),
        0 <= id < nodes.len(),
        nodes.len() <= usize::MAX,
        0 <= k <= nodes[id].children@.len(),
    ensures
        ({
            let s = children_paint(nodes, metas, drawables, id, origin, k);
            &&& forall|i: int|
                0 <= i < s.len() ==> is_descendant(nodes, #[trigger] s[i].2 as int, id) && s[i].2
                    != id && s[i].2 < nodes.len() && drawables[s[i].2 as int] is Some
            &&& forall|i: int, j: int|
                0 <= i < s.len() && k <= j < nodes[id].children@.len() ==> !is_descendant(
                    nodes,
                    #[trigger] s[i].2 as int,
                    #[trigger] child(nodes, id, j),
                )
            &&& nodes_distinct(s)
        }),
    decreases nodes.len() - id, k,
{
    if k > 0 {
        lemma_children_paint_nodes(nodes, metas, drawables, id, origin, k - 1);
        let prev = children_paint(nodes, metas, drawables, id, origin, k - 1);
        let c = child(nodes, id, k - 1);
        lemma_child_is_descendant(nodes, id, k - 1);
        let tail = match metas[c].rel_position {
            Some(r) => if id < c < nodes.len() {
                paint_order(nodes, metas, drawables, c, shifted(origin, r))
            } else {
                Seq::empty()
            },
            None => Seq::empty(),
        };
        if tail.len() > 0 {
            let r = metas[c].rel_position.unwrap();
            lemma_paint_nodes(nodes, metas, drawables, c, shifted(origin, r));
        }
        let s = children_paint(nodes, metas, drawables, id, origin, k);
        assert(s == prev + tail);
        assert forall|i: int| 0 <= i < tail.len() implies is_descendant(
            nodes,
            #[trigger] tail[i].2 as int,
            id,
        ) && tail[i].2 != id && tail[i].2 < nodes.len() && is_descendant(nodes, tail[i].2 as int, c)
            && drawables[tail[i].2 as int] is Some by {
            lemma_descendant_trans(nodes, tail[i].2 as int, c, id);
            lemma_descendant_not_before(nodes, tail[i].2 as int, c);
        }
        assert forall|i: int| 0 <= i < s.len() implies is_descendant(nodes, #[trigger] s[i].2 as int, id)
            && s[i].2 != id && s[i].2 < nodes.len() && drawables[s[i].2 as int] is Some by {
            if i >= prev.len() {
                assert(s[i] == tail[i - prev.len()]);
            } else {
                assert(s[i] == prev[i]);
            }
        }
        assert forall|i: int, j: int|
            0 <= i < s.len() && k <= j < nodes[id].children@.len() implies !is_descendant(
                nodes,
                #[trigger] s[i].2 as int,
                #[trigger] child(nodes, id, j),
            ) by {
            if i >= prev.len() {
                assert(s[i] == tail[i - prev.len()]);
                lemma_siblings_disjoint(nodes, id, k - 1, j, s[i].2 as int);
            } else {
                assert(s[i] == prev[i]);
            }
        }
        assert forall|i: int, j: int| 0 <= i < j < s.len() implies #[trigger] s[i].2 != #[trigger] s[j].2 by {
            if j >= prev.len() {
                assert(s[j] == tail[j - prev.len()]);
                if i >= prev.len() {
                    assert(s[i] == tail[i - prev.len()]);
                } else {
                    assert(s[i] == prev[i]);
                    assert(!is_descendant(nodes, prev[i].2 as int, child(nodes, id, k - 1)));
                }
            } else {
                assert(s[i] == prev[i]);
                assert(s[j] == prev[j]);
            }
        }
    }
}

/// The nodes, in increasing order, among the first `k` whose handler slot
/// holds a handler.
pub open spec fn handler_nodes<H>(handlers: Seq<Option<H>>, k: int) -> Seq<usize>
    decreases k,
{
    if k <= 0 {
        Seq::empty()
    } else if handlers[k - 1] is Some {
        handler_nodes(handlers, k - 1).push((k - 1) as usize)
    } else {
        handler_nodes(handlers, k - 1)
    }
}

fn shift(origin: PxPosition, rel: PxPosition) -> (r: PxPosition)
    ensures
        r == shifted(origin, rel),
{
    origin.saturating_offset(rel.x, rel.y)
}

impl<D, H> ComponentTree<D, H> {
    /// Appends to `out` the recorded paint order of the subtree of `id`
    /// with its origin at `origin`.
    fn collect_paint_order(
        &self,
        id: usize,
        origin: PxPosition,
        out: &mut Vec<(PxPosition, ComputedData, usize)>,
    )
        requires
            self.wf(),
            id < self.nodes@.len(),
        ensures
            final(out)@ == old(out)@ + paint_order(
                self.nodes@,
                self.metadatas@,
                self.drawables@,
                id as int,
                origin,
            ),
        decreases self.nodes@.len() - id,
    {
        let ghost start = out@;
        let ghost nodes = self.nodes@;
        let ghost own = if self.drawables@[id as int] is Some
            && self.metadatas@[id as int].computed_data is Some {
            seq![(origin, self.metadatas@[id as int].computed_data.unwrap(), id)]
        } else {
            Seq::empty()
        };
        if self.drawables[id].is_some() {
            if let Some(size) = self.metadatas[id].computed_data {
                out.push((origin, size, id));
            }
        }
        proof {
            assert(out@ == start + own);
            assert(children_paint(nodes, self.metadatas@, self.drawables@, id as int, origin, 0)
                =~= Seq::<(PxPosition, ComputedData, usize)>::empty());
            assert(node_wf(nodes, id as int));
        }
        let n = self.nodes[id].children.len();
        let mut k: usize = 0;
        while k < n
            invariant
                self.wf(),
                nodes == self.nodes@,
                id < nodes.len(),
                node_wf(nodes, id as int),
                n == nodes[id as int].children@.len(),
                k <= n,
                out@ == start + own + children_paint(
                    nodes,
                    self.metadatas@,
                    self.drawables@,
                    id as int,
                    origin,
                    k as int,
                ),
            decreases n - k,
        {
            let c = self.nodes[id].children[k];
            proof {
                assert(c as int == child(nodes, id as int, k as int));
            }
            let ghost before_child = out@;
            if let Some(r) = self.metadatas[c].rel_position {
                if id < c {
                    self.collect_paint_order(c, shift(origin, r), out);
                }
            }
            proof {
                assert(out@ =~= start + own + children_paint(
                    nodes,
                    self.metadatas@,
                    self.drawables@,
                    id as int,
                    origin,
                    k + 1,
                ));
            }
            k += 1;
        }
        proof {
            assert(out@ =~= start + paint_order(
                nodes,
                self.metadatas@,
                self.drawables@,
                id as int,
                origin,
            ));
        }
    }

    /// Delivers the frame's input to every node that registered a state
    /// handler, once each, in node order; returns those nodes.
    pub fn dispatch<K>(&self, input: &StateHandlerInput<K>) -> (r: Vec<usize>) where
        H: StateHandler<K>,

        requires
            self.wf(),
        ensures
            r@ == handler_nodes(self.handlers@, self.handlers@.len() as int),
    {
        let mut delivered: Vec<usize> = Vec::new();
        let mut i: usize = 0;
        while i < self.handlers.len()
            invariant
                i <= self.handlers@.len(),
                delivered@ == handler_nodes(self.handlers@, i as int),
            decreases self.handlers@.len() - i,
        {
            match &self.handlers[i] {
                Some(h) => {
                    h.handle(i, input);
                    delivered.push(i);
                },
                None => {},
            }
            i += 1;
        }
        delivered
    }

    /// Measures node `id` under the constraint `offered` its parent offers:
    /// merges it with the node's own constraint, lays out the subtree and
    /// records sizes and child positions in the metadata. Fails when `id`
    /// names no node (changing nothing), when a toggle in the subtree has no
    /// thumb, or, naming the child, when a child's subtree fails.
    pub fn measure_node(&mut self, id: usize, offered: &Constraint) -> (r: Result<
        ComputedData,
        MeasurementError,
    >)
        requires
            old(self).wf(),
        ensures
            id < old(self).nodes@.len() ==> final(self).measure_result(
                *old(self),
                id as int,
                *offered,
                r,
            ),
            id >= old(self).nodes@.len() ==> (r matches Err(MeasurementError::MeasureFnFailed(_)))
                && final(self).metadatas@ == old(self).metadatas@ && final(self).nodes@ == old(
                self,
            ).nodes@,
    {
        if id < self.nodes.len() {
            self.measure_at(id, offered)
        } else {
            Err(MeasurementError::MeasureFnFailed("no such node".to_owned()))
        }
    }

    /// Records that `parent` places its child `child` at `position`,
    /// relative to the parent's content origin; the last placement of a
    /// child wins. Fails, changing nothing, when `child` is not a child of
    /// `parent`.
    pub fn place_node(&mut self, parent: usize, child: usize, position: PxPosition) -> (r: Result<
        (),
        MeasurementError,
    >)
        requires
            old(self).wf(),
        ensures
            final(self).wf(),
            final(self).nodes@ == old(self).nodes@,
            final(self).drawables@ == old(self).drawables@,
            r is Ok <==> parent < old(self).nodes@.len() && old(self).nodes@[parent as int].children@.contains(
                child,
            ),
            r is Ok ==> final(self).metadatas@ == old(self).metadatas@.update(
                child as int,
                ComponentNodeMetaData {
                    computed_data: old(self).metadatas@[child as int].computed_data,
                    rel_position: Some(position),
                },
            ),
            r is Err ==> (r matches Err(MeasurementError::MeasureFnFailed(_))) && final(self).metadatas@
                == old(self).metadatas@,
    {
        if parent >= self.nodes.len() {
            return Err(MeasurementError::MeasureFnFailed("no such parent".to_owned()));
        }
        let n = self.nodes[parent].children.len();
        let mut k: usize = 0;
        while k < n
            invariant
                self.wf(),
                self.nodes@ == old(self).nodes@,
                self.drawables@ == old(self).drawables@,
                self.metadatas@ == old(self).metadatas@,
                parent < self.nodes@.len(),
                n == self.nodes@[parent as int].children@.len(),
                k <= n,
                forall|i: int| 0 <= i < k ==> self.nodes@[parent as int].children@[i] != child,
            decreases n - k,
        {
            if self.nodes[parent].children[k] == child {
                proof {
                    assert(node_wf(self.nodes@, parent as int));
                    assert(child as int == crate::tree::child(self.nodes@, parent as int, k as int));
                }
                let mut m = self.metadatas[child];
                m.rel_position = Some(position);
                self.metadatas.set(child, m);
                return Ok(());
            }
            k += 1;
        }
        Err(MeasurementError::MeasureFnFailed("not a child of this parent".to_owned()))
    }

    /// Runs one frame over the composed tree: delivers the input to the
    /// state handlers, measures the tree from node zero under the screen,
    /// and returns the draw commands in paint order, each drawable handed
    /// over with the absolute position and size of its node. The result
    /// depends on the nodes, their drawables and the screen alone. When the
    /// measurement fails the frame yields no commands, only the failure.
    pub fn compute<K>(
        &mut self,
        screen_size: PxSize,
        cursor_position: Option<PxPosition>,
        cursor_events: Vec<CursorEvent>,
        keyboard_events: Vec<K>,
    ) -> (r: Result<Vec<DrawCommand<D>>, MeasurementError>) where H: StateHandler<K>
        requires
            old(self).wf(),
        ensures
            final(self).wf(),
            final(self).nodes@ == old(self).nodes@,
            r is Ok <==> (old(self).nodes@.len() == 0 || measure_ok(
                old(self).nodes@,
                0,
                screen_constraint(screen_size),
            )),
            r matches Ok(commands) ==> commands@ == frame_commands(
                old(self).nodes@,
                old(self).drawables@,
                screen_size,
            ),
            r matches Err(MeasurementError::ChildMeasurementFailed(c)) ==> failed_child(
                old(self).nodes@,
                0,
                screen_constraint(screen_size),
                c as int,
            ),
    {
        let input = StateHandlerInput { cursor_position, cursor_events, keyboard_events };
        let _ = self.dispatch(&input);
        if self.nodes.len() == 0 {
            return Ok(Vec::new());
        }
        let ghost before = *self;
        let root = Constraint::new(
            DimensionValue::Fixed(screen_size.width),
            DimensionValue::Fixed(screen_size.height),
        );
        if let Err(e) = self.measure_at(0, &root) {
            return Err(e);
        }
        let mut order: Vec<(PxPosition, ComputedData, usize)> = Vec::new();
        self.collect_paint_order(0, PxPosition::new(Px(0), Px(0)), &mut order);
        let ghost nodes = self.nodes@;
        let ghost drawables = self.drawables@;
        proof {
            assert(order@ =~= paint_order(nodes, self.metadatas@, drawables, 0, origin()));
            lemma_paint_matches_frame(nodes, self.metadatas@, drawables, 0, root, origin());
            lemma_paint_nodes(nodes, self.metadatas@, drawables, 0, origin());
        }
        let ghost expected = frame_commands(nodes, drawables, screen_size);
        let mut slots: Vec<Option<D>> = Vec::new();
        std::mem::swap(&mut slots, &mut self.drawables);
        let mut out: Vec<DrawCommand<D>> = Vec::new();
        let mut i: usize = 0;
        while i < order.len()
            invariant
                i <= order@.len(),
                slots@.len() == drawables.len(),
                order@ == frame_order(nodes, drawables, 0, root, origin()),
                nodes_distinct(order@),
                forall|t: int| 0 <= t < order@.len() ==> (#[trigger] order@[t]).2 < drawables.len(),
                forall|t: int|
                    i <= t < order@.len() ==> slots@[(#[trigger] order@[t]).2 as int]
                        == drawables[order@[t].2 as int],
                forall|t: int| 0 <= t < order@.len() ==> drawables[(#[trigger] order@[t]).2 as int] is Some,
                expected == order@.map_values(
                    |e: (PxPosition, ComputedData, usize)|
                        DrawCommand { position: e.0, size: e.1, drawable: drawables[e.2 as int].unwrap() },
                ),
                out@ == expected.subrange(0, i as int),
            decreases order@.len() - i,
        {
            let (pos, size, id) = order[i];
            let mut taken: Option<D> = None;
            std::mem::swap(&mut taken, &mut slots[id]);
            proof {
                assert(taken == drawables[id as int]);
                assert forall|t: int| i + 1 <= t < order@.len() implies slots@[(#[trigger] order@[t]).2 as int]
                    == drawables[order@[t].2 as int] by {
                    assert(order@[t].2 != order@[i as int].2);
                }
            }
            match taken {
                Some(d) => {
                    out.push(DrawCommand { position: pos, size, drawable: d });
                },
                None => {},
            }
            proof {
                assert(out@ =~= expected.subrange(0, i + 1));
            }
            i += 1;
        }
        std::mem::swap(&mut slots, &mut self.drawables);
        proof {
            assert(out@ =~= expected);
        }
        Ok(out)
    }
}

/// Running a frame twice over trees composed alike, with the same screen,
/// yields the same draw commands: neither the metadata left by an earlier
/// measurement, nor the handlers, nor the input enter the result.
pub proof fn lemma_compute_reproducible<D, H>(
    a: ComponentTree<D, H>,
    b: ComponentTree<D, H>,
    screen: PxSize,
)
    requires
        a.nodes@ == b.nodes@,
        a.drawables@ == b.drawables@,
    ensures
        frame_commands(a.nodes@, a.drawables@, screen) == frame_commands(
            b.nodes@,
            b.drawables@,
            screen,
        ),
{
}

} // verus!
