use vstd::prelude::*;

use crate::constraint::Constraint;
use crate::layout::{
    child_laid_out, child_offer, child_sizes, children_ok, cross_len, cross_length, cross_offset,
    cross_start, effective, failed_child, free_space, laid_out, lemma_children_ok_each,
    lemma_laid_out_unfold, lemma_totals_non_negative, linear_child_constraint, linear_extent,
    linear_layout_size, linear_position, main_length, main_offset, measure_ok, measured_count,
    node_size, outset_length, padded_child_constraint, place_thumb, resolve_dimension,
    saturating_i64, sizes_non_negative, spacing, unbounded,
};
use crate::px::{Px, PxPosition, PxSize};
use crate::tree::{
    child, is_descendant, lemma_child_is_descendant, lemma_descendant_not_before,
    lemma_descendant_trans, lemma_siblings_disjoint, node_wf, nodes_wf, ComponentNode,
    ComponentNodeMetaData, ComponentTree, ComputedData, CrossAxisAlignment, MainAxisAlignment,
    MeasurePolicy, MeasurementError,
};

verus! {

/// `laid_out` of a subtree reads only the sizes recorded in the subtree and
/// the positions of the nodes strictly below its root.
pub proof fn lemma_laid_out_frame(
    nodes: Seq<ComponentNode>,
    m1: Seq<ComponentNodeMetaData>,
    m2: Seq<ComponentNodeMetaData>,
    id: int,
    offered: Constraint,
)
    requires
        nodes_wf(nodes),
        m1.len() == nodes.len(),
        m2.len() == nodes.len(),
        laid_out(nodes, m1, id, offered),
        forall|j: int|
            0 <= j < nodes.len() && #[trigger] is_descendant(nodes, j, id) ==> m2[j].computed_data
                == m1[j].computed_data && (j != id ==> m2[j].rel_position == m1[j].rel_position),
    ensures
        laid_out(nodes, m2, id, offered),
    decreases nodes.len() - id,
{
    assert(0 <= id < nodes.len());
    assert(is_descendant(nodes, id, id));
    lemma_laid_out_unfold(nodes, m1, id, offered);
    lemma_laid_out_unfold(nodes, m2, id, offered);
    assert forall|k: int| 0 <= k < nodes[id].children@.len() implies #[trigger] child_laid_out(
        nodes,
        m2,
        id,
        offered,
        k,
    ) by {
        assert(child_laid_out(nodes, m1, id, offered, k));
        lemma_child_is_descendant(nodes, id, k);
        let c = child(nodes, id, k);
        let pol = nodes[id].policy;
        if k < measured_count(pol, nodes[id].children@.len() as int) {
            let c_off = child_offer(pol, effective(nodes, id, offered));
            assert forall|j: int|
                0 <= j < nodes.len() && #[trigger] is_descendant(nodes, j, c) implies m2[j].computed_data
                == m1[j].computed_data && (j != c ==> m2[j].rel_position == m1[j].rel_position) by {
                lemma_descendant_trans(nodes, j, c, id);
                lemma_descendant_not_before(nodes, j, c);
            }
            lemma_laid_out_frame(nodes, m1, m2, c, c_off);
        }
    }
}

/// Rewriting the entry of a node outside a laid-out subtree, or only the
/// position of its root, keeps the subtree laid out.
pub proof fn lemma_update_keeps_laid_out(
    nodes: Seq<ComponentNode>,
    m: Seq<ComponentNodeMetaData>,
    x: int,
    offered: Constraint,
    j: int,
    e: ComponentNodeMetaData,
)
    requires
        nodes_wf(nodes),
        m.len() == nodes.len(),
        laid_out(nodes, m, x, offered),
        0 <= j < nodes.len(),
        !is_descendant(nodes, j, x) || (j == x && e.computed_data == m[x].computed_data),
    ensures
        laid_out(nodes, m.update(j, e), x, offered),
{
    let m2 = m.update(j, e);
    assert forall|jj: int|
        0 <= jj < nodes.len() && #[trigger] is_descendant(nodes, jj, x) implies m2[jj].computed_data
        == m[jj].computed_data && (jj != x ==> m2[jj].rel_position == m[jj].rel_position) by {
        if jj == j {
        }
    }
    lemma_laid_out_frame(nodes, m, m2, x, offered);
}

/// A node strictly below a child of `id` is strictly below `id`.
proof fn lemma_below_child(nodes: Seq<ComponentNode>, id: int, k: int, j: int)
    requires
        nodes_wf(nodes),
        0 <= id < nodes.len(),
        0 <= k < nodes[id].children@.len(),
        is_descendant(nodes, j, child(nodes, id, k)),
    ensures
        is_descendant(nodes, j, id),
        j != id,
{
    lemma_child_is_descendant(nodes, id, k);
    lemma_descendant_trans(nodes, j, child(nodes, id, k), id);
    lemma_descendant_not_before(nodes, j, child(nodes, id, k));
}

impl<D, H> ComponentTree<D, H> {
    /// `self` is `before` after measuring `id` under `offered`: only the
    /// metadata changed, the subtree of `id` is laid out, nothing outside it
    /// changed, and neither did the position of `id` itself.
    pub open spec fn measured_from(self, before: Self, id: int, offered: Constraint) -> bool {
        &&& self.wf()
        &&& self.nodes@ == before.nodes@
        &&& self.drawables@ == before.drawables@
        &&& self.handlers@ == before.handlers@
        &&& self.stack@ == before.stack@
        &&& laid_out(self.nodes@, self.metadatas@, id, offered)
        &&& forall|j: int|
            0 <= j < self.nodes@.len() && !is_descendant(self.nodes@, j, id)
                ==> #[trigger] self.metadatas@[j] == before.metadatas@[j]
        &&& self.metadatas@[id].rel_position == before.metadatas@[id].rel_position
    }

    /// `self` is `before` after measuring `id` under `offered` with result
    /// `r`: only metadata changed; success exactly when `measure_ok`, with the
    /// size and layout the tree determines; a failing child is named.
    pub open spec fn measure_result(
        self,
        before: Self,
        id: int,
        offered: Constraint,
        r: Result<ComputedData, MeasurementError>,
    ) -> bool {
        &&& self.wf()
        &&& self.nodes@ == before.nodes@
        &&& self.drawables@ == before.drawables@
        &&& self.handlers@ == before.handlers@
        &&& self.stack@ == before.stack@
        &&& (r is Ok <==> measure_ok(before.nodes@, id, offered))
        &&& (r matches Ok(s) ==> s == node_size(before.nodes@, id, offered) && s.width.0 >= 0
            && s.height.0 >= 0 && self.measured_from(before, id, offered))
        &&& (r matches Err(MeasurementError::ChildMeasurementFailed(c)) ==> failed_child(
            before.nodes@,
            id,
            offered,
            c as int,
        ))
    }

    /// Only metadata strictly below `id` differs from `before`'s.
    pub open spec fn changed_below(self, before: Self, id: int) -> bool {
        &&& self.wf()
        &&& self.nodes@ == before.nodes@
        &&& self.drawables@ == before.drawables@
        &&& self.handlers@ == before.handlers@
        &&& self.stack@ == before.stack@
        &&& forall|j: int|
            0 <= j < self.nodes@.len() && !(is_descendant(self.nodes@, j, id) && j != id)
                ==> #[trigger] self.metadatas@[j] == before.metadatas@[j]
    }

    fn set_rel_position(&mut self, c: usize, pos: Option<PxPosition>)
        requires
            old(self).wf(),
            c < old(self).nodes@.len(),
        ensures
            final(self).wf(),
            final(self).nodes@ == old(self).nodes@,
            final(self).drawables@ == old(self).drawables@,
            final(self).handlers@ == old(self).handlers@,
            final(self).stack@ == old(self).stack@,
            final(self).metadatas@ == old(self).metadatas@.update(
                c as int,
                ComponentNodeMetaData {
                    computed_data: old(self).metadatas@[c as int].computed_data,
                    rel_position: pos,
                },
            ),
    {
        let mut m = self.metadatas[c];
        m.rel_position = pos;
        self.metadatas.set(c, m);
    }

    fn set_computed(&mut self, c: usize, size: ComputedData)
        requires
            old(self).wf(),
            c < old(self).nodes@.len(),
        ensures
            final(self).wf(),
            final(self).nodes@ == old(self).nodes@,
            final(self).drawables@ == old(self).drawables@,
            final(self).handlers@ == old(self).handlers@,
            final(self).stack@ == old(self).stack@,
            final(self).metadatas@ == old(self).metadatas@.update(
                c as int,
                ComponentNodeMetaData {
                    computed_data: Some(size),
                    rel_position: old(self).metadatas@[c as int].rel_position,
                },
            ),
    {
        let mut m = self.metadatas[c];
        m.computed_data = Some(size);
        self.metadatas.set(c, m);
    }

    /// Marks the children of `id` from the `start`-th on as unplaced.
    fn unplace_children(&mut self, id: usize, start: usize)
        requires
            old(self).wf(),
            id < old(self).nodes@.len(),
            start <= old(self).nodes@[id as int].children@.len(),
        ensures
            final(self).changed_below(*old(self), id as int),
            forall|k: int|
                start <= k < final(self).nodes@[id as int].children@.len()
                    ==> final(self).metadatas@[#[trigger] child(final(self).nodes@, id as int, k)].rel_position is None,
            forall|k: int|
                0 <= k < start ==> final(self).metadatas@[#[trigger] child(
                    final(self).nodes@,
                    id as int,
                    k,
                )] == old(self).metadatas@[child(final(self).nodes@, id as int, k)],
            forall|k: int, c_off: Constraint|
                0 <= k < start && #[trigger] laid_out(
                    old(self).nodes@,
                    old(self).metadatas@,
                    child(old(self).nodes@, id as int, k),
                    c_off,
                ) ==> laid_out(
                    final(self).nodes@,
                    final(self).metadatas@,
                    child(old(self).nodes@, id as int, k),
                    c_off,
                ),
    {
        let ghost before = *self;
        let ghost nodes = self.nodes@;
        let n = self.nodes[id].children.len();
        let mut k: usize = start;
        proof {
            assert(node_wf(nodes, id as int));
        }
        while k < n
            invariant
                self.changed_below(before, id as int),
                self.nodes@ == nodes,
                nodes_wf(nodes),
                id < nodes.len(),
                n == nodes[id as int].children@.len(),
                start <= k <= n,
                forall|i: int|
                    start <= i < k ==> self.metadatas@[#[trigger] child(nodes, id as int, i)].rel_position is None,
                forall|i: int|
                    0 <= i < start ==> self.metadatas@[#[trigger] child(nodes, id as int, i)]
                        == before.metadatas@[child(nodes, id as int, i)],
                forall|i: int, c_off: Constraint|
                    0 <= i < start && #[trigger] laid_out(
                        nodes,
                        before.metadatas@,
                        child(nodes, id as int, i),
                        c_off,
                    ) ==> laid_out(nodes, self.metadatas@, child(nodes, id as int, i), c_off),
            decreases n - k,
        {
            let c = self.nodes[id].children[k];
            let ghost m_prev = self.metadatas@;
            proof {
                assert(node_wf(nodes, id as int));
                assert(c as int == child(nodes, id as int, k as int));
                lemma_child_is_descendant(nodes, id as int, k as int);
            }
            self.set_rel_position(c, None);
            proof {
                assert forall|j: int|
                    0 <= j < nodes.len() && !(is_descendant(nodes, j, id as int) && j != id)
                        implies #[trigger] self.metadatas@[j] == before.metadatas@[j] by {
                    if j == c {
                        lemma_descendant_not_before(nodes, id as int, c as int);
                    }
                }
                assert forall|i: int| start <= i < k + 1 implies self.metadatas@[#[trigger] child(
                    nodes,
                    id as int,
                    i,
                )].rel_position is None by {
                    if i < k {
                        assert(child(nodes, id as int, i) < child(nodes, id as int, k as int));
                    }
                }
                assert forall|i: int| 0 <= i < start implies self.metadatas@[#[trigger] child(
                    nodes,
                    id as int,
                    i,
                )] == before.metadatas@[child(nodes, id as int, i)] by {
                    assert(child(nodes, id as int, i) < child(nodes, id as int, k as int));
                }
                assert forall|i: int, c_off: Constraint|
                    0 <= i < start && #[trigger] laid_out(
                        nodes,
                        before.metadatas@,
                        child(nodes, id as int, i),
                        c_off,
                    ) implies laid_out(nodes, self.metadatas@, child(nodes, id as int, i), c_off) by {
                    lemma_siblings_disjoint(nodes, id as int, i, k as int, c as int);
                    assert(is_descendant(nodes, c as int, c as int));
                    lemma_update_keeps_laid_out(
                        nodes,
                        m_prev,
                        child(nodes, id as int, i),
                        c_off,
                        c as int,
                        self.metadatas@[c as int],
                    );
                    assert(m_prev.update(c as int, self.metadatas@[c as int]) == self.metadatas@);
                }
            }
            k += 1;
        }
    }

    fn measure_leaf(&mut self, id: usize, offered: &Constraint, content: PxSize) -> (r: Result<ComputedData, MeasurementError>)
        requires
            old(self).wf(),
            id < old(self).nodes@.len(),
            old(self).nodes@[id as int].policy == (MeasurePolicy::Leaf { content }),
        ensures
            final(self).measure_result(*old(self), id as int, *offered, r),
    {
        let ghost before = *self;
        let ghost nodes = self.nodes@;
        let eff = self.nodes[id].constraint.merge(offered);
        self.unplace_children(id, 0);
        let size = ComputedData {
            width: resolve_dimension(eff.width, content.width),
            height: resolve_dimension(eff.height, content.height),
        };
        let ghost m_prev = self.metadatas@;
        self.set_computed(id, size);
        proof {
            assert(node_wf(nodes, id as int));
            assert(child_sizes(nodes, id as int, child_offer(nodes[id as int].policy, eff), 0)
                =~= Seq::<ComputedData>::empty());
            assert forall|k: int| 0 <= k < nodes[id as int].children@.len() implies #[trigger] child_laid_out(
                nodes,
                self.metadatas@,
                id as int,
                *offered,
                k,
            ) by {
                assert(child(nodes, id as int, k) > id);
                assert(m_prev[child(nodes, id as int, k)].rel_position is None);
            }
            assert(is_descendant(nodes, id as int, id as int));
        }
        Ok(size)
    }

    /// Measures node `id` under `offered` by its policy, recursively
    /// measuring and placing the children the policy needs.
    pub(crate) fn measure_at(&mut self, id: usize, offered: &Constraint) -> (r: Result<ComputedData, MeasurementError>)
        requires
            old(self).wf(),
            id < old(self).nodes@.len(),
        ensures
            final(self).measure_result(*old(self), id as int, *offered, r),
        decreases old(self).nodes@.len() - id, 1int,
    {
        match self.nodes[id].policy {
            MeasurePolicy::Leaf { content } => self.measure_leaf(id, offered, content),
            MeasurePolicy::Surface { padding } => self.measure_surface(id, offered, padding),
            MeasurePolicy::Row { main_axis_alignment, cross_axis_alignment } => self.measure_linear(
                id,
                offered,
                true,
                main_axis_alignment,
                cross_axis_alignment,
            ),
            MeasurePolicy::Column { main_axis_alignment, cross_axis_alignment } => self.measure_linear(
                id,
                offered,
                false,
                main_axis_alignment,
                cross_axis_alignment,
            ),
            MeasurePolicy::Toggle { width, height, thumb_padding, progress_permille } => self.measure_toggle(
                id,
                offered,
                width,
                height,
                thumb_padding,
                progress_permille,
            ),
        }
    }

    fn measure_surface(&mut self, id: usize, offered: &Constraint, padding: Px) -> (r: Result<ComputedData, MeasurementError>)
        requires
            old(self).wf(),
            id < old(self).nodes@.len(),
            old(self).nodes@[id as int].policy == (MeasurePolicy::Surface { padding }),
        ensures
            final(self).measure_result(*old(self), id as int, *offered, r),
        decreases old(self).nodes@.len() - id, 0int,
    {
        let ghost before = *self;
        let ghost nodes = self.nodes@;
        let eff = self.nodes[id].constraint.merge(offered);
        let c_off = padded_child_constraint(&eff, padding);
        let n = self.nodes[id].children.len();
        let mut inner = ComputedData::zero();
        proof {
            assert(node_wf(nodes, id as int));
        }
        if n > 0 {
            let c = self.nodes[id].children[0];
            proof {
                assert(c as int == child(nodes, id as int, 0));
                lemma_child_is_descendant(nodes, id as int, 0);
            }
            inner = match self.measure_at(c, &c_off) {
                Ok(size) => size,
                Err(_) => {
                    proof {
                        assert(child(nodes, id as int, 0) == c);
                    }
                    return Err(MeasurementError::ChildMeasurementFailed(c));
                },
            };
            let ghost m_mid = self.metadatas@;
            self.set_rel_position(c, Some(PxPosition::new(padding, padding)));
            proof {
                lemma_update_keeps_laid_out(
                    nodes,
                    m_mid,
                    c as int,
                    c_off,
                    c as int,
                    self.metadatas@[c as int],
                );
                assert(m_mid.update(c as int, self.metadatas@[c as int]) == self.metadatas@);
                assert forall|j: int|
                    0 <= j < nodes.len() && !(is_descendant(nodes, j, id as int) && j != id)
                        implies #[trigger] self.metadatas@[j] == before.metadatas@[j] by {
                    if is_descendant(nodes, j, c as int) {
                        lemma_below_child(nodes, id as int, 0, j);
                    }
                }
                assert(children_ok(nodes, id as int, c_off, 0));
                assert(children_ok(nodes, id as int, c_off, 1));
                assert(child_sizes(nodes, id as int, c_off, 0) =~= Seq::<ComputedData>::empty());
                assert(child_sizes(nodes, id as int, c_off, 1) =~= seq![inner]);
            }
        } else {
            proof {
                assert(children_ok(nodes, id as int, c_off, 0));
                assert(child_sizes(nodes, id as int, c_off, 0) =~= Seq::<ComputedData>::empty());
            }
        }
        let ghost m_placed = self.metadatas@;
        let start: usize = if n > 0 {
            1
        } else {
            0
        };
        self.unplace_children(id, start);
        let size = ComputedData {
            width: resolve_dimension(eff.width, outset_length(inner.width, padding)),
            height: resolve_dimension(eff.height, outset_length(inner.height, padding)),
        };
        let ghost m_prev = self.metadatas@;
        self.set_computed(id, size);
        proof {
            lemma_laid_out_unfold(nodes, self.metadatas@, id as int, *offered);
            assert forall|k: int| 0 <= k < nodes[id as int].children@.len() implies #[trigger] child_laid_out(
                nodes,
                self.metadatas@,
                id as int,
                *offered,
                k,
            ) by {
                let c = child(nodes, id as int, k);
                assert(c > id);
                if k == 0 {
                    assert(m_prev[c] == m_placed[c]);
                    if is_descendant(nodes, id as int, c) {
                        lemma_descendant_not_before(nodes, id as int, c);
                    }
                    lemma_update_keeps_laid_out(nodes, m_prev, c, c_off, id as int, self.metadatas@[id as int]);
                    assert(m_prev.update(id as int, self.metadatas@[id as int]) == self.metadatas@);
                }
            }
            assert(is_descendant(nodes, id as int, id as int));
        }
        Ok(size)
    }

    fn measure_toggle(
        &mut self,
        id: usize,
        offered: &Constraint,
        width: Px,
        height: Px,
        thumb_padding: Px,
        progress: u32,
    ) -> (r: Result<ComputedData, MeasurementError>)
        requires
            old(self).wf(),
            id < old(self).nodes@.len(),
            old(self).nodes@[id as int].policy == (MeasurePolicy::Toggle {
                width,
                height,
                thumb_padding,
                progress_permille: progress,
            }),
        ensures
            final(self).measure_result(*old(self), id as int, *offered, r),
        decreases old(self).nodes@.len() - id, 0int,
    {
        let ghost before = *self;
        let ghost nodes = self.nodes@;
        let c_off = Constraint::none();
        proof {
            assert(c_off == unbounded());
            assert(node_wf(nodes, id as int));
        }
        let n = self.nodes[id].children.len();
        if n == 0 {
            return Err(MeasurementError::MeasureFnFailed("a toggle needs a thumb child".to_owned()));
        }
        let ghost m_placed = self.metadatas@;
        if n > 0 {
            let c = self.nodes[id].children[0];
            proof {
                assert(c as int == child(nodes, id as int, 0));
                lemma_child_is_descendant(nodes, id as int, 0);
            }
            let thumb = match self.measure_at(c, &c_off) {
                Ok(size) => size,
                Err(_) => {
                    proof {
                        assert(child(nodes, id as int, 0) == c);
                    }
                    return Err(MeasurementError::ChildMeasurementFailed(c));
                },
            };
            let ghost m_mid = self.metadatas@;
            self.set_rel_position(c, Some(place_thumb(width, height, thumb_padding, progress, thumb)));
            proof {
                lemma_update_keeps_laid_out(
                    nodes,
                    m_mid,
                    c as int,
                    c_off,
                    c as int,
                    self.metadatas@[c as int],
                );
                assert(m_mid.update(c as int, self.metadatas@[c as int]) == self.metadatas@);
                assert forall|j: int|
                    0 <= j < nodes.len() && !(is_descendant(nodes, j, id as int) && j != id)
                        implies #[trigger] self.metadatas@[j] == before.metadatas@[j] by {
                    if is_descendant(nodes, j, c as int) {
                        lemma_below_child(nodes, id as int, 0, j);
                    }
                }
                assert(children_ok(nodes, id as int, c_off, 0));
                assert(children_ok(nodes, id as int, c_off, 1));
                assert(child_sizes(nodes, id as int, c_off, 0) =~= Seq::<ComputedData>::empty());
                assert(child_sizes(nodes, id as int, c_off, 1) =~= seq![thumb]);
            }
            proof {
                m_placed = self.metadatas@;
            }
        } else {
            proof {
                assert(children_ok(nodes, id as int, c_off, 0));
                assert(child_sizes(nodes, id as int, c_off, 0) =~= Seq::<ComputedData>::empty());
            }
        }
        let start: usize = if n > 0 {
            1
        } else {
            0
        };
        self.unplace_children(id, start);
        let size = ComputedData {
            width: if width.0 < 0 {
                Px(0)
            } else {
                width
            },
            height: if height.0 < 0 {
                Px(0)
            } else {
                height
            },
        };
        let ghost m_prev = self.metadatas@;
        self.set_computed(id, size);
        proof {
            lemma_laid_out_unfold(nodes, self.metadatas@, id as int, *offered);
            assert forall|k: int| 0 <= k < nodes[id as int].children@.len() implies #[trigger] child_laid_out(
                nodes,
                self.metadatas@,
                id as int,
                *offered,
                k,
            ) by {
                let c = child(nodes, id as int, k);
                assert(c > id);
                if k == 0 {
                    assert(m_prev[c] == m_placed[c]);
                    if is_descendant(nodes, id as int, c) {
                        lemma_descendant_not_before(nodes, id as int, c);
                    }
                    lemma_update_keeps_laid_out(nodes, m_prev, c, c_off, id as int, self.metadatas@[id as int]);
                    assert(m_prev.update(id as int, self.metadatas@[id as int]) == self.metadatas@);
                }
            }
            assert(is_descendant(nodes, id as int, id as int));
        }
        Ok(size)
    }

    fn measure_linear(
        &mut self,
        id: usize,
        offered: &Constraint,
        horizontal: bool,
        main_al: MainAxisAlignment,
        cross_al: CrossAxisAlignment,
    ) -> (r: Result<ComputedData, MeasurementError>)
        requires
            old(self).wf(),
            id < old(self).nodes@.len(),
            old(self).nodes@[id as int].policy == if horizontal {
                MeasurePolicy::Row { main_axis_alignment: main_al, cross_axis_alignment: cross_al }
            } else {
                MeasurePolicy::Column { main_axis_alignment: main_al, cross_axis_alignment: cross_al }
            },
        ensures
            final(self).measure_result(*old(self), id as int, *offered, r),
        decreases old(self).nodes@.len() - id, 0int,
    {
        let ghost before = *self;
        let ghost nodes = self.nodes@;
        let eff = self.nodes[id].constraint.merge(offered);
        let c_off = linear_child_constraint(&eff);
        let n = self.nodes[id].children.len();
        let mut sizes: Vec<ComputedData> = Vec::new();
        let mut k: usize = 0;
        proof {
            assert(node_wf(nodes, id as int));
            assert(child_sizes(nodes, id as int, c_off, 0) =~= Seq::<ComputedData>::empty());
            assert(child_offer(nodes[id as int].policy, eff) == c_off);
            assert(measured_count(nodes[id as int].policy, n as int) == n);
        }
        while k < n
            invariant
                self.changed_below(before, id as int),
                self.nodes@ == nodes,
                nodes == old(self).nodes@,
                before == *old(self),
                eff == effective(nodes, id as int, *offered),
                child_offer(nodes[id as int].policy, eff) == c_off,
                measured_count(nodes[id as int].policy, n as int) == n,
                nodes_wf(nodes),
                id < nodes.len(),
                n == nodes[id as int].children@.len(),
                k <= n,
                sizes@ == child_sizes(nodes, id as int, c_off, k as int),
                children_ok(nodes, id as int, c_off, k as int),
                sizes@.len() == k,
                sizes_non_negative(sizes@),
                forall|i: int|
                    0 <= i < k ==> laid_out(nodes, self.metadatas@, #[trigger] child(nodes, id as int, i), c_off),
            decreases n - k,
        {
            let c = self.nodes[id].children[k];
            let ghost m_prev = self.metadatas@;
            proof {
                assert(node_wf(nodes, id as int));
                assert(c as int == child(nodes, id as int, k as int));
                lemma_child_is_descendant(nodes, id as int, k as int);
            }
            let s = match self.measure_at(c, &c_off) {
                Ok(size) => size,
                Err(_) => {
                    proof {
                        assert(child(nodes, id as int, k as int) == c);
                        assert(child_offer(nodes[id as int].policy, eff) == c_off);
                        assert(measured_count(nodes[id as int].policy, n as int) == n);
                        assert(!measure_ok(nodes, c as int, c_off));
                        if children_ok(nodes, id as int, c_off, n as int) {
                            lemma_children_ok_each(nodes, id as int, c_off, n as int, k as int);
                        }
                    }
                    return Err(MeasurementError::ChildMeasurementFailed(c));
                },
            };
            proof {
                assert forall|j: int|
                    0 <= j < nodes.len() && !(is_descendant(nodes, j, id as int) && j != id)
                        implies #[trigger] self.metadatas@[j] == before.metadatas@[j] by {
                    if is_descendant(nodes, j, c as int) {
                        lemma_below_child(nodes, id as int, k as int, j);
                    }
                }
                assert forall|i: int| 0 <= i < k implies laid_out(
                    nodes,
                    self.metadatas@,
                    #[trigger] child(nodes, id as int, i),
                    c_off,
                ) by {
                    let ci = child(nodes, id as int, i);
                    assert forall|j: int|
                        0 <= j < nodes.len() && #[trigger] is_descendant(nodes, j, ci) implies self.metadatas@[j].computed_data
                        == m_prev[j].computed_data && (j != ci ==> self.metadatas@[j].rel_position
                        == m_prev[j].rel_position) by {
                        lemma_siblings_disjoint(nodes, id as int, i, k as int, j);
                    }
                    lemma_laid_out_frame(nodes, m_prev, self.metadatas@, ci, c_off);
                }
            }
            sizes.push(s);
            k += 1;
        }
        let size = linear_layout_size(&eff, &sizes, horizontal);
        let (total, _) = linear_extent(&sizes, horizontal);
        proof {
            lemma_totals_non_negative(sizes@, horizontal);
        }
        let own_main = main_length(size, horizontal);
        let own_cross = cross_length(size, horizontal);
        let free: i32 = if own_main > total {
            own_main - total
        } else {
            0
        };
        let (lead, gap) = spacing(main_al, free, n);
        let mut pos: i32 = lead;
        let ghost m_measured = self.metadatas@;
        k = 0;
        while k < n
            invariant
                self.changed_below(before, id as int),
                self.nodes@ == nodes,
                nodes_wf(nodes),
                id < nodes.len(),
                n == nodes[id as int].children@.len(),
                k <= n,
                sizes@ == child_sizes(nodes, id as int, c_off, n as int),
                sizes@.len() == n,
                sizes_non_negative(sizes@),
                0 <= lead <= i32::MAX,
                0 <= gap <= i32::MAX,
                own_cross >= 0,
                0 <= pos,
                pos == main_offset(sizes@, k as int, lead as int, gap as int, horizontal),
                forall|i: int|
                    0 <= i < n ==> laid_out(nodes, self.metadatas@, #[trigger] child(nodes, id as int, i), c_off),
                forall|i: int|
                    0 <= i < k ==> self.metadatas@[#[trigger] child(nodes, id as int, i)].rel_position
                        == Some(
                        if horizontal {
                            PxPosition {
                                x: Px(main_offset(sizes@, i, lead as int, gap as int, horizontal) as i32),
                                y: Px(cross_offset(cross_al, own_cross as int, cross_len(sizes@[i], horizontal)) as i32),
                            }
                        } else {
                            PxPosition {
                                x: Px(cross_offset(cross_al, own_cross as int, cross_len(sizes@[i], horizontal)) as i32),
                                y: Px(main_offset(sizes@, i, lead as int, gap as int, horizontal) as i32),
                            }
                        },
                    ),
            decreases n - k,
        {
            let c = self.nodes[id].children[k];
            let s = sizes[k];
            let ghost m_prev = self.metadatas@;
            proof {
                assert(node_wf(nodes, id as int));
                assert(c as int == child(nodes, id as int, k as int));
                lemma_child_is_descendant(nodes, id as int, k as int);
                assert(s.width.0 >= 0 && s.height.0 >= 0);
            }
            let x = cross_start(cross_al, own_cross, cross_length(s, horizontal));
            let p = if horizontal {
                PxPosition::new(Px(pos), Px(x))
            } else {
                PxPosition::new(Px(x), Px(pos))
            };
            self.set_rel_position(c, Some(p));
            proof {
                assert forall|j: int|
                    0 <= j < nodes.len() && !(is_descendant(nodes, j, id as int) && j != id)
                        implies #[trigger] self.metadatas@[j] == before.metadatas@[j] by {
                    if j == c {
                        lemma_descendant_not_before(nodes, id as int, c as int);
                    }
                }
                assert forall|i: int| 0 <= i < n implies laid_out(
                    nodes,
                    self.metadatas@,
                    #[trigger] child(nodes, id as int, i),
                    c_off,
                ) by {
                    let ci = child(nodes, id as int, i);
                    if i != k {
                        lemma_siblings_disjoint(nodes, id as int, i, k as int, c as int);
                        assert(is_descendant(nodes, c as int, c as int));
                    }
                    lemma_update_keeps_laid_out(nodes, m_prev, ci, c_off, c as int, self.metadatas@[c as int]);
                    assert(m_prev.update(c as int, self.metadatas@[c as int]) == self.metadatas@);
                }
                assert forall|i: int| 0 <= i < k + 1 implies self.metadatas@[#[trigger] child(
                    nodes,
                    id as int,
                    i,
                )].rel_position == Some(
                    if horizontal {
                        PxPosition {
                            x: Px(main_offset(sizes@, i, lead as int, gap as int, horizontal) as i32),
                            y: Px(cross_offset(cross_al, own_cross as int, cross_len(sizes@[i], horizontal)) as i32),
                        }
                    } else {
                        PxPosition {
                            x: Px(cross_offset(cross_al, own_cross as int, cross_len(sizes@[i], horizontal)) as i32),
                            y: Px(main_offset(sizes@, i, lead as int, gap as int, horizontal) as i32),
                        }
                    },
                ) by {
                    if i < k {
                        assert(child(nodes, id as int, i) < child(nodes, id as int, k as int));
                    }
                }
            }
            pos = saturating_i64(pos as i64 + main_length(s, horizontal) as i64 + gap as i64);
            k += 1;
        }
        let ghost m_prev = self.metadatas@;
        self.set_computed(id, size);
        proof {
            lemma_laid_out_unfold(nodes, self.metadatas@, id as int, *offered);
            assert(free as int == free_space(eff, sizes@, horizontal));
            assert forall|k: int| 0 <= k < nodes[id as int].children@.len() implies #[trigger] child_laid_out(
                nodes,
                self.metadatas@,
                id as int,
                *offered,
                k,
            ) by {
                let c = child(nodes, id as int, k);
                assert(c > id);
                if is_descendant(nodes, id as int, c) {
                    lemma_descendant_not_before(nodes, id as int, c);
                }
                lemma_update_keeps_laid_out(nodes, m_prev, c, c_off, id as int, self.metadatas@[id as int]);
                assert(m_prev.update(id as int, self.metadatas@[id as int]) == self.metadatas@);
                assert(linear_position(main_al, cross_al, eff, sizes@, k, horizontal) == self.metadatas@[c].rel_position.unwrap());
            }
            assert(is_descendant(nodes, id as int, id as int));
        }
        Ok(size)
    }
}

} // verus!
