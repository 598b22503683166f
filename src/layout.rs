use vstd::prelude::*;

use crate::constraint::{
    dimension_non_negative, merge_spec, non_negative, upper_bound, Constraint, DimensionValue,
};
use crate::px::{div_toward_zero, saturate, Px, PxPosition};
use crate::tree::{
    child, ComponentNode, ComponentNodeMetaData, ComputedData, CrossAxisAlignment,
    MainAxisAlignment, MeasurePolicy,
};

verus! {

/// `v` raised to the lower bound `lo`, if there is one.
pub open spec fn at_least(v: int, lo: Option<Px>) -> int {
    match lo {
        Some(m) => if m.0 > v {
            m.0 as int
        } else {
            v
        },
        None => v,
    }
}

/// `v` lowered to the upper bound `hi`, if there is one.
pub open spec fn at_most(v: int, hi: Option<Px>) -> int {
    match hi {
        Some(m) => if m.0 < v {
            m.0 as int
        } else {
            v
        },
        None => v,
    }
}

/// The length a node takes along an axis with effective dimension `d` when
/// its content needs `content`: a fixed length as given; a wrapping node its
/// content within its bounds; a filling node its upper bound, or its content
/// where it has none, and at least its lower bound. Never negative.
pub open spec fn resolve_spec(d: DimensionValue, content: Px) -> Px {
    let v = match d {
        DimensionValue::Fixed(a) => a.0 as int,
        DimensionValue::Wrap { min, max } => at_most(at_least(content.0 as int, min), max),
        DimensionValue::Fill { min, max } => at_least(
            match max {
                Some(m) => m.0 as int,
                None => content.0 as int,
            },
            min,
        ),
    };
    Px(
        if v < 0 {
            0
        } else {
            v as i32
        },
    )
}

/// `s` less a padding of `p` on both sides, floored at zero.
pub open spec fn inset_len(s: Px, p: Px) -> Px {
    let v = s.0 - 2 * p.0;
    Px(
        if v < 0 {
            0
        } else if v > i32::MAX {
            i32::MAX
        } else {
            v as i32
        },
    )
}

pub open spec fn inset_opt(o: Option<Px>, p: Px) -> Option<Px> {
    match o {
        Some(s) => Some(inset_len(s, p)),
        None => None,
    }
}

/// What a container with padding `p` and effective dimension `d` offers its
/// child along that axis. A filling container that knows its length hands
/// the child that length less the padding, exactly.
pub open spec fn inset_dimension(d: DimensionValue, p: Px) -> DimensionValue {
    match d {
        DimensionValue::Fixed(s) => DimensionValue::Fixed(inset_len(s, p)),
        DimensionValue::Wrap { min, max } => DimensionValue::Wrap {
            min: inset_opt(min, p),
            max: inset_opt(max, p),
        },
        DimensionValue::Fill { max: Some(m), .. } => DimensionValue::Fixed(inset_len(m, p)),
        DimensionValue::Fill { max: None, .. } => DimensionValue::Wrap { min: None, max: None },
    }
}

pub open spec fn inset_constraint(c: Constraint, p: Px) -> Constraint {
    Constraint { width: inset_dimension(c.width, p), height: inset_dimension(c.height, p) }
}

/// `c` plus a padding of `p` on both sides, saturating.
pub open spec fn outset_len(c: Px, p: Px) -> Px {
    Px(saturate(c.0 + 2 * p.0) as i32)
}

pub open spec fn zero_size() -> ComputedData {
    ComputedData { width: Px(0), height: Px(0) }
}

pub open spec fn main_len(c: ComputedData, horizontal: bool) -> int {
    if horizontal {
        c.width.0 as int
    } else {
        c.height.0 as int
    }
}

pub open spec fn cross_len(c: ComputedData, horizontal: bool) -> int {
    if horizontal {
        c.height.0 as int
    } else {
        c.width.0 as int
    }
}

/// The sum of the children's lengths along the main axis, saturating.
pub open spec fn total_main(cs: Seq<ComputedData>, horizontal: bool) -> int
    decreases cs.len(),
{
    if cs.len() == 0 {
        0
    } else {
        saturate(total_main(cs.drop_last(), horizontal) + main_len(cs.last(), horizontal))
    }
}

/// The largest of the children's lengths across the main axis (zero for none).
pub open spec fn max_cross(cs: Seq<ComputedData>, horizontal: bool) -> int
    decreases cs.len(),
{
    if cs.len() == 0 {
        0
    } else {
        let m = max_cross(cs.drop_last(), horizontal);
        if cross_len(cs.last(), horizontal) > m {
            cross_len(cs.last(), horizontal)
        } else {
            m
        }
    }
}

/// No child length is negative.
pub open spec fn sizes_non_negative(cs: Seq<ComputedData>) -> bool {
    forall|i: int| 0 <= i < cs.len() ==> (#[trigger] cs[i]).width.0 >= 0 && cs[i].height.0 >= 0
}

/// The size of a row (`horizontal`) or column whose children measured `cs`.
pub open spec fn linear_size(eff: Constraint, cs: Seq<ComputedData>, horizontal: bool) -> ComputedData {
    if horizontal {
        ComputedData {
            width: resolve_spec(eff.width, Px(total_main(cs, true) as i32)),
            height: resolve_spec(eff.height, Px(max_cross(cs, true) as i32)),
        }
    } else {
        ComputedData {
            width: resolve_spec(eff.width, Px(max_cross(cs, false) as i32)),
            height: resolve_spec(eff.height, Px(total_main(cs, false) as i32)),
        }
    }
}

/// What a row or column offers each child: to wrap its content within the
/// space the row or column may take.
pub open spec fn linear_child_offer(eff: Constraint) -> Constraint {
    Constraint {
        width: DimensionValue::Wrap { min: None, max: upper_bound(eff.width) },
        height: DimensionValue::Wrap { min: None, max: upper_bound(eff.height) },
    }
}

/// The space before the first child and between two children, for `n`
/// children sharing `free` pixels of slack.
pub open spec fn lead_and_gap(al: MainAxisAlignment, free: int, n: int) -> (int, int) {
    match al {
        MainAxisAlignment::Start => (0, 0),
        MainAxisAlignment::Center => (free / 2, 0),
        MainAxisAlignment::End => (free, 0),
        MainAxisAlignment::SpaceEvenly => (free / (n + 1), free / (n + 1)),
        MainAxisAlignment::SpaceBetween => (0, if n > 1 { free / (n - 1) } else { 0 }),
        MainAxisAlignment::SpaceAround => if n > 0 {
            (free / n / 2, free / n)
        } else {
            (0, 0)
        },
    }
}

/// Where the `k`-th child starts along the main axis.
pub open spec fn main_offset(cs: Seq<ComputedData>, k: int, lead: int, gap: int, horizontal: bool) -> int
    decreases k,
{
    if k <= 0 {
        lead
    } else {
        saturate(main_offset(cs, k - 1, lead, gap, horizontal) + main_len(cs[k - 1], horizontal) + gap)
    }
}

/// Where a child of length `c` starts across the main axis of a row or column
/// of cross length `total`; a child longer than that starts at zero.
pub open spec fn cross_offset(al: CrossAxisAlignment, total: int, c: int) -> int {
    let slack = if total > c {
        total - c
    } else {
        0
    };
    match al {
        CrossAxisAlignment::Start => 0,
        CrossAxisAlignment::Center => slack / 2,
        CrossAxisAlignment::End => slack,
    }
}

/// The unused main-axis length of a row or column.
pub open spec fn free_space(eff: Constraint, cs: Seq<ComputedData>, horizontal: bool) -> int {
    let own = main_len(linear_size(eff, cs, horizontal), horizontal);
    let used = total_main(cs, horizontal);
    if own > used {
        own - used
    } else {
        0
    }
}

/// The position of the `k`-th child of a row or column.
pub open spec fn linear_position(
    main_al: MainAxisAlignment,
    cross_al: CrossAxisAlignment,
    eff: Constraint,
    cs: Seq<ComputedData>,
    k: int,
    horizontal: bool,
) -> PxPosition {
    let lg = lead_and_gap(main_al, free_space(eff, cs, horizontal), cs.len() as int);
    let m = main_offset(cs, k, lg.0, lg.1, horizontal);
    let c = cross_offset(
        cross_al,
        cross_len(linear_size(eff, cs, horizontal), horizontal),
        cross_len(cs[k], horizontal),
    );
    if horizontal {
        PxPosition { x: Px(m as i32), y: Px(c as i32) }
    } else {
        PxPosition { x: Px(c as i32), y: Px(m as i32) }
    }
}

/// A constraint that asks for nothing: unbounded `Wrap` on both axes.
pub open spec fn unbounded() -> Constraint {
    Constraint {
        width: DimensionValue::Wrap { min: None, max: None },
        height: DimensionValue::Wrap { min: None, max: None },
    }
}

/// Where the thumb of a toggle track sits: `progress` thousandths of the way
/// from `padding` to `padding` before the far end, rounded toward zero, and
/// centred across; saturating.
pub open spec fn thumb_position(
    width: Px,
    height: Px,
    padding: Px,
    progress: u32,
    thumb: ComputedData,
) -> PxPosition {
    let p = if progress > 1000 {
        1000
    } else {
        progress as int
    };
    let travel = width.0 - thumb.width.0 - 2 * padding.0;
    PxPosition {
        x: Px(saturate(padding.0 + div_toward_zero(travel * p, 1000)) as i32),
        y: Px(saturate(div_toward_zero(height.0 - thumb.height.0, 2)) as i32),
    }
}

/// How many of its first children a node of this policy measures and places.
pub open spec fn measured_count(policy: MeasurePolicy, n: int) -> int {
    match policy {
        MeasurePolicy::Leaf { .. } => 0,
        MeasurePolicy::Surface { .. } => if n > 0 {
            1
        } else {
            0
        },
        MeasurePolicy::Row { .. } => n,
        MeasurePolicy::Column { .. } => n,
        MeasurePolicy::Toggle { .. } => if n > 0 {
            1
        } else {
            0
        },
    }
}

/// The constraint a node of this policy offers its children.
pub open spec fn child_offer(policy: MeasurePolicy, eff: Constraint) -> Constraint {
    match policy {
        MeasurePolicy::Leaf { .. } => eff,
        MeasurePolicy::Surface { padding } => inset_constraint(eff, padding),
        MeasurePolicy::Row { .. } => linear_child_offer(eff),
        MeasurePolicy::Column { .. } => linear_child_offer(eff),
        MeasurePolicy::Toggle { .. } => unbounded(),
    }
}

/// The size of a node of this policy, with effective constraint `eff`, whose
/// measured children resolved to `cs`.
pub open spec fn policy_size(policy: MeasurePolicy, eff: Constraint, cs: Seq<ComputedData>) -> ComputedData {
    match policy {
        MeasurePolicy::Leaf { content } => ComputedData {
            width: resolve_spec(eff.width, content.width),
            height: resolve_spec(eff.height, content.height),
        },
        MeasurePolicy::Surface { padding } => {
            let inner = if cs.len() > 0 {
                cs[0]
            } else {
                zero_size()
            };
            ComputedData {
                width: resolve_spec(eff.width, outset_len(inner.width, padding)),
                height: resolve_spec(eff.height, outset_len(inner.height, padding)),
            }
        },
        MeasurePolicy::Row { .. } => linear_size(eff, cs, true),
        MeasurePolicy::Column { .. } => linear_size(eff, cs, false),
        MeasurePolicy::Toggle { width, height, .. } => ComputedData {
            width: non_negative(width),
            height: non_negative(height),
        },
    }
}

/// Where a node of this policy places its `k`-th measured child.
pub open spec fn policy_position(
    policy: MeasurePolicy,
    eff: Constraint,
    cs: Seq<ComputedData>,
    k: int,
) -> PxPosition {
    match policy {
        MeasurePolicy::Leaf { .. } => PxPosition { x: Px(0), y: Px(0) },
        MeasurePolicy::Surface { padding } => PxPosition { x: padding, y: padding },
        MeasurePolicy::Row { main_axis_alignment, cross_axis_alignment } => linear_position(
            main_axis_alignment,
            cross_axis_alignment,
            eff,
            cs,
            k,
            true,
        ),
        MeasurePolicy::Column { main_axis_alignment, cross_axis_alignment } => linear_position(
            main_axis_alignment,
            cross_axis_alignment,
            eff,
            cs,
            k,
            false,
        ),
        MeasurePolicy::Toggle { width, height, thumb_padding, progress_permille } => {
            let thumb = if cs.len() > 0 {
                cs[0]
            } else {
                zero_size()
            };
            thumb_position(width, height, thumb_padding, progress_permille, thumb)
        },
    }
}

/// The effective constraint of node `id` when offered `offered`.
pub open spec fn effective(nodes: Seq<ComponentNode>, id: int, offered: Constraint) -> Constraint {
    merge_spec(nodes[id].constraint, offered)
}

/// The size node `id` resolves to when its parent offers `offered`.
pub open spec fn node_size(nodes: Seq<ComponentNode>, id: int, offered: Constraint) -> ComputedData
    decreases nodes.len() - id, nodes[id].children@.len() + 1,
{
    if 0 <= id < nodes.len() {
        let eff = effective(nodes, id, offered);
        let pol = nodes[id].policy;
        policy_size(
            pol,
            eff,
            child_sizes(
                nodes,
                id,
                child_offer(pol, eff),
                measured_count(pol, nodes[id].children@.len() as int),
            ),
        )
    } else {
        zero_size()
    }
}

/// The sizes of the first `k` children of `id`, each offered `c_off`.
pub open spec fn child_sizes(nodes: Seq<ComponentNode>, id: int, c_off: Constraint, k: int) -> Seq<
    ComputedData,
>
    decreases nodes.len() - id, k,
{
    if 0 <= id < nodes.len() && 0 < k <= nodes[id].children@.len() {
        let c = child(nodes, id, k - 1);
        child_sizes(nodes, id, c_off, k - 1).push(
            if id < c < nodes.len() {
                node_size(nodes, c, c_off)
            } else {
                zero_size()
            },
        )
    } else {
        Seq::empty()
    }
}

/// Whether measuring node `id` under `offered` succeeds: a toggle needs its
/// thumb, and every child the policy measures must succeed in turn.
pub open spec fn measure_ok(nodes: Seq<ComponentNode>, id: int, offered: Constraint) -> bool
    decreases nodes.len() - id, nodes[id].children@.len() + 1,
{
    if 0 <= id < nodes.len() {
        let eff = effective(nodes, id, offered);
        let pol = nodes[id].policy;
        &&& !(pol is Toggle && nodes[id].children@.len() == 0)
        &&& children_ok(
            nodes,
            id,
            child_offer(pol, eff),
            measured_count(pol, nodes[id].children@.len() as int),
        )
    } else {
        false
    }
}

/// Whether measuring each of the first `k` children of `id` under `c_off`
/// succeeds.
pub open spec fn children_ok(nodes: Seq<ComponentNode>, id: int, c_off: Constraint, k: int) -> bool
    decreases nodes.len() - id, k,
{
    if 0 <= id < nodes.len() && 0 < k <= nodes[id].children@.len() {
        let c = child(nodes, id, k - 1);
        children_ok(nodes, id, c_off, k - 1) && (id < c < nodes.len() ==> measure_ok(
            nodes,
            c,
            c_off,
        ))
    } else {
        true
    }
}

/// `c` is a child that node `id`, measured under `offered`, measures and
/// whose own measurement fails.
pub open spec fn failed_child(nodes: Seq<ComponentNode>, id: int, offered: Constraint, c: int) -> bool {
    let pol = nodes[id].policy;
    exists|k: int|
        0 <= k < measured_count(pol, nodes[id].children@.len() as int) && #[trigger] child(
            nodes,
            id,
            k,
        ) == c && !measure_ok(nodes, c, child_offer(pol, effective(nodes, id, offered)))
}

/// Success for the first `j` children includes success for each of them.
pub proof fn lemma_children_ok_each(
    nodes: Seq<ComponentNode>,
    id: int,
    c_off: Constraint,
    j: int,
    k: int,
)
    requires
        0 <= id < nodes.len(),
        0 <= k < j <= nodes[id].children@.len(),
        children_ok(nodes, id, c_off, j),
        id < child(nodes, id, k) < nodes.len(),
    ensures
        measure_ok(nodes, child(nodes, id, k), c_off),
    decreases j,
{
    if k < j - 1 {
        lemma_children_ok_each(nodes, id, c_off, j - 1, k);
    }
}

/// The sizes that the measured children of `id` resolve to.
pub open spec fn measured_child_sizes(
    nodes: Seq<ComponentNode>,
    id: int,
    offered: Constraint,
) -> Seq<ComputedData> {
    let eff = effective(nodes, id, offered);
    let pol = nodes[id].policy;
    child_sizes(
        nodes,
        id,
        child_offer(pol, eff),
        measured_count(pol, nodes[id].children@.len() as int),
    )
}

/// The position node `id` gives its `k`-th child.
pub open spec fn child_position(nodes: Seq<ComponentNode>, id: int, offered: Constraint, k: int) -> PxPosition {
    policy_position(
        nodes[id].policy,
        effective(nodes, id, offered),
        measured_child_sizes(nodes, id, offered),
        k,
    )
}

/// The metadata of the subtree of `id` records the measurement of `id` under
/// `offered`: the size of `id`, the position of each measured child and,
/// recursively, the layout of its subtree; children not measured are unplaced.
pub open spec fn laid_out(
    nodes: Seq<ComponentNode>,
    metas: Seq<ComponentNodeMetaData>,
    id: int,
    offered: Constraint,
) -> bool
    decreases nodes.len() - id,
{
    if 0 <= id < nodes.len() {
        let pol = nodes[id].policy;
        &&& metas[id].computed_data == Some(node_size(nodes, id, offered))
        &&& forall|k: int|
            0 <= k < nodes[id].children@.len() ==> if k < measured_count(
                pol,
                nodes[id].children@.len() as int,
            ) {
                &&& metas[#[trigger] child(nodes, id, k)].rel_position == Some(
                    child_position(nodes, id, offered, k),
                )
                &&& id < child(nodes, id, k) < nodes.len()
                &&& laid_out(
                    nodes,
                    metas,
                    child(nodes, id, k),
                    child_offer(pol, effective(nodes, id, offered)),
                )
            } else {
                metas[child(nodes, id, k)].rel_position is None
            }
    } else {
        false
    }
}

/// What `laid_out` of `id` asks of its `k`-th child: placed and laid out
/// when `id` measures it, unplaced otherwise.
pub open spec fn child_laid_out(
    nodes: Seq<ComponentNode>,
    metas: Seq<ComponentNodeMetaData>,
    id: int,
    offered: Constraint,
    k: int,
) -> bool {
    let pol = nodes[id].policy;
    if k < measured_count(pol, nodes[id].children@.len() as int) {
        &&& metas[child(nodes, id, k)].rel_position == Some(child_position(nodes, id, offered, k))
        &&& id < child(nodes, id, k) < nodes.len()
        &&& laid_out(
            nodes,
            metas,
            child(nodes, id, k),
            child_offer(pol, effective(nodes, id, offered)),
        )
    } else {
        metas[child(nodes, id, k)].rel_position is None
    }
}

/// `laid_out` of a node in the arena, one child at a time.
pub proof fn lemma_laid_out_unfold(
    nodes: Seq<ComponentNode>,
    metas: Seq<ComponentNodeMetaData>,
    id: int,
    offered: Constraint,
)
    requires
        0 <= id < nodes.len(),
    ensures
        laid_out(nodes, metas, id, offered) <==> (metas[id].computed_data == Some(
            node_size(nodes, id, offered),
        ) && forall|k: int|
            0 <= k < nodes[id].children@.len() ==> #[trigger] child_laid_out(
                nodes,
                metas,
                id,
                offered,
                k,
            )),
{
    if laid_out(nodes, metas, id, offered) {
        assert forall|k: int| 0 <= k < nodes[id].children@.len() implies #[trigger] child_laid_out(
            nodes,
            metas,
            id,
            offered,
            k,
        ) by {
            assert(child(nodes, id, k) == child(nodes, id, k));
        }
    }
    if metas[id].computed_data == Some(node_size(nodes, id, offered)) && forall|k: int|
        0 <= k < nodes[id].children@.len() ==> #[trigger] child_laid_out(nodes, metas, id, offered, k) {
        assert forall|k: int| 0 <= k < nodes[id].children@.len() implies (if k < measured_count(
            nodes[id].policy,
            nodes[id].children@.len() as int,
        ) {
            &&& metas[#[trigger] child(nodes, id, k)].rel_position == Some(
                child_position(nodes, id, offered, k),
            )
            &&& id < child(nodes, id, k) < nodes.len()
            &&& laid_out(
                nodes,
                metas,
                child(nodes, id, k),
                child_offer(nodes[id].policy, effective(nodes, id, offered)),
            )
        } else {
            metas[child(nodes, id, k)].rel_position is None
        }) by {
            assert(child_laid_out(nodes, metas, id, offered, k));
        }
    }
}

/// The length a node takes along an axis with effective dimension `d` when
/// its content needs `content`.
pub fn resolve_dimension(d: DimensionValue, content: Px) -> (r: Px)
    ensures
        r == resolve_spec(d, content),
        r.0 >= 0,
{
    let v: i32 = match d {
        DimensionValue::Fixed(a) => a.0,
        DimensionValue::Wrap { min, max } => {
            let mut v: i32 = content.0;
            if let Some(m) = min {
                if m.0 > v {
                    v = m.0;
                }
            }
            if let Some(m) = max {
                if m.0 < v {
                    v = m.0;
                }
            }
            v
        },
        DimensionValue::Fill { min, max } => {
            let mut v: i32 = match max {
                Some(m) => m.0,
                None => content.0,
            };
            if let Some(m) = min {
                if m.0 > v {
                    v = m.0;
                }
            }
            v
        },
    };
    Px(
        if v < 0 {
            0
        } else {
            v
        },
    )
}

fn inset_length(s: Px, p: Px) -> (r: Px)
    ensures
        r == inset_len(s, p),
{
    let v: i64 = s.0 as i64 - 2 * (p.0 as i64);
    Px(
        if v < 0 {
            0
        } else if v > i32::MAX as i64 {
            i32::MAX
        } else {
            v as i32
        },
    )
}

fn inset_optional(o: Option<Px>, p: Px) -> (r: Option<Px>)
    ensures
        r == inset_opt(o, p),
{
    match o {
        Some(s) => Some(inset_length(s, p)),
        None => None,
    }
}

/// What a container with padding `padding` on every side and effective
/// dimension `d` offers its child along that axis.
pub fn padded_child_dimension(d: DimensionValue, padding: Px) -> (r: DimensionValue)
    ensures
        r == inset_dimension(d, padding),
{
    match d {
        DimensionValue::Fixed(s) => DimensionValue::Fixed(inset_length(s, padding)),
        DimensionValue::Wrap { min, max } => DimensionValue::Wrap {
            min: inset_optional(min, padding),
            max: inset_optional(max, padding),
        },
        DimensionValue::Fill { max: Some(m), .. } => DimensionValue::Fixed(inset_length(m, padding)),
        DimensionValue::Fill { max: None, .. } => DimensionValue::Wrap { min: None, max: None },
    }
}

/// What a container with padding `padding` on every side and effective
/// constraint `c` offers its child.
pub fn padded_child_constraint(c: &Constraint, padding: Px) -> (r: Constraint)
    ensures
        r == inset_constraint(*c, padding),
{
    Constraint {
        width: padded_child_dimension(c.width, padding),
        height: padded_child_dimension(c.height, padding),
    }
}

pub(crate) fn outset_length(c: Px, p: Px) -> (r: Px)
    ensures
        r == outset_len(c, p),
{
    let v: i64 = c.0 as i64 + 2 * (p.0 as i64);
    Px(
        if v < i32::MIN as i64 {
            i32::MIN
        } else if v > i32::MAX as i64 {
            i32::MAX
        } else {
            v as i32
        },
    )
}

pub(crate) fn main_length(c: ComputedData, horizontal: bool) -> (r: i32)
    ensures
        r == main_len(c, horizontal),
{
    if horizontal {
        c.width.0
    } else {
        c.height.0
    }
}

pub(crate) fn cross_length(c: ComputedData, horizontal: bool) -> (r: i32)
    ensures
        r == cross_len(c, horizontal),
{
    if horizontal {
        c.height.0
    } else {
        c.width.0
    }
}

pub(crate) fn saturating_i64(v: i64) -> (r: i32)
    ensures
        r == saturate(v as int),
{
    if v < i32::MIN as i64 {
        i32::MIN
    } else if v > i32::MAX as i64 {
        i32::MAX
    } else {
        v as i32
    }
}

pub proof fn lemma_totals_non_negative(cs: Seq<ComputedData>, horizontal: bool)
    requires
        sizes_non_negative(cs),
    ensures
        0 <= total_main(cs, horizontal) <= i32::MAX,
        0 <= max_cross(cs, horizontal) <= i32::MAX,
    decreases cs.len(),
{
    if cs.len() > 0 {
        let init = cs.drop_last();
        assert forall|i: int| 0 <= i < init.len() implies (#[trigger] init[i]).width.0 >= 0
            && init[i].height.0 >= 0 by {
            assert(init[i] == cs[i]);
        }
        lemma_totals_non_negative(init, horizontal);
        assert(cs.last() == cs[cs.len() - 1]);
        assert(cs[cs.len() - 1].width.0 >= 0 && cs[cs.len() - 1].height.0 >= 0);
    }
}

/// The total main-axis length and the largest cross-axis length of `cs`.
pub(crate) fn linear_extent(cs: &Vec<ComputedData>, horizontal: bool) -> (r: (i32, i32))
    ensures
        r.0 == total_main(cs@, horizontal),
        r.1 == max_cross(cs@, horizontal),
{
    let mut total: i32 = 0;
    let mut widest: i32 = 0;
    let mut k: usize = 0;
    while k < cs.len()
        invariant
            k <= cs@.len(),
            total == total_main(cs@.subrange(0, k as int), horizontal),
            widest == max_cross(cs@.subrange(0, k as int), horizontal),
        decreases cs@.len() - k,
    {
        let c = cs[k];
        proof {
            assert(cs@.subrange(0, k + 1).drop_last() =~= cs@.subrange(0, k as int));
            assert(cs@.subrange(0, k + 1).last() == c);
        }
        total = saturating_i64(total as i64 + main_length(c, horizontal) as i64);
        let l = cross_length(c, horizontal);
        if l > widest {
            widest = l;
        }
        k += 1;
    }
    proof {
        assert(cs@.subrange(0, cs@.len() as int) =~= cs@);
    }
    (total, widest)
}

/// What a row or column with effective constraint `eff` offers each child.
pub fn linear_child_constraint(eff: &Constraint) -> (r: Constraint)
    ensures
        r == linear_child_offer(*eff),
{
    Constraint {
        width: DimensionValue::Wrap { min: None, max: eff.width.upper_bound() },
        height: DimensionValue::Wrap { min: None, max: eff.height.upper_bound() },
    }
}

/// The size of a row (`horizontal`) or column with effective constraint
/// `eff` whose children measured `cs`.
pub fn linear_layout_size(eff: &Constraint, cs: &Vec<ComputedData>, horizontal: bool) -> (r: ComputedData)
    ensures
        r == linear_size(*eff, cs@, horizontal),
{
    let (total, widest) = linear_extent(cs, horizontal);
    if horizontal {
        ComputedData {
            width: resolve_dimension(eff.width, Px(total)),
            height: resolve_dimension(eff.height, Px(widest)),
        }
    } else {
        ComputedData {
            width: resolve_dimension(eff.width, Px(widest)),
            height: resolve_dimension(eff.height, Px(total)),
        }
    }
}

/// The space before the first child and between two children, for `n`
/// children sharing `free` pixels of slack.
pub fn spacing(al: MainAxisAlignment, free: i32, n: usize) -> (r: (i32, i32))
    requires
        free >= 0,
    ensures
        r.0 == lead_and_gap(al, free as int, n as int).0,
        r.1 == lead_and_gap(al, free as int, n as int).1,
        0 <= r.0 <= free,
        0 <= r.1 <= free,
{
    let f: u128 = free as u128;
    let m: u128 = n as u128;
    proof {
        assert forall|d: int| d >= 1 implies 0 <= #[trigger] (free as int / d) <= free as int by {
            assert(0 <= free as int / d <= free as int) by (nonlinear_arith)
                requires
                    d >= 1,
                    free >= 0,
            ;
        }
    }
    match al {
        MainAxisAlignment::Start => (0, 0),
        MainAxisAlignment::Center => ((f / 2) as i32, 0),
        MainAxisAlignment::End => (free, 0),
        MainAxisAlignment::SpaceEvenly => {
            let g = (f / (m + 1)) as i32;
            (g, g)
        },
        MainAxisAlignment::SpaceBetween => (
            0,
            if n > 1 {
                (f / (m - 1)) as i32
            } else {
                0
            },
        ),
        MainAxisAlignment::SpaceAround => if n > 0 {
            let g = f / m;
            proof {
                assert(0 <= g as int / 2 <= g as int);
            }
            ((g / 2) as i32, g as i32)
        } else {
            (0, 0)
        },
    }
}

/// Where a child of length `c` starts across a row or column of cross
/// length `total`.
pub fn cross_start(al: CrossAxisAlignment, total: i32, c: i32) -> (r: i32)
    requires
        total >= 0,
        c >= 0,
    ensures
        r == cross_offset(al, total as int, c as int),
{
    let slack: i32 = if total > c {
        total - c
    } else {
        0
    };
    match al {
        CrossAxisAlignment::Start => 0,
        CrossAxisAlignment::Center => slack / 2,
        CrossAxisAlignment::End => slack,
    }
}

/// Where the thumb of a toggle track sits, as `thumb_position` states it.
pub fn place_thumb(width: Px, height: Px, padding: Px, progress: u32, thumb: ComputedData) -> (r:
    PxPosition)
    ensures
        r == thumb_position(width, height, padding, progress, thumb),
{
    let p: i64 = if progress > 1000 {
        1000
    } else {
        progress as i64
    };
    let travel: i64 = width.0 as i64 - thumb.width.0 as i64 - 2 * (padding.0 as i64);
    assert(-1000 * 0x2_0000_0000 <= travel * p <= 1000 * 0x2_0000_0000) by (nonlinear_arith)
        requires
            -0x2_0000_0000 <= travel <= 0x2_0000_0000,
            0 <= p <= 1000,
    ;
    let along: i64 = (travel * p) / 1000;
    let across: i64 = (height.0 as i64 - thumb.height.0 as i64) / 2;
    PxPosition {
        x: Px(saturating_i64(padding.0 as i64 + along)),
        y: Px(saturating_i64(across)),
    }
}

/// What a padded container offers its child is never negative, and a
/// container of fixed length `w` with padding `p` offers exactly
/// `max(w - 2p, 0)`.
pub proof fn lemma_padded_child_never_negative(d: DimensionValue, w: Px, p: Px)
    ensures
        dimension_non_negative(inset_dimension(d, p)),
        w.0 >= 0 && p.0 >= 0 ==> inset_dimension(DimensionValue::Fixed(w), p) == DimensionValue::Fixed(
            Px(
                if w.0 - 2 * p.0 > 0 {
                    (w.0 - 2 * p.0) as i32
                } else {
                    0
                },
            ),
        ),
{
}

} // verus!
