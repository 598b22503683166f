use vstd::prelude::*;

use crate::px::Px;

verus! {

/// How a node sizes itself along one axis.
#[derive(Debug, Clone, Copy, PartialEq, Eq, Hash, Structural)]
pub enum DimensionValue {
    /// Exactly this length.
    Fixed(Px),
    /// The size of the content, optionally bounded below and above.
    Wrap { min: Option<Px>, max: Option<Px> },
    /// All the space the parent offers, optionally bounded below and above.
    Fill { min: Option<Px>, max: Option<Px> },
}

/// A pair of per-axis sizing instructions.
#[derive(Debug, Clone, Copy, PartialEq, Eq, Hash, Structural)]
pub struct Constraint {
    pub width: DimensionValue,
    pub height: DimensionValue,
}

/// `p`, or zero where `p` is negative.
pub open spec fn non_negative(p: Px) -> Px {
    if p.0 < 0 {
        Px(0)
    } else {
        p
    }
}

pub open spec fn non_negative_opt(o: Option<Px>) -> Option<Px> {
    match o {
        Some(p) => Some(non_negative(p)),
        None => None,
    }
}

/// The tighter of two optional upper bounds; `None` stands for no bound.
pub open spec fn tighter(a: Option<Px>, b: Option<Px>) -> Option<Px> {
    match (a, b) {
        (Some(x), Some(y)) => Some(smaller(x, y)),
        (Some(x), None) => Some(x),
        (None, y) => y,
    }
}

/// The smaller of two lengths.
pub open spec fn smaller(a: Px, b: Px) -> Px {
    if a.0 <= b.0 {
        a
    } else {
        b
    }
}

/// The upper bound that a dimension offered by a parent supplies, if any.
pub open spec fn upper_bound(d: DimensionValue) -> Option<Px> {
    match d {
        DimensionValue::Fixed(v) => Some(v),
        DimensionValue::Wrap { max, .. } => max,
        DimensionValue::Fill { max, .. } => max,
    }
}

/// The effective dimension of a node that asks for `own` when its parent
/// offers `offered`; every length of the result is at least zero.
pub open spec fn merge_dimension_spec(own: DimensionValue, offered: DimensionValue) -> DimensionValue {
    match own {
        DimensionValue::Fixed(a) => DimensionValue::Fixed(non_negative(a)),
        DimensionValue::Wrap { min, max } => DimensionValue::Wrap {
            min: non_negative_opt(min),
            max: non_negative_opt(tighter(max, upper_bound(offered))),
        },
        DimensionValue::Fill { min, max } => match offered {
            DimensionValue::Fixed(p) => DimensionValue::Fixed(non_negative(p)),
            DimensionValue::Fill { max: Some(pm), .. } => DimensionValue::Fill {
                min: non_negative_opt(min),
                max: non_negative_opt(tighter(max, Some(pm))),
            },
            _ => DimensionValue::Wrap {
                min: non_negative_opt(min),
                max: non_negative_opt(tighter(max, upper_bound(offered))),
            },
        },
    }
}

pub open spec fn merge_spec(own: Constraint, offered: Constraint) -> Constraint {
    Constraint {
        width: merge_dimension_spec(own.width, offered.width),
        height: merge_dimension_spec(own.height, offered.height),
    }
}

/// No length of `d` is negative.
pub open spec fn dimension_non_negative(d: DimensionValue) -> bool {
    match d {
        DimensionValue::Fixed(v) => v.0 >= 0,
        DimensionValue::Wrap { min, max } => (min matches Some(m) ==> m.0 >= 0) && (max matches Some(
            m,
        ) ==> m.0 >= 0),
        DimensionValue::Fill { min, max } => (min matches Some(m) ==> m.0 >= 0) && (max matches Some(
            m,
        ) ==> m.0 >= 0),
    }
}

pub open spec fn constraint_non_negative(c: Constraint) -> bool {
    dimension_non_negative(c.width) && dimension_non_negative(c.height)
}

fn clamp_zero(p: Px) -> (r: Px)
    ensures
        r == non_negative(p),
{
    if p.0 < 0 {
        Px(0)
    } else {
        p
    }
}

fn clamp_zero_opt(o: Option<Px>) -> (r: Option<Px>)
    ensures
        r == non_negative_opt(o),
{
    match o {
        Some(p) => Some(clamp_zero(p)),
        None => None,
    }
}

fn tighter_bound(a: Option<Px>, b: Option<Px>) -> (r: Option<Px>)
    ensures
        r == tighter(a, b),
{
    match (a, b) {
        (Some(x), Some(y)) => Some(
            if x.0 <= y.0 {
                x
            } else {
                y
            },
        ),
        (Some(x), None) => Some(x),
        (None, y) => y,
    }
}

impl DimensionValue {
    /// An unbounded `Wrap`.
    pub fn wrap_unbounded() -> (r: DimensionValue)
        ensures
            r == (DimensionValue::Wrap { min: None, max: None }),
    {
        DimensionValue::Wrap { min: None, max: None }
    }

    /// The upper bound this dimension supplies when offered to a child.
    pub fn upper_bound(&self) -> (r: Option<Px>)
        ensures
            r == upper_bound(*self),
    {
        match *self {
            DimensionValue::Fixed(v) => Some(v),
            DimensionValue::Wrap { max, .. } => max,
            DimensionValue::Fill { max, .. } => max,
        }
    }

    /// The effective dimension when `self` is asked for and `offered` is
    /// what the parent offers.
    pub fn merge(&self, offered: &DimensionValue) -> (r: DimensionValue)
        ensures
            r == merge_dimension_spec(*self, *offered),
            dimension_non_negative(r),
    {
        match *self {
            DimensionValue::Fixed(a) => DimensionValue::Fixed(clamp_zero(a)),
            DimensionValue::Wrap { min, max } => DimensionValue::Wrap {
                min: clamp_zero_opt(min),
                max: clamp_zero_opt(tighter_bound(max, offered.upper_bound())),
            },
            DimensionValue::Fill { min, max } => match *offered {
                DimensionValue::Fixed(p) => DimensionValue::Fixed(clamp_zero(p)),
                DimensionValue::Fill { max: Some(pm), .. } => DimensionValue::Fill {
                    min: clamp_zero_opt(min),
                    max: clamp_zero_opt(tighter_bound(max, Some(pm))),
                },
                _ => DimensionValue::Wrap {
                    min: clamp_zero_opt(min),
                    max: clamp_zero_opt(tighter_bound(max, offered.upper_bound())),
                },
            },
        }
    }
}

impl Constraint {
    pub fn new(width: DimensionValue, height: DimensionValue) -> (r: Constraint)
        ensures
            r.width == width,
            r.height == height,
    {
        Constraint { width, height }
    }

    /// A constraint that asks for nothing: unbounded `Wrap` on both axes.
    pub fn none() -> (r: Constraint)
        ensures
            r.width == (DimensionValue::Wrap { min: None, max: None }),
            r.height == (DimensionValue::Wrap { min: None, max: None }),
    {
        Constraint { width: DimensionValue::wrap_unbounded(), height: DimensionValue::wrap_unbounded() }
    }

    /// The effective constraint of a node that asks for `self` under a
    /// parent that offers `offered`, axis by axis.
    pub fn merge(&self, offered: &Constraint) -> (r: Constraint)
        ensures
            r == merge_spec(*self, *offered),
            constraint_non_negative(r),
    {
        Constraint { width: self.width.merge(&offered.width), height: self.height.merge(&offered.height) }
    }
}

/// A node that asks for a fixed length gets exactly that length, whatever its
/// parent offers.
pub proof fn lemma_fixed_is_kept(a: Px, offered: DimensionValue)
    requires
        a.0 >= 0,
    ensures
        merge_dimension_spec(DimensionValue::Fixed(a), offered) == DimensionValue::Fixed(a),
{
}

/// A wrapping node keeps wrapping; its upper bound becomes the tighter of its
/// own and the one its parent supplies, and stays absent when neither has one.
pub proof fn lemma_wrap_takes_tighter_bound(
    min: Option<Px>,
    max: Option<Px>,
    offered: DimensionValue,
)
    requires
        dimension_non_negative(DimensionValue::Wrap { min, max }),
        dimension_non_negative(offered),
    ensures
        merge_dimension_spec(DimensionValue::Wrap { min, max }, offered) == (DimensionValue::Wrap {
            min,
            max: tighter(max, upper_bound(offered)),
        }),
        max is None && upper_bound(offered) is None ==> merge_dimension_spec(
            DimensionValue::Wrap { min, max },
            offered,
        ) == (DimensionValue::Wrap { min, max: None }),
        max is Some && upper_bound(offered) is Some ==> merge_dimension_spec(
            DimensionValue::Wrap { min, max },
            offered,
        ) == (DimensionValue::Wrap {
            min,
            max: Some(smaller(max.unwrap(), upper_bound(offered).unwrap())),
        }),
{
}

/// A filling node under a parent of fixed length takes exactly that length.
pub proof fn lemma_fill_takes_fixed_parent(min: Option<Px>, max: Option<Px>, p: Px)
    requires
        p.0 >= 0,
    ensures
        merge_dimension_spec(DimensionValue::Fill { min, max }, DimensionValue::Fixed(p))
            == DimensionValue::Fixed(p),
{
}

/// A filling node under a parent that offers no bound has nothing to fill and
/// wraps its content within its own bounds.
pub proof fn lemma_fill_without_bound_wraps(min: Option<Px>, max: Option<Px>)
    requires
        dimension_non_negative(DimensionValue::Fill { min, max }),
    ensures
        merge_dimension_spec(
            DimensionValue::Fill { min, max },
            DimensionValue::Wrap { min: None, max: None },
        ) == (DimensionValue::Wrap { min, max }),
{
}

} // verus!
