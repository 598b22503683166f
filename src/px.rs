use vstd::prelude::*;

verus! {

/// `x` pushed into the range of `i32`: what saturating `i32` arithmetic yields.
pub open spec fn saturate(x: int) -> int {
    if x < i32::MIN {
        i32::MIN as int
    } else if x > i32::MAX {
        i32::MAX as int
    } else {
        x
    }
}

/// Whether `x` is representable as an `i32`.
pub open spec fn fits_i32(x: int) -> bool {
    i32::MIN <= x <= i32::MAX
}

/// A length or coordinate in physical pixels; negative values occur for
/// scrolled content.
#[derive(Debug, Default, Clone, Copy, PartialEq, Eq, PartialOrd, Ord, Hash, Structural)]
pub struct Px(pub i32);

impl Px {
    /// The raw pixel count.
    pub fn raw(self) -> (r: i32)
        ensures
            r == self.0,
    {
        self.0
    }

    pub fn new(value: i32) -> (r: Px)
        ensures
            r.0 == value,
    {
        Px(value)
    }

    /// The value floored at zero, as an unsigned count (used where a
    /// coordinate must address a pixel grid).
    pub fn abs(self) -> (r: u32)
        ensures
            r as int == if self.0 < 0 { 0 } else { self.0 as int },
    {
        if self.0 < 0 {
            0
        } else {
            self.0 as u32
        }
    }

    /// `self + rhs`, saturating at the bounds of `i32`.
    pub fn saturating_add(self, rhs: Px) -> (r: Px)
        ensures
            r.0 as int == saturate(self.0 + rhs.0),
    {
        let s: i64 = self.0 as i64 + rhs.0 as i64;
        if s > i32::MAX as i64 {
            Px(i32::MAX)
        } else if s < i32::MIN as i64 {
            Px(i32::MIN)
        } else {
            Px(s as i32)
        }
    }

    /// `self - rhs`, saturating at the bounds of `i32`.
    pub fn saturating_sub(self, rhs: Px) -> (r: Px)
        ensures
            r.0 as int == saturate(self.0 - rhs.0),
    {
        let s: i64 = self.0 as i64 - rhs.0 as i64;
        if s > i32::MAX as i64 {
            Px(i32::MAX)
        } else if s < i32::MIN as i64 {
            Px(i32::MIN)
        } else {
            Px(s as i32)
        }
    }

    /// The larger of two lengths.
    pub fn max(self, other: Px) -> (r: Px)
        ensures
            r.0 == if self.0 >= other.0 { self.0 } else { other.0 },
    {
        if self.0 >= other.0 {
            self
        } else {
            other
        }
    }

    /// The smaller of two lengths.
    pub fn min(self, other: Px) -> (r: Px)
        ensures
            r.0 == if self.0 <= other.0 { self.0 } else { other.0 },
    {
        if self.0 <= other.0 {
            self
        } else {
            other
        }
    }
}

impl core::ops::Add for Px {
    type Output = Px;

    fn add(self, rhs: Px) -> (r: Px) {
        Px(self.0 + rhs.0)
    }
}

impl vstd::std_specs::ops::AddSpecImpl for Px {
    open spec fn obeys_add_spec() -> bool {
        true
    }

    open spec fn add_req(self, rhs: Px) -> bool {
        fits_i32(self.0 + rhs.0)
    }

    open spec fn add_spec(self, rhs: Px) -> Px {
        Px((self.0 + rhs.0) as i32)
    }
}

impl core::ops::Sub for Px {
    type Output = Px;

    fn sub(self, rhs: Px) -> (r: Px) {
        Px(self.0 - rhs.0)
    }
}

impl vstd::std_specs::ops::SubSpecImpl for Px {
    open spec fn obeys_sub_spec() -> bool {
        true
    }

    open spec fn sub_req(self, rhs: Px) -> bool {
        fits_i32(self.0 - rhs.0)
    }

    open spec fn sub_spec(self, rhs: Px) -> Px {
        Px((self.0 - rhs.0) as i32)
    }
}

impl core::ops::Mul<i32> for Px {
    type Output = Px;

    fn mul(self, rhs: i32) -> (r: Px) {
        Px(self.0 * rhs)
    }
}

impl vstd::std_specs::ops::MulSpecImpl<i32> for Px {
    open spec fn obeys_mul_spec() -> bool {
        true
    }

    open spec fn mul_req(self, rhs: i32) -> bool {
        fits_i32(self.0 * rhs)
    }

    open spec fn mul_spec(self, rhs: i32) -> Px {
        Px((self.0 * rhs) as i32)
    }
}

/// Division of `x` by `d` rounding toward zero, as Rust's `/` on integers.
pub open spec fn div_toward_zero(x: int, d: int) -> int {
    if x >= 0 {
        x / d
    } else {
        -((-x) / d)
    }
}

impl core::ops::Div<i32> for Px {
    type Output = Px;

    fn div(self, rhs: i32) -> (r: Px) {
        Px(self.0 / rhs)
    }
}

impl vstd::std_specs::ops::DivSpecImpl<i32> for Px {
    open spec fn obeys_div_spec() -> bool {
        true
    }

    open spec fn div_req(self, rhs: i32) -> bool {
        rhs != 0 && !(self.0 == i32::MIN && rhs == -1)
    }

    open spec fn div_spec(self, rhs: i32) -> Px {
        Px(div_toward_zero(self.0 as int, rhs as int) as i32)
    }
}

impl core::ops::Neg for Px {
    type Output = Px;

    fn neg(self) -> (r: Px) {
        Px(-self.0)
    }
}

impl vstd::std_specs::ops::NegSpecImpl for Px {
    open spec fn obeys_neg_spec() -> bool {
        true
    }

    open spec fn neg_req(self) -> bool {
        self.0 != i32::MIN
    }

    open spec fn neg_spec(self) -> Px {
        Px((-self.0) as i32)
    }
}

impl From<i32> for Px {
    fn from(value: i32) -> (r: Px) {
        Px(value)
    }
}

impl vstd::std_specs::convert::FromSpecImpl<i32> for Px {
    open spec fn obeys_from_spec() -> bool {
        true
    }

    open spec fn from_spec(value: i32) -> Px {
        Px(value)
    }
}

/// Pixel counts above `i32::MAX` wrap, as an `as` cast does.
impl From<u32> for Px {
    fn from(value: u32) -> (r: Px) {
        Px(value as i32)
    }
}

impl vstd::std_specs::convert::FromSpecImpl<u32> for Px {
    open spec fn obeys_from_spec() -> bool {
        true
    }

    open spec fn from_spec(value: u32) -> Px {
        Px(value as i32)
    }
}

/// A position in physical pixels.
#[derive(Debug, Clone, Copy, PartialEq, Eq, Hash, Structural)]
pub struct PxPosition {
    pub x: Px,
    pub y: Px,
}

impl PxPosition {
    pub fn new(x: Px, y: Px) -> (r: PxPosition)
        ensures
            r.x == x,
            r.y == y,
    {
        PxPosition { x, y }
    }

    /// The position moved by `(dx, dy)`; the sums must fit in `i32`.
    pub fn offset(self, dx: Px, dy: Px) -> (r: PxPosition)
        requires
            fits_i32(self.x.0 + dx.0),
            fits_i32(self.y.0 + dy.0),
        ensures
            r.x.0 == self.x.0 + dx.0,
            r.y.0 == self.y.0 + dy.0,
    {
        PxPosition { x: self.x + dx, y: self.y + dy }
    }

    /// The position moved by `(dx, dy)`, each coordinate saturating at the
    /// bounds of `i32`.
    pub fn saturating_offset(self, dx: Px, dy: Px) -> (r: PxPosition)
        ensures
            r.x.0 as int == saturate(self.x.0 + dx.0),
            r.y.0 as int == saturate(self.y.0 + dy.0),
    {
        PxPosition { x: self.x.saturating_add(dx), y: self.y.saturating_add(dy) }
    }
}

impl core::ops::Add for PxPosition {
    type Output = PxPosition;

    fn add(self, rhs: PxPosition) -> (r: PxPosition) {
        PxPosition { x: self.x + rhs.x, y: self.y + rhs.y }
    }
}

impl vstd::std_specs::ops::AddSpecImpl for PxPosition {
    open spec fn obeys_add_spec() -> bool {
        true
    }

    open spec fn add_req(self, rhs: PxPosition) -> bool {
        fits_i32(self.x.0 + rhs.x.0) && fits_i32(self.y.0 + rhs.y.0)
    }

    open spec fn add_spec(self, rhs: PxPosition) -> PxPosition {
        PxPosition { x: Px((self.x.0 + rhs.x.0) as i32), y: Px((self.y.0 + rhs.y.0) as i32) }
    }
}

impl core::ops::Sub for PxPosition {
    type Output = PxPosition;

    fn sub(self, rhs: PxPosition) -> (r: PxPosition) {
        PxPosition { x: self.x - rhs.x, y: self.y - rhs.y }
    }
}

impl vstd::std_specs::ops::SubSpecImpl for PxPosition {
    open spec fn obeys_sub_spec() -> bool {
        true
    }

    open spec fn sub_req(self, rhs: PxPosition) -> bool {
        fits_i32(self.x.0 - rhs.x.0) && fits_i32(self.y.0 - rhs.y.0)
    }

    open spec fn sub_spec(self, rhs: PxPosition) -> PxPosition {
        PxPosition { x: Px((self.x.0 - rhs.x.0) as i32), y: Px((self.y.0 - rhs.y.0) as i32) }
    }
}

impl From<[i32; 2]> for PxPosition {
    fn from(pos: [i32; 2]) -> (r: PxPosition) {
        PxPosition { x: Px(pos[0]), y: Px(pos[1]) }
    }
}

impl vstd::std_specs::convert::FromSpecImpl<[i32; 2]> for PxPosition {
    open spec fn obeys_from_spec() -> bool {
        true
    }

    open spec fn from_spec(pos: [i32; 2]) -> PxPosition {
        PxPosition { x: Px(pos@[0]), y: Px(pos@[1]) }
    }
}

impl From<PxPosition> for [i32; 2] {
    fn from(pos: PxPosition) -> (r: [i32; 2]) {
        [pos.x.0, pos.y.0]
    }
}

impl vstd::std_specs::convert::FromSpecImpl<PxPosition> for [i32; 2] {
    open spec fn obeys_from_spec() -> bool {
        true
    }

    open spec fn from_spec(pos: PxPosition) -> [i32; 2] {
        [pos.x.0, pos.y.0]
    }
}

/// Coordinates above `i32::MAX` wrap, as an `as` cast does.
impl From<[u32; 2]> for PxPosition {
    fn from(pos: [u32; 2]) -> (r: PxPosition) {
        PxPosition { x: Px(pos[0] as i32), y: Px(pos[1] as i32) }
    }
}

impl vstd::std_specs::convert::FromSpecImpl<[u32; 2]> for PxPosition {
    open spec fn obeys_from_spec() -> bool {
        true
    }

    open spec fn from_spec(pos: [u32; 2]) -> PxPosition {
        PxPosition { x: Px(pos@[0] as i32), y: Px(pos@[1] as i32) }
    }
}

/// Negative coordinates become zero.
impl From<PxPosition> for [u32; 2] {
    fn from(pos: PxPosition) -> (r: [u32; 2]) {
        [pos.x.abs(), pos.y.abs()]
    }
}

/// A coordinate floored at zero, as `Px::abs` computes it.
pub open spec fn floor_zero_u32(v: i32) -> u32 {
    if v < 0 {
        0
    } else {
        v as u32
    }
}

impl vstd::std_specs::convert::FromSpecImpl<PxPosition> for [u32; 2] {
    open spec fn obeys_from_spec() -> bool {
        true
    }

    open spec fn from_spec(pos: PxPosition) -> [u32; 2] {
        [floor_zero_u32(pos.x.0), floor_zero_u32(pos.y.0)]
    }
}

impl From<[Px; 2]> for PxPosition {
    fn from(pos: [Px; 2]) -> (r: PxPosition) {
        PxPosition { x: pos[0], y: pos[1] }
    }
}

impl vstd::std_specs::convert::FromSpecImpl<[Px; 2]> for PxPosition {
    open spec fn obeys_from_spec() -> bool {
        true
    }

    open spec fn from_spec(pos: [Px; 2]) -> PxPosition {
        PxPosition { x: pos@[0], y: pos@[1] }
    }
}

impl From<PxPosition> for [Px; 2] {
    fn from(pos: PxPosition) -> (r: [Px; 2]) {
        [pos.x, pos.y]
    }
}

impl vstd::std_specs::convert::FromSpecImpl<PxPosition> for [Px; 2] {
    open spec fn obeys_from_spec() -> bool {
        true
    }

    open spec fn from_spec(pos: PxPosition) -> [Px; 2] {
        [pos.x, pos.y]
    }
}

/// A size in physical pixels.
#[derive(Debug, Default, Clone, Copy, PartialEq, Eq, Hash, Structural)]
pub struct PxSize {
    pub width: Px,
    pub height: Px,
}

impl PxSize {
    pub fn new(width: Px, height: Px) -> (r: PxSize)
        ensures
            r.width == width,
            r.height == height,
    {
        PxSize { width, height }
    }
}

impl From<[Px; 2]> for PxSize {
    fn from(size: [Px; 2]) -> (r: PxSize) {
        PxSize { width: size[0], height: size[1] }
    }
}

impl vstd::std_specs::convert::FromSpecImpl<[Px; 2]> for PxSize {
    open spec fn obeys_from_spec() -> bool {
        true
    }

    open spec fn from_spec(size: [Px; 2]) -> PxSize {
        PxSize { width: size@[0], height: size@[1] }
    }
}

} // verus!
