//! Cube coordinates on the hexagonal grid.
//!
//! A cell of the grid is named by three integers. The same triple also serves
//! as a displacement between two cells, and in particular as one of the six
//! single steps that lead from a cell to a neighbour.
//!
//! [`Hex`] is the mathematical triple, with unbounded components; contracts
//! are stated over it. [`Cord`] is the machine value, and its view is a `Hex`.

use vstd::prelude::*;
use vstd::math::abs;
use vstd::std_specs::ops::AddSpecImpl;
use vstd::std_specs::ops::MulSpecImpl;
use vstd::std_specs::ops::NegSpecImpl;
use vstd::std_specs::ops::SubSpecImpl;

verus! {

/// -1, 0 or 1 as `v` is negative, zero or positive.
pub open spec fn sign(v: int) -> int {
    if v < 0 {
        -1
    } else if v > 0 {
        1
    } else {
        0
    }
}

/// A triple of unbounded integers: a cell of the grid or a displacement.
pub struct Hex {
    pub x: int,
    pub y: int,
    pub z: int,
}

impl Hex {
    /// The sum, component by component.
    pub open spec fn plus(self, o: Hex) -> Hex {
        Hex { x: self.x + o.x, y: self.y + o.y, z: self.z + o.z }
    }

    /// The difference, component by component.
    pub open spec fn minus(self, o: Hex) -> Hex {
        Hex { x: self.x - o.x, y: self.y - o.y, z: self.z - o.z }
    }

    /// The opposite displacement.
    pub open spec fn neg(self) -> Hex {
        Hex { x: -self.x, y: -self.y, z: -self.z }
    }

    /// The displacement taken `k` times.
    pub open spec fn scale(self, k: int) -> Hex {
        Hex { x: self.x * k, y: self.y * k, z: self.z * k }
    }

    /// Every component is a machine integer.
    pub open spec fn fits(self) -> bool {
        &&& isize::MIN <= self.x <= isize::MAX
        &&& isize::MIN <= self.y <= isize::MAX
        &&& isize::MIN <= self.z <= isize::MAX
    }

    /// The displacement that leads nowhere.
    pub open spec fn is_zero(self) -> bool {
        self.x == 0 && self.y == 0 && self.z == 0
    }

    /// The displacement runs along one of the three axes of the grid: one
    /// component is zero and the other two are opposite. The zero
    /// displacement is linear.
    pub open spec fn is_linear(self) -> bool {
        ||| self.x == 0 && self.y + self.z == 0
        ||| self.y == 0 && self.x + self.z == 0
        ||| self.z == 0 && self.x + self.y == 0
    }

    /// The length of the displacement in steps of the grid.
    pub open spec fn size(self) -> nat {
        (abs(self.x) + abs(self.y) + abs(self.z)) / 2
    }

    /// One of the six single steps.
    pub open spec fn is_unit(self) -> bool {
        self.is_linear() && self.size() == 1
    }

    /// The straight line from `self` to `o` runs along an axis of the grid.
    pub open spec fn is_linear_to(self, o: Hex) -> bool {
        o.minus(self).is_linear()
    }

    /// The number of single steps between `self` and `o`.
    pub open spec fn distance(self, o: Hex) -> nat {
        o.minus(self).size()
    }

    /// The sign of each component of the way from `self` to `o`. Where the two
    /// lie on a line and differ, this is the single step that leads from
    /// `self` towards `o`.
    pub open spec fn dir(self, o: Hex) -> Hex {
        Hex { x: sign(o.x - self.x), y: sign(o.y - self.y), z: sign(o.z - self.z) }
    }

    /// The cells from `self` to `o`, both included, for two cells on a line.
    pub open spec fn line(self, o: Hex) -> Seq<Hex> {
        Seq::new(
            (self.distance(o) + 1) as nat,
            |i: int| self.plus(self.dir(o).scale(i)),
        )
    }
}

/// `sign(v) * k` is `k`, `-k` or 0.
proof fn lemma_sign_times(v: int, k: int)
    ensures
        v > 0 ==> sign(v) * k == k,
        v < 0 ==> sign(v) * k == -k,
        v == 0 ==> sign(v) * k == 0,
{
}

/// The six single steps are the triples made of 1, -1 and 0.
pub proof fn lemma_unit_steps(d: Hex)
    ensures
        d.is_unit() <==> {
            ||| d == (Hex { x: 1, y: -1, z: 0 })
            ||| d == (Hex { x: -1, y: 1, z: 0 })
            ||| d == (Hex { x: 1, y: 0, z: -1 })
            ||| d == (Hex { x: -1, y: 0, z: 1 })
            ||| d == (Hex { x: 0, y: 1, z: -1 })
            ||| d == (Hex { x: 0, y: -1, z: 1 })
        },
{
}

/// Two cells on a line are joined by `distance` steps of `dir`, and `dir` is a
/// single step unless the two cells are the same.
pub proof fn lemma_line_ends(a: Hex, b: Hex)
    requires
        a.is_linear_to(b),
    ensures
        a.distance(b) == 0 <==> a == b,
        a != b ==> a.dir(b).is_unit(),
        a == b ==> a.dir(b).is_zero(),
        b == a.plus(a.dir(b).scale(a.distance(b) as int)),
{
    let d = b.minus(a);
    let n = a.distance(b) as int;
    lemma_sign_times(d.x, n);
    lemma_sign_times(d.y, n);
    lemma_sign_times(d.z, n);
}

/// One more step along `d`.
pub proof fn lemma_scale_next(d: Hex, k: int)
    ensures
        d.scale(k + 1) == d.scale(k).plus(d),
        d.scale(k - 1) == d.scale(k).minus(d),
        d.scale(0).is_zero(),
        d.scale(1) == d,
{
    assert(d.x * (k + 1) == d.x * k + d.x) by (nonlinear_arith);
    assert(d.y * (k + 1) == d.y * k + d.y) by (nonlinear_arith);
    assert(d.z * (k + 1) == d.z * k + d.z) by (nonlinear_arith);
    assert(d.x * (k - 1) == d.x * k - d.x) by (nonlinear_arith);
    assert(d.y * (k - 1) == d.y * k - d.y) by (nonlinear_arith);
    assert(d.z * (k - 1) == d.z * k - d.z) by (nonlinear_arith);
}

/// Only zero steps of a single step lead nowhere.
pub proof fn lemma_scale_zero(d: Hex, k: int)
    requires
        d.is_unit(),
        d.scale(k).is_zero(),
    ensures
        k == 0,
{
    lemma_unit_steps(d);
}

/// Every cell of a line lies between its two ends, component by component.
pub proof fn lemma_line_inside(a: Hex, b: Hex, i: int)
    requires
        a.is_linear_to(b),
        0 <= i <= a.distance(b),
    ensures
        ({
            let c = a.plus(a.dir(b).scale(i));
            &&& (a.x <= c.x <= b.x || b.x <= c.x <= a.x)
            &&& (a.y <= c.y <= b.y || b.y <= c.y <= a.y)
            &&& (a.z <= c.z <= b.z || b.z <= c.z <= a.z)
        }),
{
    let d = b.minus(a);
    let n = a.distance(b) as int;
    lemma_sign_times(d.x, n);
    lemma_sign_times(d.y, n);
    lemma_sign_times(d.z, n);
    lemma_sign_times(d.x, i);
    lemma_sign_times(d.y, i);
    lemma_sign_times(d.z, i);
}

/// A coordinate of the grid in cube form, or a displacement.
///
/// Nothing ties the three components together: that they sum to zero for a
/// cell of the board is left to the caller.
#[derive(Clone, Copy, Debug, PartialEq, Eq, Structural)]
pub struct Cord(pub isize, pub isize, pub isize);

impl View for Cord {
    type V = Hex;

    open spec fn view(&self) -> Hex {
        Hex { x: self.0 as int, y: self.1 as int, z: self.2 as int }
    }
}

impl AddSpecImpl for Cord {
    open spec fn obeys_add_spec() -> bool {
        true
    }

    open spec fn add_req(self, rhs: Cord) -> bool {
        self@.plus(rhs@).fits()
    }

    open spec fn add_spec(self, rhs: Cord) -> Cord {
        Cord((self.0 + rhs.0) as isize, (self.1 + rhs.1) as isize, (self.2 + rhs.2) as isize)
    }
}

impl core::ops::Add for Cord {
    type Output = Cord;

    /// `self + rhs`, where the sum fits.
    fn add(self, rhs: Cord) -> (sum: Cord)
        ensures
            sum@ == self@.plus(rhs@),
    {
        Cord(self.0 + rhs.0, self.1 + rhs.1, self.2 + rhs.2)
    }
}

impl SubSpecImpl for Cord {
    open spec fn obeys_sub_spec() -> bool {
        true
    }

    open spec fn sub_req(self, rhs: Cord) -> bool {
        self@.minus(rhs@).fits()
    }

    open spec fn sub_spec(self, rhs: Cord) -> Cord {
        Cord((self.0 - rhs.0) as isize, (self.1 - rhs.1) as isize, (self.2 - rhs.2) as isize)
    }
}

impl core::ops::Sub for Cord {
    type Output = Cord;

    /// `self - rhs`, where the difference fits.
    fn sub(self, rhs: Cord) -> (diff: Cord)
        ensures
            diff@ == self@.minus(rhs@),
    {
        Cord(self.0 - rhs.0, self.1 - rhs.1, self.2 - rhs.2)
    }
}

impl NegSpecImpl for Cord {
    open spec fn obeys_neg_spec() -> bool {
        true
    }

    open spec fn neg_req(self) -> bool {
        self@.neg().fits()
    }

    open spec fn neg_spec(self) -> Cord {
        Cord((-self.0) as isize, (-self.1) as isize, (-self.2) as isize)
    }
}

impl core::ops::Neg for Cord {
    type Output = Cord;

    /// `-self`, where no component is the least machine integer.
    fn neg(self) -> (opposite: Cord)
        ensures
            opposite@ == self@.neg(),
    {
        Cord(-self.0, -self.1, -self.2)
    }
}

impl MulSpecImpl<isize> for Cord {
    open spec fn obeys_mul_spec() -> bool {
        true
    }

    open spec fn mul_req(self, rhs: isize) -> bool {
        self@.scale(rhs as int).fits()
    }

    open spec fn mul_spec(self, rhs: isize) -> Cord {
        Cord((self.0 * rhs) as isize, (self.1 * rhs) as isize, (self.2 * rhs) as isize)
    }
}

impl core::ops::Mul<isize> for Cord {
    type Output = Cord;

    /// `self * rhs`, where the product fits.
    fn mul(self, rhs: isize) -> (product: Cord)
        ensures
            product@ == self@.scale(rhs as int),
    {
        Cord(self.0 * rhs, self.1 * rhs, self.2 * rhs)
    }
}

/// The absolute value of a machine integer, in a type wide enough for it.
fn magnitude(v: i128) -> (m: i128)
    requires
        2 * (isize::MIN as int) <= v <= 2 * (isize::MAX as int) + 1,
    ensures
        m == abs(v as int),
{
    if v < 0 {
        -v
    } else {
        v
    }
}

/// The sign of the way from `a` to `b`.
fn toward(a: isize, b: isize) -> (s: isize)
    ensures
        s == sign(b - a),
{
    if b > a {
        1
    } else if b < a {
        -1
    } else {
        0
    }
}

impl Cord {
    /// The sum of the two, or `None` where a component of it is no machine
    /// integer.
    pub fn checked_add(self, rhs: Cord) -> (sum: Option<Cord>)
        ensures
            self@.plus(rhs@).fits() ==> sum.is_some() && sum.unwrap()@ == self@.plus(rhs@),
            !self@.plus(rhs@).fits() ==> sum.is_none(),
    {
        match (self.0.checked_add(rhs.0), self.1.checked_add(rhs.1), self.2.checked_add(rhs.2)) {
            (Some(x), Some(y), Some(z)) => Some(Cord(x, y, z)),
            _ => None,
        }
    }

    /// Whether the displacement runs along an axis of the grid.
    pub fn is_linear_vec(self) -> (linear: bool)
        ensures
            linear == self@.is_linear(),
    {
        let x: i128 = self.0 as i128;
        let y: i128 = self.1 as i128;
        let z: i128 = self.2 as i128;
        (x == 0 && y + z == 0) || (y == 0 && x + z == 0) || (z == 0 && x + y == 0)
    }

    /// The length of the displacement in steps of the grid.
    pub fn vec_size(self) -> (n: usize)
        ensures
            n == self@.size(),
    {
        let x: i128 = magnitude(self.0 as i128);
        let y: i128 = magnitude(self.1 as i128);
        let z: i128 = magnitude(self.2 as i128);
        ((x + y + z) / 2) as usize
    }

    /// Whether the displacement is one of the six single steps.
    pub fn is_unit_direction(self) -> (unit: bool)
        ensures
            unit == self@.is_unit(),
    {
        self.is_linear_vec() && self.vec_size() == 1
    }

    /// Whether the straight line from `self` to `other` runs along an axis of
    /// the grid.
    pub fn is_linear_to(self, other: Cord) -> (linear: bool)
        ensures
            linear == self@.is_linear_to(other@),
    {
        let x: i128 = other.0 as i128 - self.0 as i128;
        let y: i128 = other.1 as i128 - self.1 as i128;
        let z: i128 = other.2 as i128 - self.2 as i128;
        (x == 0 && y + z == 0) || (y == 0 && x + z == 0) || (z == 0 && x + y == 0)
    }

    /// The number of single steps between `self` and `other`, where that
    /// number is a machine integer.
    pub fn distance(self, other: Cord) -> (n: usize)
        requires
            self@.distance(other@) <= usize::MAX,
        ensures
            n == self@.distance(other@),
    {
        let x: i128 = magnitude(other.0 as i128 - self.0 as i128);
        let y: i128 = magnitude(other.1 as i128 - self.1 as i128);
        let z: i128 = magnitude(other.2 as i128 - self.2 as i128);
        ((x + y + z) / 2) as usize
    }

    /// The single step that leads from `self` towards `other`, for two cells
    /// on a line; the zero displacement where they are the same cell.
    pub fn dir(self, other: Cord) -> (d: Cord)
        requires
            self@.is_linear_to(other@),
        ensures
            d@ == self@.dir(other@),
            self@ != other@ ==> d@.is_unit(),
            self@ == other@ ==> d@.is_zero(),
            other@ == self@.plus(d@.scale(self@.distance(other@) as int)),
    {
        proof {
            lemma_line_ends(self@, other@);
        }
        Cord(toward(self.0, other.0), toward(self.1, other.1), toward(self.2, other.2))
    }

    /// The cells from `self` to `other`, both included and in that order, for
    /// two cells on a line.
    pub fn linedraw(self, other: Cord) -> (cells: Vec<Cord>)
        requires
            self@.is_linear_to(other@),
            self@.distance(other@) < usize::MAX,
        ensures
            cells@.len() == self@.distance(other@) + 1,
            forall|i: int|
                0 <= i < cells@.len() ==> (#[trigger] cells@[i])@ == self@.line(other@)[i],
            cells@[0] == self,
            cells@[cells@.len() - 1] == other,
    {
        proof {
            lemma_line_ends(self@, other@);
            lemma_scale_next(self@.dir(other@), 0);
        }
        let step: Cord = self.dir(other);
        let n: usize = self.distance(other);
        let mut cells: Vec<Cord> = Vec::new();
        let mut cur: Cord = self;
        let mut i: usize = 0;
        while i < n
            invariant
                self@.is_linear_to(other@),
                n == self@.distance(other@),
                n < usize::MAX,
                step@ == self@.dir(other@),
                i <= n,
                cur@ == self@.plus(step@.scale(i as int)),
                cells@.len() == i,
                forall|k: int| 0 <= k < i ==> (#[trigger] cells@[k])@ == self@.line(other@)[k],
            decreases n - i,
        {
            proof {
                lemma_line_inside(self@, other@, i + 1);
                lemma_scale_next(step@, i as int);
            }
            cells.push(cur);
            cur = cur + step;
            i = i + 1;
        }
        cells.push(cur);
        cells
    }
}

} // verus!
