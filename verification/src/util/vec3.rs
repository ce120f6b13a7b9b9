//! Simple vector of three components.

use vstd::prelude::*;

verus! {

/// Three components of one type, addressed as `x`, `y` and `z`.
#[derive(Debug, PartialEq, Eq, Structural)]
pub struct Vec3<N> {
    pub x: N,
    pub y: N,
    pub z: N,
}

impl<N: Copy> Clone for Vec3<N> {
    fn clone(&self) -> (copy: Self)
        ensures
            copy == *self,
    {
        Vec3 { x: self.x, y: self.y, z: self.z }
    }
}

impl<N: Copy> Copy for Vec3<N> {

}

impl<N> Vec3<N> {
    pub fn new(x: N, y: N, z: N) -> (v: Vec3<N>)
        ensures
            v == (Vec3 { x, y, z }),
    {
        Vec3 { x, y, z }
    }

    pub fn new_ng(x: N, y: N, z: N) -> (v: Vec3<N>)
        ensures
            v == (Vec3 { x, y, z }),
    {
        Vec3 { x, y, z }
    }

    pub fn from_tuple(t: (N, N, N)) -> (v: Vec3<N>)
        ensures
            v == (Vec3 { x: t.0, y: t.1, z: t.2 }),
    {
        Vec3 { x: t.0, y: t.1, z: t.2 }
    }

    pub fn x(&self) -> (x: &N)
        ensures
            *x == self.x,
    {
        &self.x
    }

    pub fn y(&self) -> (y: &N)
        ensures
            *y == self.y,
    {
        &self.y
    }

    pub fn z(&self) -> (z: &N)
        ensures
            *z == self.z,
    {
        &self.z
    }

    pub fn x_mut(&mut self) -> (x: &mut N)
        ensures
            *x == old(self).x,
            *final(self) == (Vec3 { x: *final(x), y: old(self).y, z: old(self).z }),
    {
        &mut self.x
    }

    pub fn y_mut(&mut self) -> (y: &mut N)
        ensures
            *y == old(self).y,
            *final(self) == (Vec3 { x: old(self).x, y: *final(y), z: old(self).z }),
    {
        &mut self.y
    }

    pub fn z_mut(&mut self) -> (z: &mut N)
        ensures
            *z == old(self).z,
            *final(self) == (Vec3 { x: old(self).x, y: old(self).y, z: *final(z) }),
    {
        &mut self.z
    }

    /// The component number `index`: `x`, `y` and `z` are the numbers 0, 1
    /// and 2.
    pub open spec fn component(self, index: int) -> N {
        if index == 0 {
            self.x
        } else if index == 1 {
            self.y
        } else {
            self.z
        }
    }

    /// The component number `index`.
    pub fn get(&self, index: usize) -> (c: &N)
        requires
            index < 3,
        ensures
            *c == self.component(index as int),
    {
        if index == 0 {
            &self.x
        } else if index == 1 {
            &self.y
        } else {
            &self.z
        }
    }

    pub fn tuple(self) -> (t: (N, N, N))
        ensures
            t == (self.x, self.y, self.z),
    {
        (self.x, self.y, self.z)
    }

    pub fn tuple_ref(&self) -> (t: (&N, &N, &N))
        ensures
            *t.0 == self.x,
            *t.1 == self.y,
            *t.2 == self.z,
    {
        (&self.x, &self.y, &self.z)
    }
}

/// `v` is a signed 32-bit value.
pub open spec fn fits_i32(v: int) -> bool {
    i32::MIN <= v <= i32::MAX
}

/// The product of two 32-bit values is a 64-bit value.
pub proof fn lemma_product_bound(a: int, b: int)
    requires
        fits_i32(a),
        fits_i32(b),
    ensures
        -0x4000_0000_0000_0000 <= a * b <= 0x4000_0000_0000_0000,
{
    assert(-0x4000_0000_0000_0000 <= a * b <= 0x4000_0000_0000_0000) by (nonlinear_arith)
        requires
            -0x8000_0000 <= a <= 0x7fff_ffff,
            -0x8000_0000 <= b <= 0x7fff_ffff,
    ;
}

impl Vec3<i32> {
    /// Component-wise sum, over the integers.
    pub open spec fn sum(self, rhs: Vec3<i32>) -> (int, int, int) {
        (self.x + rhs.x, self.y + rhs.y, self.z + rhs.z)
    }

    /// Component-wise difference, over the integers.
    pub open spec fn diff(self, rhs: Vec3<i32>) -> (int, int, int) {
        (self.x - rhs.x, self.y - rhs.y, self.z - rhs.z)
    }

    /// The point that holds the three integers of `t`, each of which has to
    /// be a 32-bit value for the result to mean anything.
    pub open spec fn of(t: (int, int, int)) -> Vec3<i32> {
        Vec3 { x: t.0 as i32, y: t.1 as i32, z: t.2 as i32 }
    }

    /// Every component of `t` is a 32-bit value.
    pub open spec fn holds(t: (int, int, int)) -> bool {
        fits_i32(t.0) && fits_i32(t.1) && fits_i32(t.2)
    }

    /// Component-wise sum.
    pub fn plus(self, rhs: Vec3<i32>) -> (v: Vec3<i32>)
        requires
            Self::holds(self.sum(rhs)),
        ensures
            v == Self::of(self.sum(rhs)),
    {
        Vec3 { x: self.x + rhs.x, y: self.y + rhs.y, z: self.z + rhs.z }
    }

    /// Component-wise difference.
    pub fn minus(self, rhs: Vec3<i32>) -> (v: Vec3<i32>)
        requires
            Self::holds(self.diff(rhs)),
        ensures
            v == Self::of(self.diff(rhs)),
    {
        Vec3 { x: self.x - rhs.x, y: self.y - rhs.y, z: self.z - rhs.z }
    }

    /// Component-wise product, over the integers.
    pub open spec fn product(self, rhs: Vec3<i32>) -> (int, int, int) {
        (self.x * rhs.x, self.y * rhs.y, self.z * rhs.z)
    }

    /// Component-wise product.
    pub fn times(self, rhs: Vec3<i32>) -> (v: Vec3<i32>)
        requires
            Self::holds(self.product(rhs)),
        ensures
            v == Self::of(self.product(rhs)),
    {
        proof {
            lemma_product_bound(self.x as int, rhs.x as int);
            lemma_product_bound(self.y as int, rhs.y as int);
            lemma_product_bound(self.z as int, rhs.z as int);
        }
        let x: i128 = (self.x as i128) * (rhs.x as i128);
        let y: i128 = (self.y as i128) * (rhs.y as i128);
        let z: i128 = (self.z as i128) * (rhs.z as i128);
        Vec3 { x: x as i32, y: y as i32, z: z as i32 }
    }

    /// The opposite vector.
    pub fn negated(self) -> (v: Vec3<i32>)
        requires
            self.x > i32::MIN,
            self.y > i32::MIN,
            self.z > i32::MIN,
        ensures
            v == (Vec3 { x: (-self.x) as i32, y: (-self.y) as i32, z: (-self.z) as i32 }),
    {
        Vec3 { x: -self.x, y: -self.y, z: -self.z }
    }

    /// The scalar product, over the integers.
    pub open spec fn dot_spec(self, other: Vec3<i32>) -> int {
        self.x * other.x + self.y * other.y + self.z * other.z
    }

    /// The scalar product of two vectors.
    pub fn dot(self, other: Vec3<i32>) -> (d: i32)
        requires
            fits_i32(self.dot_spec(other)),
        ensures
            d == self.dot_spec(other),
    {
        proof {
            lemma_product_bound(self.x as int, other.x as int);
            lemma_product_bound(self.y as int, other.y as int);
            lemma_product_bound(self.z as int, other.z as int);
        }
        let a: i128 = (self.x as i128) * (other.x as i128);
        let b: i128 = (self.y as i128) * (other.y as i128);
        let c: i128 = (self.z as i128) * (other.z as i128);
        (a + b + c) as i32
    }

    /// The same vector as a size, if no component is negative.
    pub fn try_cast(self) -> (size: Option<Vec3<u32>>)
        ensures
            size is Some <==> (self.x >= 0 && self.y >= 0 && self.z >= 0),
            size matches Some(b) ==> b.x == self.x && b.y == self.y && b.z == self.z,
    {
        if self.x >= 0 && self.y >= 0 && self.z >= 0 {
            Some(Vec3 { x: self.x as u32, y: self.y as u32, z: self.z as u32 })
        } else {
            None
        }
    }

    /// The same vector as a size.
    pub fn cast(self) -> (size: Vec3<u32>)
        requires
            self.x >= 0,
            self.y >= 0,
            self.z >= 0,
        ensures
            size.x == self.x,
            size.y == self.y,
            size.z == self.z,
    {
        Vec3 { x: self.x as u32, y: self.y as u32, z: self.z as u32 }
    }
}

impl Vec3<u32> {
    /// Every component is at most `i32::MAX`.
    pub open spec fn small(self) -> bool {
        self.x <= i32::MAX && self.y <= i32::MAX && self.z <= i32::MAX
    }

    /// The same size as a point, if every component fits.
    pub fn try_cast(self) -> (point: Option<Vec3<i32>>)
        ensures
            point is Some <==> self.small(),
            point matches Some(p) ==> p.x == self.x && p.y == self.y && p.z == self.z,
    {
        if self.x <= 0x7fff_ffff && self.y <= 0x7fff_ffff && self.z <= 0x7fff_ffff {
            Some(Vec3 { x: self.x as i32, y: self.y as i32, z: self.z as i32 })
        } else {
            None
        }
    }

    /// The same size as a point.
    pub fn cast(self) -> (point: Vec3<i32>)
        requires
            self.small(),
        ensures
            point.x == self.x,
            point.y == self.y,
            point.z == self.z,
    {
        Vec3 { x: self.x as i32, y: self.y as i32, z: self.z as i32 }
    }
}

} // verus!
