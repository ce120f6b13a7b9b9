//! Integer matrices with three rows and three columns.

use vstd::prelude::*;
use crate::util::vec3::{fits_i32, lemma_product_bound, Vec3};

verus! {

/// Mathematical matrix with size 3 by 3. Contains numbers of type `i32`.
#[derive(Clone, Copy, Debug, PartialEq, Eq)]
pub struct Mat3x3 {
    pub values: [[i32; 3]; 3],
}

/// Sine of `ang` quarter turns.
pub open spec fn quarter_sin_spec(ang: int) -> int {
    let q = ang % 4;
    if q == 1 {
        1
    } else if q == 3 {
        -1
    } else {
        0
    }
}

/// Cosine of `ang` quarter turns.
pub open spec fn quarter_cos_spec(ang: int) -> int {
    let q = ang % 4;
    if q == 0 {
        1
    } else if q == 2 {
        -1
    } else {
        0
    }
}

/// The number of quarter turns of `ang`, reduced to `0..4`.
fn quarter(ang: i32) -> (q: i64)
    ensures
        q == ang as int % 4,
{
    let shifted: i64 = (ang as i64) + 0x1_0000_0000;
    assert((ang + 0x1_0000_0000) % 4 == ang as int % 4) by (nonlinear_arith)
        requires
            i32::MIN <= ang <= i32::MAX,
    ;
    shifted % 4
}

/// Sine of an angle given in quarter turns: `0`, `1`, `0`, `-1`, and so on.
pub fn quarter_sin(ang: i32) -> (s: i32)
    ensures
        s == quarter_sin_spec(ang as int),
{
    let q = quarter(ang);
    if q == 1 {
        1
    } else if q == 3 {
        -1
    } else {
        0
    }
}

/// Cosine of an angle given in quarter turns: `1`, `0`, `-1`, `0`, and so on.
pub fn quarter_cos(ang: i32) -> (c: i32)
    ensures
        c == quarter_cos_spec(ang as int),
{
    let q = quarter(ang);
    if q == 0 {
        1
    } else if q == 2 {
        -1
    } else {
        0
    }
}

/// `a0 * b0 + a1 * b1 + a2 * b2`, computed without intermediate overflow.
pub fn dot3(a0: i32, a1: i32, a2: i32, b0: i32, b1: i32, b2: i32) -> (d: i32)
    requires
        fits_i32(a0 * b0 + a1 * b1 + a2 * b2),
    ensures
        d == a0 * b0 + a1 * b1 + a2 * b2,
{
    proof {
        lemma_product_bound(a0 as int, b0 as int);
        lemma_product_bound(a1 as int, b1 as int);
        lemma_product_bound(a2 as int, b2 as int);
    }
    let x: i128 = (a0 as i128) * (b0 as i128);
    let y: i128 = (a1 as i128) * (b1 as i128);
    let z: i128 = (a2 as i128) * (b2 as i128);
    (x + y + z) as i32
}

impl Mat3x3 {
    /// The entry in row `i` and column `j`.
    pub open spec fn at(self, i: int, j: int) -> int {
        self.values[i][j] as int
    }

    /// Every entry of `self` equals the matching entry of `other`.
    pub open spec fn same(self, other: Mat3x3) -> bool {
        forall|i: int, j: int| 0 <= i < 3 && 0 <= j < 3 ==> self.at(i, j) == other.at(i, j)
    }

    /// Matrices with the same entries are the same matrix.
    pub proof fn lemma_same(self, other: Mat3x3)
        requires
            self.same(other),
        ensures
            self == other,
    {
        assert forall|i: int| 0 <= i < 3 implies self.values[i] == other.values[i] by {
            assert forall|j: int| 0 <= j < 3 implies self.values[i][j] == other.values[i][j] by {
                assert(self.at(i, j) == other.at(i, j));
            }
            assert(self.values[i] =~= other.values[i]);
        }
        assert(self.values =~= other.values);
    }

    /// Creates matrix with all values set to `fill_with` value.
    pub fn new(fill_with: i32) -> (m: Self)
        ensures
            forall|i: int, j: int| 0 <= i < 3 && 0 <= j < 3 ==> m.at(i, j) == fill_with,
    {
        let n = fill_with;
        Mat3x3 { values: [[n, n, n], [n, n, n], [n, n, n]] }
    }

    /// Creates matrix with main diagonal values equal to passed value,
    /// and all other values equal to zero.
    pub fn unit(val: i32) -> (m: Self)
        ensures
            forall|i: int, j: int|
                0 <= i < 3 && 0 <= j < 3 ==> m.at(i, j) == if i == j {
                    val as int
                } else {
                    0
                },
    {
        let d = val;
        Mat3x3 { values: [[d, 0, 0], [0, d, 0], [0, 0, d]] }
    }

    /// Creates matrix from raw data, row by row.
    pub fn from_raw(values: [[i32; 3]; 3]) -> (m: Self)
        ensures
            m.values == values,
    {
        Mat3x3 { values }
    }

    /// The product of three entries.
    pub open spec fn triple(self, a: (int, int), b: (int, int), c: (int, int)) -> int {
        self.at(a.0, a.1) * self.at(b.0, b.1) * self.at(c.0, c.1)
    }

    /// The value that `det` computes: the three falling diagonals, less the
    /// main rising diagonal, plus the two other rising diagonals.
    pub open spec fn det_spec(self) -> int {
        self.triple((0, 0), (1, 1), (2, 2)) + self.triple((0, 1), (1, 2), (2, 0)) + self.triple(
            (0, 2),
            (1, 0),
            (2, 1),
        ) - self.triple((0, 2), (1, 1), (2, 0)) + self.triple((0, 0), (1, 2), (2, 1))
            + self.triple((0, 1), (1, 0), (2, 2))
    }

    /// Every triple product and every partial sum of `det_spec` is a 32-bit
    /// value.
    pub open spec fn det_fits(self) -> bool {
        let t1 = self.triple((0, 0), (1, 1), (2, 2));
        let t2 = self.triple((0, 1), (1, 2), (2, 0));
        let t3 = self.triple((0, 2), (1, 0), (2, 1));
        let t4 = self.triple((0, 2), (1, 1), (2, 0));
        let t5 = self.triple((0, 0), (1, 2), (2, 1));
        let t6 = self.triple((0, 1), (1, 0), (2, 2));
        &&& fits_i32(self.at(0, 0) * self.at(1, 1)) && fits_i32(t1)
        &&& fits_i32(self.at(0, 1) * self.at(1, 2)) && fits_i32(t2)
        &&& fits_i32(self.at(0, 2) * self.at(1, 0)) && fits_i32(t3)
        &&& fits_i32(self.at(0, 2) * self.at(1, 1)) && fits_i32(t4)
        &&& fits_i32(self.at(0, 0) * self.at(1, 2)) && fits_i32(t5)
        &&& fits_i32(self.at(0, 1) * self.at(1, 0)) && fits_i32(t6)
        &&& fits_i32(t1 + t2) && fits_i32(t1 + t2 + t3) && fits_i32(t1 + t2 + t3 - t4)
        &&& fits_i32(t1 + t2 + t3 - t4 + t5) && fits_i32(t1 + t2 + t3 - t4 + t5 + t6)
    }

    /// Sums the triple products of the diagonals of the matrix. For a
    /// diagonal matrix this is the product of its diagonal.
    pub fn det(&self) -> (d: i32)
        requires
            self.det_fits(),
        ensures
            d == self.det_spec(),
    {
        let v = &self.values;
        v[0][0] * v[1][1] * v[2][2] + v[0][1] * v[1][2] * v[2][0] + v[0][2] * v[1][0] * v[2][1]
            - v[0][2] * v[1][1] * v[2][0] + v[0][0] * v[1][2] * v[2][1] + v[0][1] * v[1][0]
            * v[2][2]
    }

    /// Creates matrix of rotation around X axis.
    /// Each angle unit is equal to `90 deg`.
    pub fn rot_x_mat(ax: i32) -> (m: Mat3x3)
        ensures
            m == Self::rot_x_spec(ax as int),
    {
        let s = quarter_sin(ax);
        let c = quarter_cos(ax);
        let m = Mat3x3::from_raw([[1, 0, 0], [0, c, -s], [0, s, c]]);
        proof {
            m.lemma_same(Self::rot_x_spec(ax as int));
        }
        m
    }

    /// Creates matrix of rotation around Y axis.
    /// Each angle unit is equal to `90 deg`.
    pub fn rot_y_mat(ay: i32) -> (m: Mat3x3)
        ensures
            m == Self::rot_y_spec(ay as int),
    {
        let s = quarter_sin(ay);
        let c = quarter_cos(ay);
        let m = Mat3x3::from_raw([[c, 0, s], [0, 1, 0], [-s, 0, c]]);
        proof {
            m.lemma_same(Self::rot_y_spec(ay as int));
        }
        m
    }

    /// Creates matrix of rotation around Z axis.
    /// Each angle unit is equal to `90 deg`.
    pub fn rot_z_mat(az: i32) -> (m: Mat3x3)
        ensures
            m == Self::rot_z_spec(az as int),
    {
        let s = quarter_sin(az);
        let c = quarter_cos(az);
        let m = Mat3x3::from_raw([[c, -s, 0], [s, c, 0], [0, 0, 1]]);
        proof {
            m.lemma_same(Self::rot_z_spec(az as int));
        }
        m
    }

    /// The matrix whose rows hold the given integers, each a 32-bit value.
    pub open spec fn of(
        r0: (int, int, int),
        r1: (int, int, int),
        r2: (int, int, int),
    ) -> Mat3x3 {
        Mat3x3 {
            values: [
                [r0.0 as i32, r0.1 as i32, r0.2 as i32],
                [r1.0 as i32, r1.1 as i32, r1.2 as i32],
                [r2.0 as i32, r2.1 as i32, r2.2 as i32],
            ],
        }
    }

    /// Rotation by `ax` quarter turns around the X axis.
    pub open spec fn rot_x_spec(ax: int) -> Mat3x3 {
        let s = quarter_sin_spec(ax);
        let c = quarter_cos_spec(ax);
        Self::of((1, 0, 0), (0, c, -s), (0, s, c))
    }

    /// Rotation by `ay` quarter turns around the Y axis.
    pub open spec fn rot_y_spec(ay: int) -> Mat3x3 {
        let s = quarter_sin_spec(ay);
        let c = quarter_cos_spec(ay);
        Self::of((c, 0, s), (0, 1, 0), (-s, 0, c))
    }

    /// Rotation by `az` quarter turns around the Z axis.
    pub open spec fn rot_z_spec(az: int) -> Mat3x3 {
        let s = quarter_sin_spec(az);
        let c = quarter_cos_spec(az);
        Self::of((c, -s, 0), (s, c, 0), (0, 0, 1))
    }

    /// Entry `(i, j)` of the matrix product `self * rhs`, over the integers.
    pub open spec fn product_at(self, rhs: Mat3x3, i: int, j: int) -> int {
        self.at(i, 0) * rhs.at(0, j) + self.at(i, 1) * rhs.at(1, j) + self.at(i, 2) * rhs.at(2, j)
    }

    /// Every entry of the product `self * rhs` is a 32-bit value.
    pub open spec fn product_fits(self, rhs: Mat3x3) -> bool {
        forall|i: int, j: int|
            0 <= i < 3 && 0 <= j < 3 ==> fits_i32(#[trigger] self.product_at(rhs, i, j))
    }

    /// The matrix product `self * rhs`.
    pub fn times(&self, rhs: &Mat3x3) -> (m: Mat3x3)
        requires
            self.product_fits(*rhs),
        ensures
            forall|i: int, j: int|
                0 <= i < 3 && 0 <= j < 3 ==> m.at(i, j) == self.product_at(*rhs, i, j),
    {
        let a = &self.values;
        let b = &rhs.values;
        proof {
            assert(fits_i32(self.product_at(*rhs, 0, 0)));
            assert(fits_i32(self.product_at(*rhs, 0, 1)));
            assert(fits_i32(self.product_at(*rhs, 0, 2)));
            assert(fits_i32(self.product_at(*rhs, 1, 0)));
            assert(fits_i32(self.product_at(*rhs, 1, 1)));
            assert(fits_i32(self.product_at(*rhs, 1, 2)));
            assert(fits_i32(self.product_at(*rhs, 2, 0)));
            assert(fits_i32(self.product_at(*rhs, 2, 1)));
            assert(fits_i32(self.product_at(*rhs, 2, 2)));
        }
        Mat3x3 {
            values: [
                [
                    dot3(a[0][0], a[0][1], a[0][2], b[0][0], b[1][0], b[2][0]),
                    dot3(a[0][0], a[0][1], a[0][2], b[0][1], b[1][1], b[2][1]),
                    dot3(a[0][0], a[0][1], a[0][2], b[0][2], b[1][2], b[2][2]),
                ],
                [
                    dot3(a[1][0], a[1][1], a[1][2], b[0][0], b[1][0], b[2][0]),
                    dot3(a[1][0], a[1][1], a[1][2], b[0][1], b[1][1], b[2][1]),
                    dot3(a[1][0], a[1][1], a[1][2], b[0][2], b[1][2], b[2][2]),
                ],
                [
                    dot3(a[2][0], a[2][1], a[2][2], b[0][0], b[1][0], b[2][0]),
                    dot3(a[2][0], a[2][1], a[2][2], b[0][1], b[1][1], b[2][1]),
                    dot3(a[2][0], a[2][1], a[2][2], b[0][2], b[1][2], b[2][2]),
                ],
            ],
        }
    }

    /// Every entry of `self + rhs` is a 32-bit value.
    pub open spec fn sum_fits(self, rhs: Mat3x3) -> bool {
        forall|i: int, j: int|
            0 <= i < 3 && 0 <= j < 3 ==> fits_i32(#[trigger] self.at(i, j) + rhs.at(i, j))
    }

    /// Every entry of `self - rhs` is a 32-bit value.
    pub open spec fn difference_fits(self, rhs: Mat3x3) -> bool {
        forall|i: int, j: int|
            0 <= i < 3 && 0 <= j < 3 ==> fits_i32(#[trigger] self.at(i, j) - rhs.at(i, j))
    }

    /// The sum of two matrices, entry by entry.
    pub fn plus(&self, rhs: &Mat3x3) -> (m: Mat3x3)
        requires
            self.sum_fits(*rhs),
        ensures
            forall|i: int, j: int|
                0 <= i < 3 && 0 <= j < 3 ==> m.at(i, j) == self.at(i, j) + rhs.at(i, j),
    {
        let a = &self.values;
        let b = &rhs.values;
        proof {
            assert(fits_i32(self.at(0, 0) + rhs.at(0, 0)));
            assert(fits_i32(self.at(0, 1) + rhs.at(0, 1)));
            assert(fits_i32(self.at(0, 2) + rhs.at(0, 2)));
            assert(fits_i32(self.at(1, 0) + rhs.at(1, 0)));
            assert(fits_i32(self.at(1, 1) + rhs.at(1, 1)));
            assert(fits_i32(self.at(1, 2) + rhs.at(1, 2)));
            assert(fits_i32(self.at(2, 0) + rhs.at(2, 0)));
            assert(fits_i32(self.at(2, 1) + rhs.at(2, 1)));
            assert(fits_i32(self.at(2, 2) + rhs.at(2, 2)));
        }
        Mat3x3 {
            values: [
                [a[0][0] + b[0][0], a[0][1] + b[0][1], a[0][2] + b[0][2]],
                [a[1][0] + b[1][0], a[1][1] + b[1][1], a[1][2] + b[1][2]],
                [a[2][0] + b[2][0], a[2][1] + b[2][1], a[2][2] + b[2][2]],
            ],
        }
    }

    /// The difference of two matrices, entry by entry.
    pub fn minus(&self, rhs: &Mat3x3) -> (m: Mat3x3)
        requires
            self.difference_fits(*rhs),
        ensures
            forall|i: int, j: int|
                0 <= i < 3 && 0 <= j < 3 ==> m.at(i, j) == self.at(i, j) - rhs.at(i, j),
    {
        let a = &self.values;
        let b = &rhs.values;
        proof {
            assert(fits_i32(self.at(0, 0) - rhs.at(0, 0)));
            assert(fits_i32(self.at(0, 1) - rhs.at(0, 1)));
            assert(fits_i32(self.at(0, 2) - rhs.at(0, 2)));
            assert(fits_i32(self.at(1, 0) - rhs.at(1, 0)));
            assert(fits_i32(self.at(1, 1) - rhs.at(1, 1)));
            assert(fits_i32(self.at(1, 2) - rhs.at(1, 2)));
            assert(fits_i32(self.at(2, 0) - rhs.at(2, 0)));
            assert(fits_i32(self.at(2, 1) - rhs.at(2, 1)));
            assert(fits_i32(self.at(2, 2) - rhs.at(2, 2)));
        }
        Mat3x3 {
            values: [
                [a[0][0] - b[0][0], a[0][1] - b[0][1], a[0][2] - b[0][2]],
                [a[1][0] - b[1][0], a[1][1] - b[1][1], a[1][2] - b[1][2]],
                [a[2][0] - b[2][0], a[2][1] - b[2][1], a[2][2] - b[2][2]],
            ],
        }
    }

    /// Component `i` of the product of `self` with the column vector `v`.
    pub open spec fn image_at(self, v: (int, int, int), i: int) -> int {
        self.at(i, 0) * v.0 + self.at(i, 1) * v.1 + self.at(i, 2) * v.2
    }

    /// The product of `self` with the column vector `v`, over the integers.
    pub open spec fn image(self, v: (int, int, int)) -> (int, int, int) {
        (self.image_at(v, 0), self.image_at(v, 1), self.image_at(v, 2))
    }

    /// The product of the matrix with a column vector.
    pub fn apply(&self, v: Vec3<i32>) -> (w: Vec3<i32>)
        requires
            Vec3::<i32>::holds(self.image((v.x as int, v.y as int, v.z as int))),
        ensures
            w == Vec3::<i32>::of(self.image((v.x as int, v.y as int, v.z as int))),
    {
        let a = &self.values;
        Vec3 {
            x: dot3(a[0][0], a[0][1], a[0][2], v.x, v.y, v.z),
            y: dot3(a[1][0], a[1][1], a[1][2], v.x, v.y, v.z),
            z: dot3(a[2][0], a[2][1], a[2][2], v.x, v.y, v.z),
        }
    }

    /// The value that `rot_mat` builds: first around X, then Y, then Z.
    pub open spec fn rot_spec(ax: int, ay: int, az: int) -> Mat3x3 {
        let x = Self::rot_x_spec(ax);
        let y = Self::rot_y_spec(ay);
        let z = Self::rot_z_spec(az);
        let zy = Self::of(
            (z.product_at(y, 0, 0), z.product_at(y, 0, 1), z.product_at(y, 0, 2)),
            (z.product_at(y, 1, 0), z.product_at(y, 1, 1), z.product_at(y, 1, 2)),
            (z.product_at(y, 2, 0), z.product_at(y, 2, 1), z.product_at(y, 2, 2)),
        );
        Self::of(
            (zy.product_at(x, 0, 0), zy.product_at(x, 0, 1), zy.product_at(x, 0, 2)),
            (zy.product_at(x, 1, 0), zy.product_at(x, 1, 1), zy.product_at(x, 1, 2)),
            (zy.product_at(x, 2, 0), zy.product_at(x, 2, 1), zy.product_at(x, 2, 2)),
        )
    }

    /// Creates matrix of rotation around three axes.
    /// X, then Y, then Z - rotation order.
    /// Each angle unit is equal to `90 deg`.
    pub fn rot_mat(ax: i32, ay: i32, az: i32) -> (m: Mat3x3)
        ensures
            m == Self::rot_spec(ax as int, ay as int, az as int),
    {
        let x = Mat3x3::rot_x_mat(ax);
        let y = Mat3x3::rot_y_mat(ay);
        let z = Mat3x3::rot_z_mat(az);
        proof {
            lemma_small_products(z, y);
        }
        let zy = z.times(&y);
        proof {
            assert forall|i: int, j: int| 0 <= i < 3 && 0 <= j < 3 implies -1000
                <= #[trigger] zy.at(i, j) <= 1000 by {
                lemma_unit_product(z.at(i, 0), y.at(0, j));
                lemma_unit_product(z.at(i, 1), y.at(1, j));
                lemma_unit_product(z.at(i, 2), y.at(2, j));
                assert(zy.at(i, j) == z.product_at(y, i, j));
            }
            lemma_small_products(zy, x);
        }
        let m = zy.times(&x);
        proof {
            let ghost zy_spec = Self::of(
                (z.product_at(y, 0, 0), z.product_at(y, 0, 1), z.product_at(y, 0, 2)),
                (z.product_at(y, 1, 0), z.product_at(y, 1, 1), z.product_at(y, 1, 2)),
                (z.product_at(y, 2, 0), z.product_at(y, 2, 1), z.product_at(y, 2, 2)),
            );
            zy.lemma_same(zy_spec);
            m.lemma_same(Self::rot_spec(ax as int, ay as int, az as int));
        }
        m
    }
}

/// All entries of `m` lie between `-bound` and `bound`.
pub open spec fn entries_within(m: Mat3x3, bound: int) -> bool {
    forall|i: int, j: int| 0 <= i < 3 && 0 <= j < 3 ==> -bound <= #[trigger] m.at(i, j) <= bound
}

/// Products of matrices with small entries fit: each entry of the product is
/// a sum of three products of small numbers.
pub proof fn lemma_small_products(a: Mat3x3, b: Mat3x3)
    requires
        entries_within(a, 1000),
        entries_within(b, 1000),
    ensures
        a.product_fits(b),
        forall|i: int, j: int|
            0 <= i < 3 && 0 <= j < 3 ==> -3_000_000 <= #[trigger] a.product_at(b, i, j)
                <= 3_000_000,
{
    assert forall|i: int, j: int| 0 <= i < 3 && 0 <= j < 3 implies -3_000_000
        <= #[trigger] a.product_at(b, i, j) <= 3_000_000 by {
        lemma_small_product(a.at(i, 0), b.at(0, j));
        lemma_small_product(a.at(i, 1), b.at(1, j));
        lemma_small_product(a.at(i, 2), b.at(2, j));
    }
}

/// The product of two numbers of absolute value at most one.
pub proof fn lemma_unit_product(x: int, y: int)
    requires
        -1 <= x <= 1,
        -1 <= y <= 1,
    ensures
        -1 <= x * y <= 1,
{
    assert(-1 <= x * y <= 1) by (nonlinear_arith)
        requires
            -1 <= x <= 1,
            -1 <= y <= 1,
    ;
}

/// The product of two numbers of absolute value at most a thousand.
pub proof fn lemma_small_product(x: int, y: int)
    requires
        -1000 <= x <= 1000,
        -1000 <= y <= 1000,
    ensures
        -1_000_000 <= x * y <= 1_000_000,
{
    assert(-1_000_000 <= x * y <= 1_000_000) by (nonlinear_arith)
        requires
            -1000 <= x <= 1000,
            -1000 <= y <= 1000,
    ;
}

} // verus!
