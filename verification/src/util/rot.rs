//! The 24 rotations of the integer grid, and the directions they carry the
//! axes to.

use vstd::prelude::*;
use crate::util::mat3::{entries_within, quarter_cos_spec, quarter_sin_spec, Mat3x3};
use crate::util::vec3::Vec3;

verus! {

/// `b`, with the sign of `a` applied to it: `0`, `b` or `-b`.
pub open spec fn signed(a: int, b: int) -> int {
    if a == 0 {
        0
    } else if a > 0 {
        b
    } else {
        -b
    }
}

/// One when `a` is not zero, zero otherwise.
pub open spec fn weight(a: int) -> int {
    if a == 0 {
        0
    } else {
        1
    }
}

/// The determinant of a matrix whose entries are `-1`, `0` or `1`.
pub open spec fn orientation(m: Mat3x3) -> int {
    signed(m.at(0, 0), signed(m.at(1, 1), m.at(2, 2)) - signed(m.at(1, 2), m.at(2, 1))) - signed(
        m.at(0, 1),
        signed(m.at(1, 0), m.at(2, 2)) - signed(m.at(1, 2), m.at(2, 0)),
    ) + signed(m.at(0, 2), signed(m.at(1, 0), m.at(2, 1)) - signed(m.at(1, 1), m.at(2, 0)))
}

/// `m` is one of the 24 rotation matrices of the grid: every row and every
/// column holds a single `1` or `-1` and zeros, and the orientation is kept.
pub open spec fn is_rotation(m: Mat3x3) -> bool {
    &&& entries_within(m, 1)
    &&& forall|i: int| 0 <= i < 3 ==> weight(m.at(i, 0)) + weight(m.at(i, 1)) + weight(m.at(i, 2)) == 1
    &&& forall|j: int| 0 <= j < 3 ==> weight(m.at(0, j)) + weight(m.at(1, j)) + weight(m.at(2, j)) == 1
    &&& orientation(m) == 1
}

/// Entry `(i, j)` of the product of two matrices with entries `-1`, `0`, `1`.
pub open spec fn composed_at(a: Mat3x3, b: Mat3x3, i: int, j: int) -> int {
    signed(a.at(i, 0), b.at(0, j)) + signed(a.at(i, 1), b.at(1, j)) + signed(a.at(i, 2), b.at(2, j))
}

/// The product `a * b` of two rotation matrices.
pub open spec fn composed(a: Mat3x3, b: Mat3x3) -> Mat3x3 {
    Mat3x3::of(
        (composed_at(a, b, 0, 0), composed_at(a, b, 0, 1), composed_at(a, b, 0, 2)),
        (composed_at(a, b, 1, 0), composed_at(a, b, 1, 1), composed_at(a, b, 1, 2)),
        (composed_at(a, b, 2, 0), composed_at(a, b, 2, 1), composed_at(a, b, 2, 2)),
    )
}

/// Component `i` of the image of `v` under the rotation matrix `m`.
pub open spec fn turned_at(m: Mat3x3, v: (int, int, int), i: int) -> int {
    signed(m.at(i, 0), v.0) + signed(m.at(i, 1), v.1) + signed(m.at(i, 2), v.2)
}

/// The image of `v` under the rotation matrix `m`.
pub open spec fn turned(m: Mat3x3, v: (int, int, int)) -> (int, int, int) {
    (turned_at(m, v, 0), turned_at(m, v, 1), turned_at(m, v, 2))
}

/// With a first factor of `-1`, `0` or `1`, `signed` is the product.
pub proof fn lemma_signed_is_product(a: int, b: int)
    requires
        -1 <= a <= 1,
    ensures
        signed(a, b) == a * b,
{
    assert(signed(a, b) == a * b) by (nonlinear_arith)
        requires
            -1 <= a <= 1,
            signed(a, b) == if a == 0 {
                0
            } else if a > 0 {
                b
            } else {
                -b
            },
    ;
}

/// The entries of a rotation matrix, row by row and column by column.
pub proof fn lemma_rotation_entries(m: Mat3x3)
    requires
        is_rotation(m),
    ensures
        forall|i: int, j: int| 0 <= i < 3 && 0 <= j < 3 ==> -1 <= #[trigger] m.at(i, j) <= 1,
        weight(m.at(0, 0)) + weight(m.at(0, 1)) + weight(m.at(0, 2)) == 1,
        weight(m.at(1, 0)) + weight(m.at(1, 1)) + weight(m.at(1, 2)) == 1,
        weight(m.at(2, 0)) + weight(m.at(2, 1)) + weight(m.at(2, 2)) == 1,
        weight(m.at(0, 0)) + weight(m.at(1, 0)) + weight(m.at(2, 0)) == 1,
        weight(m.at(0, 1)) + weight(m.at(1, 1)) + weight(m.at(2, 1)) == 1,
        weight(m.at(0, 2)) + weight(m.at(1, 2)) + weight(m.at(2, 2)) == 1,
        orientation(m) == 1,
{
    assert(weight(m.at(0, 0)) + weight(m.at(0, 1)) + weight(m.at(0, 2)) == 1);
    assert(weight(m.at(1, 0)) + weight(m.at(1, 1)) + weight(m.at(1, 2)) == 1);
    assert(weight(m.at(2, 0)) + weight(m.at(2, 1)) + weight(m.at(2, 2)) == 1);
    assert(weight(m.at(0, 0)) + weight(m.at(1, 0)) + weight(m.at(2, 0)) == 1);
    assert(weight(m.at(0, 1)) + weight(m.at(1, 1)) + weight(m.at(2, 1)) == 1);
    assert(weight(m.at(0, 2)) + weight(m.at(1, 2)) + weight(m.at(2, 2)) == 1);
    assert(-1 <= m.at(0, 0) <= 1 && -1 <= m.at(0, 1) <= 1 && -1 <= m.at(0, 2) <= 1);
    assert(-1 <= m.at(1, 0) <= 1 && -1 <= m.at(1, 1) <= 1 && -1 <= m.at(1, 2) <= 1);
    assert(-1 <= m.at(2, 0) <= 1 && -1 <= m.at(2, 1) <= 1 && -1 <= m.at(2, 2) <= 1);
}

/// The entries of the product of two matrices whose entries are small.
pub proof fn lemma_composed_entries(a: Mat3x3, b: Mat3x3)
    requires
        entries_within(a, 1),
        entries_within(b, 1),
    ensures
        forall|i: int, j: int|
            0 <= i < 3 && 0 <= j < 3 ==> #[trigger] composed(a, b).at(i, j) == composed_at(a, b, i, j),
{
    let c = composed(a, b);
    assert forall|i: int, j: int| 0 <= i < 3 && 0 <= j < 3 implies #[trigger] c.at(i, j)
        == composed_at(a, b, i, j) by {
        assert(-1 <= a.at(i, 0) <= 1 && -1 <= a.at(i, 1) <= 1 && -1 <= a.at(i, 2) <= 1);
        assert(-1 <= b.at(0, j) <= 1 && -1 <= b.at(1, j) <= 1 && -1 <= b.at(2, j) <= 1);
    }
}

/// The product of two rotation matrices keeps the orientation. The proof
/// goes through the six places that the non-zero entries of each factor can
/// take.
#[verifier::spinoff_prover]
#[verifier::rlimit(100)]
pub proof fn lemma_composed_orientation(a: Mat3x3, b: Mat3x3)
    requires
        is_rotation(a),
        is_rotation(b),
    ensures
        orientation(composed(a, b)) == 1,
{
    let c = composed(a, b);
    lemma_rotation_entries(a);
    lemma_rotation_entries(b);
    lemma_composed_entries(a, b);
    assert(c.at(0, 0) == composed_at(a, b, 0, 0));
    assert(c.at(0, 1) == composed_at(a, b, 0, 1));
    assert(c.at(0, 2) == composed_at(a, b, 0, 2));
    assert(c.at(1, 0) == composed_at(a, b, 1, 0));
    assert(c.at(1, 1) == composed_at(a, b, 1, 1));
    assert(c.at(1, 2) == composed_at(a, b, 1, 2));
    assert(c.at(2, 0) == composed_at(a, b, 2, 0));
    assert(c.at(2, 1) == composed_at(a, b, 2, 1));
    assert(c.at(2, 2) == composed_at(a, b, 2, 2));
    if a.at(0, 0) != 0 && a.at(1, 1) != 0 && a.at(2, 2) != 0 {
        if b.at(0, 0) != 0 && b.at(1, 1) != 0 && b.at(2, 2) != 0 {
            assert(orientation(c) == 1);
        } else if b.at(0, 0) != 0 && b.at(1, 2) != 0 && b.at(2, 1) != 0 {
            assert(orientation(c) == 1);
        } else if b.at(0, 1) != 0 && b.at(1, 0) != 0 && b.at(2, 2) != 0 {
            assert(orientation(c) == 1);
        } else if b.at(0, 1) != 0 && b.at(1, 2) != 0 && b.at(2, 0) != 0 {
            assert(orientation(c) == 1);
        } else if b.at(0, 2) != 0 && b.at(1, 0) != 0 && b.at(2, 1) != 0 {
            assert(orientation(c) == 1);
        } else if b.at(0, 2) != 0 && b.at(1, 1) != 0 && b.at(2, 0) != 0 {
            assert(orientation(c) == 1);
        }
    } else if a.at(0, 0) != 0 && a.at(1, 2) != 0 && a.at(2, 1) != 0 {
        if b.at(0, 0) != 0 && b.at(1, 1) != 0 && b.at(2, 2) != 0 {
            assert(orientation(c) == 1);
        } else if b.at(0, 0) != 0 && b.at(1, 2) != 0 && b.at(2, 1) != 0 {
            assert(orientation(c) == 1);
        } else if b.at(0, 1) != 0 && b.at(1, 0) != 0 && b.at(2, 2) != 0 {
            assert(orientation(c) == 1);
        } else if b.at(0, 1) != 0 && b.at(1, 2) != 0 && b.at(2, 0) != 0 {
            assert(orientation(c) == 1);
        } else if b.at(0, 2) != 0 && b.at(1, 0) != 0 && b.at(2, 1) != 0 {
            assert(orientation(c) == 1);
        } else if b.at(0, 2) != 0 && b.at(1, 1) != 0 && b.at(2, 0) != 0 {
            assert(orientation(c) == 1);
        }
    } else if a.at(0, 1) != 0 && a.at(1, 0) != 0 && a.at(2, 2) != 0 {
        if b.at(0, 0) != 0 && b.at(1, 1) != 0 && b.at(2, 2) != 0 {
            assert(orientation(c) == 1);
        } else if b.at(0, 0) != 0 && b.at(1, 2) != 0 && b.at(2, 1) != 0 {
            assert(orientation(c) == 1);
        } else if b.at(0, 1) != 0 && b.at(1, 0) != 0 && b.at(2, 2) != 0 {
            assert(orientation(c) == 1);
        } else if b.at(0, 1) != 0 && b.at(1, 2) != 0 && b.at(2, 0) != 0 {
            assert(orientation(c) == 1);
        } else if b.at(0, 2) != 0 && b.at(1, 0) != 0 && b.at(2, 1) != 0 {
            assert(orientation(c) == 1);
        } else if b.at(0, 2) != 0 && b.at(1, 1) != 0 && b.at(2, 0) != 0 {
            assert(orientation(c) == 1);
        }
    } else if a.at(0, 1) != 0 && a.at(1, 2) != 0 && a.at(2, 0) != 0 {
        if b.at(0, 0) != 0 && b.at(1, 1) != 0 && b.at(2, 2) != 0 {
            assert(orientation(c) == 1);
        } else if b.at(0, 0) != 0 && b.at(1, 2) != 0 && b.at(2, 1) != 0 {
            assert(orientation(c) == 1);
        } else if b.at(0, 1) != 0 && b.at(1, 0) != 0 && b.at(2, 2) != 0 {
            assert(orientation(c) == 1);
        } else if b.at(0, 1) != 0 && b.at(1, 2) != 0 && b.at(2, 0) != 0 {
            assert(orientation(c) == 1);
        } else if b.at(0, 2) != 0 && b.at(1, 0) != 0 && b.at(2, 1) != 0 {
            assert(orientation(c) == 1);
        } else if b.at(0, 2) != 0 && b.at(1, 1) != 0 && b.at(2, 0) != 0 {
            assert(orientation(c) == 1);
        }
    } else if a.at(0, 2) != 0 && a.at(1, 0) != 0 && a.at(2, 1) != 0 {
        if b.at(0, 0) != 0 && b.at(1, 1) != 0 && b.at(2, 2) != 0 {
            assert(orientation(c) == 1);
        } else if b.at(0, 0) != 0 && b.at(1, 2) != 0 && b.at(2, 1) != 0 {
            assert(orientation(c) == 1);
        } else if b.at(0, 1) != 0 && b.at(1, 0) != 0 && b.at(2, 2) != 0 {
            assert(orientation(c) == 1);
        } else if b.at(0, 1) != 0 && b.at(1, 2) != 0 && b.at(2, 0) != 0 {
            assert(orientation(c) == 1);
        } else if b.at(0, 2) != 0 && b.at(1, 0) != 0 && b.at(2, 1) != 0 {
            assert(orientation(c) == 1);
        } else if b.at(0, 2) != 0 && b.at(1, 1) != 0 && b.at(2, 0) != 0 {
            assert(orientation(c) == 1);
        }
    } else if a.at(0, 2) != 0 && a.at(1, 1) != 0 && a.at(2, 0) != 0 {
        if b.at(0, 0) != 0 && b.at(1, 1) != 0 && b.at(2, 2) != 0 {
            assert(orientation(c) == 1);
        } else if b.at(0, 0) != 0 && b.at(1, 2) != 0 && b.at(2, 1) != 0 {
            assert(orientation(c) == 1);
        } else if b.at(0, 1) != 0 && b.at(1, 0) != 0 && b.at(2, 2) != 0 {
            assert(orientation(c) == 1);
        } else if b.at(0, 1) != 0 && b.at(1, 2) != 0 && b.at(2, 0) != 0 {
            assert(orientation(c) == 1);
        } else if b.at(0, 2) != 0 && b.at(1, 0) != 0 && b.at(2, 1) != 0 {
            assert(orientation(c) == 1);
        } else if b.at(0, 2) != 0 && b.at(1, 1) != 0 && b.at(2, 0) != 0 {
            assert(orientation(c) == 1);
        }
    }
}

/// The product of two rotation matrices is a rotation matrix.
#[verifier::spinoff_prover]
pub proof fn lemma_composed_is_rotation(a: Mat3x3, b: Mat3x3)
    requires
        is_rotation(a),
        is_rotation(b),
    ensures
        is_rotation(composed(a, b)),
        forall|i: int, j: int|
            0 <= i < 3 && 0 <= j < 3 ==> #[trigger] composed(a, b).at(i, j) == composed_at(a, b, i, j),
{
    let c = composed(a, b);
    lemma_rotation_entries(a);
    lemma_rotation_entries(b);
    lemma_composed_entries(a, b);
    lemma_composed_orientation(a, b);
    assert(c.at(0, 0) == composed_at(a, b, 0, 0));
    assert(c.at(0, 1) == composed_at(a, b, 0, 1));
    assert(c.at(0, 2) == composed_at(a, b, 0, 2));
    assert(c.at(1, 0) == composed_at(a, b, 1, 0));
    assert(c.at(1, 1) == composed_at(a, b, 1, 1));
    assert(c.at(1, 2) == composed_at(a, b, 1, 2));
    assert(c.at(2, 0) == composed_at(a, b, 2, 0));
    assert(c.at(2, 1) == composed_at(a, b, 2, 1));
    assert(c.at(2, 2) == composed_at(a, b, 2, 2));
    assert(forall|i: int, j: int| 0 <= i < 3 && 0 <= j < 3 ==> -1 <= #[trigger] c.at(i, j) <= 1);
    assert(forall|i: int|
        0 <= i < 3 ==> weight(c.at(i, 0)) + weight(c.at(i, 1)) + weight(c.at(i, 2)) == 1);
    assert(forall|j: int|
        0 <= j < 3 ==> weight(c.at(0, j)) + weight(c.at(1, j)) + weight(c.at(2, j)) == 1);
}

/// Represents one of basic six directions in 3D space.
///
/// '`Pos`' means '`Positive`' and '`Neg`' means '`Negative`'.
#[derive(Debug, Clone, Copy, PartialEq, Eq, Structural)]
pub enum Facing {
    PosX,
    PosY,
    PosZ,
    NegX,
    NegY,
    NegZ,
}

/// Orientation variants.
#[derive(Debug, Clone, Copy, PartialEq, Eq, Structural)]
pub enum Orient {
    Up,
    Down,
    Left,
    Right,
}

/// The direction of a unit axis vector; `PosX` for a vector that is none.
pub open spec fn facing_of(v: (int, int, int)) -> Facing {
    if v.2 == 1 {
        Facing::PosZ
    } else if v.2 == -1 {
        Facing::NegZ
    } else if v.1 == 1 {
        Facing::PosY
    } else if v.1 == -1 {
        Facing::NegY
    } else if v.0 == 1 {
        Facing::PosX
    } else {
        Facing::NegX
    }
}

/// The direction that counts as up for a unit that faces `facing`: the X
/// axis for a unit that faces up or down, the Z axis for every other.
pub open spec fn up_of(facing: Facing) -> (int, int, int) {
    match facing {
        Facing::PosZ | Facing::NegZ => (1, 0, 0),
        _ => (0, 0, 1),
    }
}

/// The direction that counts as left for a unit that faces `facing`: the
/// vector product of its up direction and the direction that it faces.
pub open spec fn left_of(facing: Facing) -> (int, int, int) {
    match facing {
        Facing::PosZ => (0, -1, 0),
        Facing::NegZ => (0, 1, 0),
        Facing::PosX => (0, 1, 0),
        Facing::NegX => (0, -1, 0),
        Facing::PosY => (-1, 0, 0),
        Facing::NegY => (1, 0, 0),
    }
}

/// The orientation of a unit whose local Z axis points to `facing` and whose
/// local X axis points along `x`: up or down where `x` is the up direction
/// or its opposite, left or right where it is the left direction or its
/// opposite.
pub open spec fn orient_of(facing: Facing, x: (int, int, int)) -> Orient {
    let up = up_of(facing);
    let left = left_of(facing);
    if x == up {
        Orient::Up
    } else if x == (-up.0, -up.1, -up.2) {
        Orient::Down
    } else if x == left {
        Orient::Left
    } else {
        Orient::Right
    }
}

/// The blueprint format's encoding of each of the 24 rotations:
/// (xaxis, zaxis, offset x, offset y, offset z).
pub open spec fn rotation_data(facing: Facing, orient: Orient) -> (i32, i32, i32, i32, i32) {
    match (facing, orient) {
        (Facing::PosZ, Orient::Up) => (1, -2i32, 0, 0, 0),
        (Facing::PosZ, Orient::Down) => (-2i32, -1i32, 1, 0, 0),
        (Facing::PosZ, Orient::Left) => (-1i32, 2, 1, -1i32, 0),
        (Facing::PosZ, Orient::Right) => (2, 1, 0, -1i32, 0),
        (Facing::PosY, Orient::Up) => (3, -1i32, 1, -1i32, 0),
        (Facing::PosY, Orient::Down) => (-1i32, -3i32, 1, -1i32, 1),
        (Facing::PosY, Orient::Left) => (-3i32, 1, 0, -1i32, 1),
        (Facing::PosY, Orient::Right) => (1, 3, 0, -1i32, 0),
        (Facing::PosX, Orient::Up) => (3, 2, 0, -1i32, 0),
        (Facing::PosX, Orient::Down) => (2, -3i32, 0, -1i32, 1),
        (Facing::PosX, Orient::Left) => (-3i32, -2i32, 0, 0, 1),
        (Facing::PosX, Orient::Right) => (-2i32, 3, 0, 0, 0),
        (Facing::NegZ, Orient::Up) => (1, 2, 0, -1i32, 1),
        (Facing::NegZ, Orient::Down) => (2, -1i32, 1, -1i32, 1),
        (Facing::NegZ, Orient::Left) => (-1i32, -2i32, 1, 0, 1),
        (Facing::NegZ, Orient::Right) => (-2i32, 1, 0, 0, 1),
        (Facing::NegY, Orient::Up) => (3, 1, 0, 0, 0),
        (Facing::NegY, Orient::Down) => (1, -3i32, 0, 0, 1),
        (Facing::NegY, Orient::Left) => (-3i32, -1i32, 1, 0, 1),
        (Facing::NegY, Orient::Right) => (-1i32, 3, 1, 0, 0),
        (Facing::NegX, Orient::Up) => (3, -2i32, 1, 0, 0),
        (Facing::NegX, Orient::Down) => (-2i32, -3i32, 1, 0, 1),
        (Facing::NegX, Orient::Left) => (-3i32, 2, 1, -1i32, 1),
        (Facing::NegX, Orient::Right) => (2, 3, 1, -1i32, 0),
    }
}

/// Represents any rotation in 3D space by quarter turns.
/// Every rotation applied rotates vectors and points around basis:
///
/// X is (1, 0, 0); Y is (0, 1, 0); Z is (0, 0, 1).
#[derive(Debug, Clone, Copy, PartialEq, Eq)]
pub struct Rot {
    matrix: Mat3x3,
}

impl Rot {
    #[verifier::type_invariant]
    spec fn inv(self) -> bool {
        is_rotation(self.matrix)
    }

    /// The matrix of the rotation.
    pub closed spec fn mat(self) -> Mat3x3 {
        self.matrix
    }

    /// The rotation is one of the 24: every executable value is.
    pub open spec fn valid(self) -> bool {
        is_rotation(self.mat())
    }

    /// The image of the integer vector `v`.
    #[verifier::opaque]
    pub open spec fn image(self, v: (int, int, int)) -> (int, int, int) {
        turned(self.mat(), v)
    }

    /// The integers of the point `p`.
    pub open spec fn ints(p: Vec3<i32>) -> (int, int, int) {
        (p.x as int, p.y as int, p.z as int)
    }

    /// Rotations with the same matrix are the same rotation.
    pub proof fn lemma_same(self, other: Rot)
        requires
            self.mat().same(other.mat()),
        ensures
            self == other,
    {
        self.mat().lemma_same(other.mat());
    }

    /// The rotation is the same as `other`.
    pub fn is(&self, other: &Rot) -> (same: bool)
        ensures
            same == (*self == *other),
    {
        let a = &self.matrix.values;
        let b = &other.matrix.values;
        let same = a[0][0] == b[0][0] && a[0][1] == b[0][1] && a[0][2] == b[0][2] && a[1][0]
            == b[1][0] && a[1][1] == b[1][1] && a[1][2] == b[1][2] && a[2][0] == b[2][0] && a[2][1]
            == b[2][1] && a[2][2] == b[2][2];
        proof {
            if same {
                self.lemma_same(*other);
            }
        }
        same
    }

    /// Every rotation that a program holds is valid: calling this costs
    /// nothing and tells the verifier so.
    pub fn is_valid(&self)
        ensures
            self.valid(),
    {
        proof {
            use_type_invariant(self);
        }
    }

    /// The rotation by `ax` quarter turns around X, then `ay` around Y, then
    /// `az` around Z.
    pub closed spec fn of_angles(ax: int, ay: int, az: int) -> Rot {
        Rot { matrix: Mat3x3::rot_spec(ax, ay, az) }
    }

    /// The rotation that behaves as `rhs` followed by `self`.
    pub closed spec fn after(self, rhs: Rot) -> Rot {
        Rot { matrix: composed(self.matrix, rhs.matrix) }
    }

    /// The matrix of a composition.
    pub proof fn lemma_after(self, rhs: Rot)
        ensures
            self.after(rhs).mat() == self.compose(rhs),
            self.valid() && rhs.valid() ==> self.after(rhs).valid(),
    {
        if self.valid() && rhs.valid() {
            lemma_composed_is_rotation(self.mat(), rhs.mat());
        }
    }

    /// The matrix of a rotation given by angles.
    pub proof fn lemma_of_angles(ax: int, ay: int, az: int)
        ensures
            Rot::of_angles(ax, ay, az).mat() == Mat3x3::rot_spec(ax, ay, az),
            Rot::of_angles(ax, ay, az).valid(),
    {
        lemma_rot_spec_is_rotation(ax, ay, az);
    }

    /// Creates new [`Rot`] with X rotation applied first, THEN
    /// Y rotation, THEN Z rotation.
    pub fn new(rot_x: i32, rot_y: i32, rot_z: i32) -> (r: Self)
        ensures
            r.valid(),
            r == Rot::of_angles(rot_x as int, rot_y as int, rot_z as int),
            r.mat() == Mat3x3::rot_spec(rot_x as int, rot_y as int, rot_z as int),
    {
        let m = Mat3x3::rot_mat(rot_x, rot_y, rot_z);
        proof {
            lemma_rot_spec_is_rotation(rot_x as int, rot_y as int, rot_z as int);
        }
        Rot { matrix: m }
    }

    /// Creates [`Rot`] from tuple of axes rotations.
    pub fn from_tuple(rot: (i32, i32, i32)) -> (r: Self)
        ensures
            r.valid(),
            r == Rot::of_angles(rot.0 as int, rot.1 as int, rot.2 as int),
            r.mat() == Mat3x3::rot_spec(rot.0 as int, rot.1 as int, rot.2 as int),
    {
        Rot::new(rot.0, rot.1, rot.2)
    }

    /// Creates [`Rot`] from Vec3 of axes rotations.
    pub fn from_vec3(vec: Vec3<i32>) -> (r: Self)
        ensures
            r.valid(),
            r == Rot::of_angles(vec.x as int, vec.y as int, vec.z as int),
            r.mat() == Mat3x3::rot_spec(vec.x as int, vec.y as int, vec.z as int),
    {
        Rot::new(vec.x, vec.y, vec.z)
    }

    /// Applies rotation to given point/vector.
    pub fn apply(&self, vec: Vec3<i32>) -> (w: Vec3<i32>)
        requires
            Vec3::<i32>::holds(self.image(Self::ints(vec))),
        ensures
            w == Vec3::<i32>::of(self.image(Self::ints(vec))),
    {
        proof {
            reveal(Rot::image);
            use_type_invariant(self);
            let m = self.matrix;
            assert forall|i: int| 0 <= i < 3 implies turned_at(m, Self::ints(vec), i)
                == #[trigger] m.image_at(Self::ints(vec), i) by {
                lemma_signed_is_product(m.at(i, 0), vec.x as int);
                lemma_signed_is_product(m.at(i, 1), vec.y as int);
                lemma_signed_is_product(m.at(i, 2), vec.z as int);
            }
            assert(m.image(Self::ints(vec)) == turned(m, Self::ints(vec)));
        }
        self.matrix.apply(vec)
    }

    /// Applies rotation to a vector of 64-bit integers.
    pub fn apply_wide(&self, v: (i64, i64, i64)) -> (w: (i64, i64, i64))
        requires
            -0x1000_0000_0000_0000 <= v.0 <= 0x1000_0000_0000_0000,
            -0x1000_0000_0000_0000 <= v.1 <= 0x1000_0000_0000_0000,
            -0x1000_0000_0000_0000 <= v.2 <= 0x1000_0000_0000_0000,
        ensures
            (w.0 as int, w.1 as int, w.2 as int) == self.image(
                (v.0 as int, v.1 as int, v.2 as int),
            ),
    {
        proof {
            reveal(Rot::image);
        }
        let a = &self.matrix.values;
        (
            signed_term(a[0][0], v.0) + signed_term(a[0][1], v.1) + signed_term(a[0][2], v.2),
            signed_term(a[1][0], v.0) + signed_term(a[1][1], v.1) + signed_term(a[1][2], v.2),
            signed_term(a[2][0], v.0) + signed_term(a[2][1], v.1) + signed_term(a[2][2], v.2),
        )
    }

    /// The rotation that behaves as `rhs` followed by `self`.
    pub open spec fn compose(self, rhs: Rot) -> Mat3x3 {
        composed(self.mat(), rhs.mat())
    }

    /// Applies rotation to another [`Rot`].
    /// Resulting [`Rot`], if applied, will behave as if `rhs` [`Rot`]
    /// were applied first, and THEN were applied `self` [`Rot`].
    pub fn apply_to_rot(&self, rhs: Rot) -> (r: Rot)
        ensures
            r.valid(),
            r == self.after(rhs),
            r.mat() == self.compose(rhs),
    {
        proof {
            use_type_invariant(self);
            use_type_invariant(&rhs);
            let a = self.matrix;
            let b = rhs.matrix;
            lemma_composed_is_rotation(a, b);
            assert forall|i: int, j: int| 0 <= i < 3 && 0 <= j < 3 implies #[trigger] a.product_at(
                b,
                i,
                j,
            ) == composed_at(a, b, i, j) by {
                lemma_signed_is_product(a.at(i, 0), b.at(0, j));
                lemma_signed_is_product(a.at(i, 1), b.at(1, j));
                lemma_signed_is_product(a.at(i, 2), b.at(2, j));
            }
            assert forall|i: int, j: int| 0 <= i < 3 && 0 <= j < 3 implies -1
                <= #[trigger] a.product_at(b, i, j) <= 1 by {
                assert(composed(a, b).at(i, j) == composed_at(a, b, i, j));
            }
        }
        let m = self.matrix.times(&rhs.matrix);
        proof {
            m.lemma_same(composed(self.matrix, rhs.matrix));
        }
        Rot { matrix: m }
    }

    /// The images of the three axes: the columns of the matrix.
    pub open spec fn basis(self) -> (Vec3<i32>, Vec3<i32>, Vec3<i32>) {
        (
            Vec3::<i32>::of(self.image((1, 0, 0))),
            Vec3::<i32>::of(self.image((0, 1, 0))),
            Vec3::<i32>::of(self.image((0, 0, 1))),
        )
    }

    /// The matrix whose columns are the three given vectors.
    pub open spec fn basis_matrix(basis: (Vec3<i32>, Vec3<i32>, Vec3<i32>)) -> Mat3x3 {
        Mat3x3::of(
            (basis.0.x as int, basis.1.x as int, basis.2.x as int),
            (basis.0.y as int, basis.1.y as int, basis.2.y as int),
            (basis.0.z as int, basis.1.z as int, basis.2.z as int),
        )
    }

    /// The vectors that the rotation carries the X, Y and Z axes to.
    pub fn to_basis(&self) -> (basis: (Vec3<i32>, Vec3<i32>, Vec3<i32>))
        ensures
            basis == self.basis(),
            Self::basis_matrix(basis) == self.mat(),
    {
        proof {
            reveal(Rot::image);
            use_type_invariant(self);
            let m = self.matrix;
            assert(forall|i: int, j: int| 0 <= i < 3 && 0 <= j < 3 ==> -1 <= #[trigger] m.at(i, j) <= 1);
            assert(-1 <= m.at(0, 0) <= 1 && -1 <= m.at(0, 1) <= 1 && -1 <= m.at(0, 2) <= 1);
            assert(-1 <= m.at(1, 0) <= 1 && -1 <= m.at(1, 1) <= 1 && -1 <= m.at(1, 2) <= 1);
            assert(-1 <= m.at(2, 0) <= 1 && -1 <= m.at(2, 1) <= 1 && -1 <= m.at(2, 2) <= 1);
        }
        let v = &self.matrix.values;
        let basis = (
            Vec3 { x: v[0][0], y: v[1][0], z: v[2][0] },
            Vec3 { x: v[0][1], y: v[1][1], z: v[2][1] },
            Vec3 { x: v[0][2], y: v[1][2], z: v[2][2] },
        );
        proof {
            Self::basis_matrix(basis).lemma_same(self.matrix);
        }
        basis
    }

    /// The rotation that carries the X, Y and Z axes to the given vectors.
    pub fn from_basis(basis: (Vec3<i32>, Vec3<i32>, Vec3<i32>)) -> (r: Rot)
        requires
            is_rotation(Self::basis_matrix(basis)),
        ensures
            r.valid(),
            r.mat() == Self::basis_matrix(basis),
            r.basis() == basis,
    {
        let m = Mat3x3::from_raw(
            [
                [basis.0.x, basis.1.x, basis.2.x],
                [basis.0.y, basis.1.y, basis.2.y],
                [basis.0.z, basis.1.z, basis.2.z],
            ],
        );
        proof {
            reveal(Rot::image);
            m.lemma_same(Self::basis_matrix(basis));
            assert(-1 <= m.at(0, 0) <= 1 && -1 <= m.at(0, 1) <= 1 && -1 <= m.at(0, 2) <= 1);
            assert(-1 <= m.at(1, 0) <= 1 && -1 <= m.at(1, 1) <= 1 && -1 <= m.at(1, 2) <= 1);
            assert(-1 <= m.at(2, 0) <= 1 && -1 <= m.at(2, 1) <= 1 && -1 <= m.at(2, 2) <= 1);
        }
        Rot { matrix: m }
    }

    /// The blueprint format's rotation data: the row of the table for
    /// where the rotation turns a unit to.
    pub open spec fn sm_data(self) -> (i32, i32, Vec3<i32>) {
        let (facing, orient) = self.facing_orient();
        let d = rotation_data(facing, orient);
        (d.0, d.1, Vec3 { x: d.2, y: d.3, z: d.4 })
    }

    /// Returns the blueprint format's rotation data:
    /// "xaxis", "zaxis" and position offset.
    pub fn to_sm_data(&self) -> (data: (i32, i32, Vec3<i32>))
        ensures
            data == self.sm_data(),
    {
        let (facing, orient) = self.to_facing_orient();
        let (xaxis, zaxis, dx, dy, dz) = facing.to_data(orient);
        (xaxis, zaxis, Vec3 { x: dx, y: dy, z: dz })
    }

    /// Where the rotation turns a unit to: the direction of its local Z axis
    /// and, from where its local X axis lands, its orientation.
    pub open spec fn facing_orient(self) -> (Facing, Orient) {
        let facing = facing_of(self.image((0, 0, 1)));
        (facing, orient_of(facing, self.image((1, 0, 0))))
    }

    /// Converts [`Rot`] to [`Facing`] + [`Orient`] pair.
    pub fn to_facing_orient(&self) -> (fo: (Facing, Orient))
        ensures
            fo == self.facing_orient(),
    {
        proof {
            reveal(Rot::image);
            use_type_invariant(self);
            let m = self.matrix;
            assert(-1 <= m.at(0, 0) <= 1 && -1 <= m.at(0, 1) <= 1 && -1 <= m.at(0, 2) <= 1);
            assert(-1 <= m.at(1, 0) <= 1 && -1 <= m.at(1, 1) <= 1 && -1 <= m.at(1, 2) <= 1);
            assert(-1 <= m.at(2, 0) <= 1 && -1 <= m.at(2, 1) <= 1 && -1 <= m.at(2, 2) <= 1);
            assert(weight(m.at(0, 0)) + weight(m.at(1, 0)) + weight(m.at(2, 0)) == 1);
            assert(weight(m.at(0, 2)) + weight(m.at(1, 2)) + weight(m.at(2, 2)) == 1);
        }
        let z_axis = self.apply(Vec3 { x: 0, y: 0, z: 1 });
        let x_axis = self.apply(Vec3 { x: 1, y: 0, z: 0 });

        let facing = if z_axis.z == 1 {
            Facing::PosZ
        } else if z_axis.z == -1 {
            Facing::NegZ
        } else if z_axis.y == 1 {
            Facing::PosY
        } else if z_axis.y == -1 {
            Facing::NegY
        } else if z_axis.x == 1 {
            Facing::PosX
        } else {
            Facing::NegX
        };

        // The coordinate of the X axis' image along the up direction, and
        // the one along the left direction.
        let (along_up, along_left) = match facing {
            Facing::PosZ => (x_axis.x, -x_axis.y),
            Facing::NegZ => (x_axis.x, x_axis.y),
            Facing::PosX => (x_axis.z, x_axis.y),
            Facing::NegX => (x_axis.z, -x_axis.y),
            Facing::PosY => (x_axis.z, -x_axis.x),
            Facing::NegY => (x_axis.z, x_axis.x),
        };
        let orient = if along_up == 1 {
            Orient::Up
        } else if along_up == -1 {
            Orient::Down
        } else if along_left == 1 {
            Orient::Left
        } else {
            Orient::Right
        };
        (facing, orient)
    }
}

/// Different rotations are turned to differently: a rotation is known by the
/// direction that it faces and its orientation.
pub proof fn lemma_facing_orient_one_to_one(a: Rot, b: Rot)
    requires
        a.valid(),
        b.valid(),
        a.facing_orient() == b.facing_orient(),
    ensures
        a == b,
{
    reveal(Rot::image);
    lemma_rotation_entries(a.mat());
    lemma_rotation_entries(b.mat());
    a.lemma_same(b);
}

/// Each of the 24 pairs of a direction and an orientation has its own
/// "xaxis" and "zaxis".
pub proof fn lemma_rotation_data_one_to_one(f: Facing, o: Orient, g: Facing, p: Orient)
    requires
        rotation_data(f, o).0 == rotation_data(g, p).0,
        rotation_data(f, o).1 == rotation_data(g, p).1,
    ensures
        f == g,
        o == p,
{
}

/// Different rotations are written to a blueprint differently.
pub proof fn lemma_sm_data_one_to_one(a: Rot, b: Rot)
    requires
        a.valid(),
        b.valid(),
        a.sm_data() == b.sm_data(),
    ensures
        a == b,
{
    let (f, o) = a.facing_orient();
    let (g, p) = b.facing_orient();
    lemma_rotation_data_one_to_one(f, o, g, p);
    lemma_facing_orient_one_to_one(a, b);
}

/// `v`, with the sign of `m` applied to it.
pub fn signed_term(m: i32, v: i64) -> (t: i64)
    requires
        i64::MIN < v,
    ensures
        t == signed(m as int, v as int),
{
    if m == 0 {
        0
    } else if m > 0 {
        v
    } else {
        -v
    }
}

/// Every matrix that `rot_mat` builds is a rotation matrix.
pub proof fn lemma_rot_spec_is_rotation(ax: int, ay: int, az: int)
    ensures
        is_rotation(Mat3x3::rot_spec(ax, ay, az)),
        Mat3x3::rot_spec(ax, ay, az) == composed(
            composed(Mat3x3::rot_z_spec(az), Mat3x3::rot_y_spec(ay)),
            Mat3x3::rot_x_spec(ax),
        ),
{
    let x = Mat3x3::rot_x_spec(ax);
    let y = Mat3x3::rot_y_spec(ay);
    let z = Mat3x3::rot_z_spec(az);
    lemma_axis_rotations(ax, ay, az);
    lemma_composed_is_rotation(z, y);
    let zy = composed(z, y);
    assert forall|i: int, j: int| 0 <= i < 3 && 0 <= j < 3 implies #[trigger] z.product_at(y, i, j)
        == composed_at(z, y, i, j) by {
        lemma_signed_is_product(z.at(i, 0), y.at(0, j));
        lemma_signed_is_product(z.at(i, 1), y.at(1, j));
        lemma_signed_is_product(z.at(i, 2), y.at(2, j));
    }
    let zy2 = Mat3x3::of(
        (z.product_at(y, 0, 0), z.product_at(y, 0, 1), z.product_at(y, 0, 2)),
        (z.product_at(y, 1, 0), z.product_at(y, 1, 1), z.product_at(y, 1, 2)),
        (z.product_at(y, 2, 0), z.product_at(y, 2, 1), z.product_at(y, 2, 2)),
    );
    assert(zy2 == zy);
    lemma_composed_is_rotation(zy, x);
    assert forall|i: int, j: int| 0 <= i < 3 && 0 <= j < 3 implies #[trigger] zy.product_at(x, i, j)
        == composed_at(zy, x, i, j) by {
        lemma_signed_is_product(zy.at(i, 0), x.at(0, j));
        lemma_signed_is_product(zy.at(i, 1), x.at(1, j));
        lemma_signed_is_product(zy.at(i, 2), x.at(2, j));
    }
    assert(Mat3x3::rot_spec(ax, ay, az) == composed(zy, x));
}

/// Applying two rotations one after the other is applying their composition:
/// for all valid rotations `r1`, `r2` and every integer vector `v`, the image
/// of `v` under `r1` and then `r2` is its image under the product `r2 * r1`.
pub proof fn lemma_apply_composes(r1: Rot, r2: Rot, v: (int, int, int))
    requires
        r1.valid(),
        r2.valid(),
    ensures
        r2.image(r1.image(v)) == r2.after(r1).image(v),
        r2.after(r1).valid(),
{
    reveal(Rot::image);
    r2.lemma_after(r1);
    let a = r2.mat();
    let b = r1.mat();
    lemma_composed_is_rotation(a, b);
    let c = composed(a, b);
    assert(weight(a.at(0, 0)) + weight(a.at(0, 1)) + weight(a.at(0, 2)) == 1);
    assert(weight(a.at(1, 0)) + weight(a.at(1, 1)) + weight(a.at(1, 2)) == 1);
    assert(weight(a.at(2, 0)) + weight(a.at(2, 1)) + weight(a.at(2, 2)) == 1);
    assert(weight(b.at(0, 0)) + weight(b.at(0, 1)) + weight(b.at(0, 2)) == 1);
    assert(weight(b.at(1, 0)) + weight(b.at(1, 1)) + weight(b.at(1, 2)) == 1);
    assert(weight(b.at(2, 0)) + weight(b.at(2, 1)) + weight(b.at(2, 2)) == 1);
    assert(-1 <= a.at(0, 0) <= 1 && -1 <= a.at(0, 1) <= 1 && -1 <= a.at(0, 2) <= 1);
    assert(-1 <= a.at(1, 0) <= 1 && -1 <= a.at(1, 1) <= 1 && -1 <= a.at(1, 2) <= 1);
    assert(-1 <= a.at(2, 0) <= 1 && -1 <= a.at(2, 1) <= 1 && -1 <= a.at(2, 2) <= 1);
    assert(-1 <= b.at(0, 0) <= 1 && -1 <= b.at(0, 1) <= 1 && -1 <= b.at(0, 2) <= 1);
    assert(-1 <= b.at(1, 0) <= 1 && -1 <= b.at(1, 1) <= 1 && -1 <= b.at(1, 2) <= 1);
    assert(-1 <= b.at(2, 0) <= 1 && -1 <= b.at(2, 1) <= 1 && -1 <= b.at(2, 2) <= 1);
    assert(c.at(0, 0) == composed_at(a, b, 0, 0));
    assert(c.at(0, 1) == composed_at(a, b, 0, 1));
    assert(c.at(0, 2) == composed_at(a, b, 0, 2));
    assert(c.at(1, 0) == composed_at(a, b, 1, 0));
    assert(c.at(1, 1) == composed_at(a, b, 1, 1));
    assert(c.at(1, 2) == composed_at(a, b, 1, 2));
    assert(c.at(2, 0) == composed_at(a, b, 2, 0));
    assert(c.at(2, 1) == composed_at(a, b, 2, 1));
    assert(c.at(2, 2) == composed_at(a, b, 2, 2));
}

/// The third column of the six matrices that `Facing::to_rot` builds.
pub proof fn lemma_facing_matrices()
    ensures
        turned(Mat3x3::rot_spec(0, 1, 0), (0, 0, 1)) == (1int, 0int, 0int),
        turned(Mat3x3::rot_spec(-1, 0, 0), (0, 0, 1)) == (0int, 1int, 0int),
        turned(Mat3x3::rot_spec(0, 0, 0), (0, 0, 1)) == (0int, 0int, 1int),
        turned(Mat3x3::rot_spec(0, -1, 0), (0, 0, 1)) == (-1int, 0int, 0int),
        turned(Mat3x3::rot_spec(1, 0, 0), (0, 0, 1)) == (0int, -1int, 0int),
        turned(Mat3x3::rot_spec(2, 0, 0), (0, 0, 1)) == (0int, 0int, -1int),
{
    lemma_third_column(0, 1, 0);
    lemma_third_column(-1, 0, 0);
    lemma_third_column(0, 0, 0);
    lemma_third_column(0, -1, 0);
    lemma_third_column(1, 0, 0);
    lemma_third_column(2, 0, 0);
}

/// The three matrices of the turns around one axis are rotation matrices.
pub proof fn lemma_axis_rotations(ax: int, ay: int, az: int)
    ensures
        is_rotation(Mat3x3::rot_x_spec(ax)),
        is_rotation(Mat3x3::rot_y_spec(ay)),
        is_rotation(Mat3x3::rot_z_spec(az)),
{
}

/// The image of the Z axis under the rotation built from three angles, in
/// terms of the sines and cosines of the angles.
#[verifier::spinoff_prover]
#[verifier::rlimit(50)]
pub proof fn lemma_third_column(ax: int, ay: int, az: int)
    ensures
        turned(Mat3x3::rot_spec(ax, ay, az), (0, 0, 1)) == ({
            let (sx, cx) = (quarter_sin_spec(ax), quarter_cos_spec(ax));
            let (sy, cy) = (quarter_sin_spec(ay), quarter_cos_spec(ay));
            let (sz, cz) = (quarter_sin_spec(az), quarter_cos_spec(az));
            (
                signed(sz, signed(sx, 1)) + signed(cz, signed(sy, signed(cx, 1))),
                signed(sz, signed(sy, signed(cx, 1))) - signed(cz, signed(sx, 1)),
                signed(cy, signed(cx, 1)),
            )
        }),
{
    lemma_rot_spec_is_rotation(ax, ay, az);
    let x = Mat3x3::rot_x_spec(ax);
    let y = Mat3x3::rot_y_spec(ay);
    let z = Mat3x3::rot_z_spec(az);
    let zy = composed(z, y);
    let m = composed(zy, x);
    lemma_axis_rotations(ax, ay, az);
    lemma_composed_entries(z, y);
    lemma_composed_is_rotation(z, y);
    lemma_composed_entries(zy, x);
    assert(zy.at(0, 0) == composed_at(z, y, 0, 0));
    assert(zy.at(0, 1) == composed_at(z, y, 0, 1));
    assert(zy.at(0, 2) == composed_at(z, y, 0, 2));
    assert(zy.at(1, 0) == composed_at(z, y, 1, 0));
    assert(zy.at(1, 1) == composed_at(z, y, 1, 1));
    assert(zy.at(1, 2) == composed_at(z, y, 1, 2));
    assert(zy.at(2, 0) == composed_at(z, y, 2, 0));
    assert(zy.at(2, 1) == composed_at(z, y, 2, 1));
    assert(zy.at(2, 2) == composed_at(z, y, 2, 2));
    assert(m.at(0, 2) == composed_at(zy, x, 0, 2));
    assert(m.at(1, 2) == composed_at(zy, x, 1, 2));
    assert(m.at(2, 2) == composed_at(zy, x, 2, 2));
}

/// A valid rotation carries a vector whose components lie within `bound`
/// to a vector whose components lie within `bound`.
pub proof fn lemma_image_bounded(rot: Rot, v: (int, int, int), bound: int)
    requires
        rot.valid(),
        -bound <= v.0 <= bound,
        -bound <= v.1 <= bound,
        -bound <= v.2 <= bound,
    ensures
        -bound <= rot.image(v).0 <= bound,
        -bound <= rot.image(v).1 <= bound,
        -bound <= rot.image(v).2 <= bound,
{
    reveal(Rot::image);
    lemma_rotation_entries(rot.mat());
}

/// The rotation by no turn at all leaves every vector as it is.
#[verifier::spinoff_prover]
#[verifier::rlimit(50)]
pub proof fn lemma_identity(v: (int, int, int))
    ensures
        Rot::of_angles(0, 0, 0).valid(),
        Rot::of_angles(0, 0, 0).image(v) == v,
{
    reveal(Rot::image);
    Rot::lemma_of_angles(0, 0, 0);
    lemma_rot_spec_is_rotation(0, 0, 0);
    lemma_axis_rotations(0, 0, 0);
    let x = Mat3x3::rot_x_spec(0);
    let y = Mat3x3::rot_y_spec(0);
    let z = Mat3x3::rot_z_spec(0);
    let zy = composed(z, y);
    let m = composed(zy, x);
    lemma_composed_entries(z, y);
    lemma_composed_is_rotation(z, y);
    lemma_composed_entries(zy, x);
    assert(zy.at(0, 0) == composed_at(z, y, 0, 0));
    assert(zy.at(0, 1) == composed_at(z, y, 0, 1));
    assert(zy.at(0, 2) == composed_at(z, y, 0, 2));
    assert(zy.at(1, 0) == composed_at(z, y, 1, 0));
    assert(zy.at(1, 1) == composed_at(z, y, 1, 1));
    assert(zy.at(1, 2) == composed_at(z, y, 1, 2));
    assert(zy.at(2, 0) == composed_at(z, y, 2, 0));
    assert(zy.at(2, 1) == composed_at(z, y, 2, 1));
    assert(zy.at(2, 2) == composed_at(z, y, 2, 2));
    assert(m.at(0, 0) == composed_at(zy, x, 0, 0));
    assert(m.at(0, 1) == composed_at(zy, x, 0, 1));
    assert(m.at(0, 2) == composed_at(zy, x, 0, 2));
    assert(m.at(1, 0) == composed_at(zy, x, 1, 0));
    assert(m.at(1, 1) == composed_at(zy, x, 1, 1));
    assert(m.at(1, 2) == composed_at(zy, x, 1, 2));
    assert(m.at(2, 0) == composed_at(zy, x, 2, 0));
    assert(m.at(2, 1) == composed_at(zy, x, 2, 1));
    assert(m.at(2, 2) == composed_at(zy, x, 2, 2));
}

/// A rotation is found again from the images of the three axes.
pub proof fn lemma_basis_round_trip(r: Rot)
    requires
        r.valid(),
    ensures
        Rot::basis_matrix(r.basis()) == r.mat(),
{
    reveal(Rot::image);
    let m = r.mat();
    assert(-1 <= m.at(0, 0) <= 1 && -1 <= m.at(0, 1) <= 1 && -1 <= m.at(0, 2) <= 1);
    assert(-1 <= m.at(1, 0) <= 1 && -1 <= m.at(1, 1) <= 1 && -1 <= m.at(1, 2) <= 1);
    assert(-1 <= m.at(2, 0) <= 1 && -1 <= m.at(2, 1) <= 1 && -1 <= m.at(2, 2) <= 1);
    Rot::basis_matrix(r.basis()).lemma_same(m);
}

impl Facing {
    /// Converts [`Facing`] to the blueprint format's rotation data:
    ///
    /// xaxis, zaxis, offset x, offset y, offset z.
    ///
    /// [`Orient`] is needed, because there is 4 possible rotations of
    /// shape on each [`Facing`].
    pub fn to_data(&self, orient: Orient) -> (data: (i32, i32, i32, i32, i32))
        ensures
            data == rotation_data(*self, orient),
    {
        match (*self, orient) {
            (Facing::PosZ, Orient::Up) => (1, -2, 0, 0, 0),
            (Facing::PosZ, Orient::Down) => (-2, -1, 1, 0, 0),
            (Facing::PosZ, Orient::Left) => (-1, 2, 1, -1, 0),
            (Facing::PosZ, Orient::Right) => (2, 1, 0, -1, 0),
            (Facing::PosY, Orient::Up) => (3, -1, 1, -1, 0),
            (Facing::PosY, Orient::Down) => (-1, -3, 1, -1, 1),
            (Facing::PosY, Orient::Left) => (-3, 1, 0, -1, 1),
            (Facing::PosY, Orient::Right) => (1, 3, 0, -1, 0),
            (Facing::PosX, Orient::Up) => (3, 2, 0, -1, 0),
            (Facing::PosX, Orient::Down) => (2, -3, 0, -1, 1),
            (Facing::PosX, Orient::Left) => (-3, -2, 0, 0, 1),
            (Facing::PosX, Orient::Right) => (-2, 3, 0, 0, 0),
            (Facing::NegZ, Orient::Up) => (1, 2, 0, -1, 1),
            (Facing::NegZ, Orient::Down) => (2, -1, 1, -1, 1),
            (Facing::NegZ, Orient::Left) => (-1, -2, 1, 0, 1),
            (Facing::NegZ, Orient::Right) => (-2, 1, 0, 0, 1),
            (Facing::NegY, Orient::Up) => (3, 1, 0, 0, 0),
            (Facing::NegY, Orient::Down) => (1, -3, 0, 0, 1),
            (Facing::NegY, Orient::Left) => (-3, -1, 1, 0, 1),
            (Facing::NegY, Orient::Right) => (-1, 3, 1, 0, 0),
            (Facing::NegX, Orient::Up) => (3, -2, 1, 0, 0),
            (Facing::NegX, Orient::Down) => (-2, -3, 1, 0, 1),
            (Facing::NegX, Orient::Left) => (-3, 2, 1, -1, 1),
            (Facing::NegX, Orient::Right) => (2, 3, 1, -1, 0),
        }
    }

    /// The unit vector of the direction.
    pub open spec fn direction(self) -> (int, int, int) {
        match self {
            Facing::PosX => (1, 0, 0),
            Facing::PosY => (0, 1, 0),
            Facing::PosZ => (0, 0, 1),
            Facing::NegX => (-1, 0, 0),
            Facing::NegY => (0, -1, 0),
            Facing::NegZ => (0, 0, -1),
        }
    }

    /// Converts [`Facing`] to corresponding [`Rot`].
    /// Resulting [`Rot`] will transform (0, 0, 1) to vector, described
    /// by [`Facing`] variant.
    pub fn to_rot(&self) -> (r: Rot)
        ensures
            r.valid(),
            r.image((0, 0, 1)) == self.direction(),
            r.mat() == match *self {
                Facing::PosX => Mat3x3::rot_spec(0, 1, 0),
                Facing::PosY => Mat3x3::rot_spec(-1, 0, 0),
                Facing::PosZ => Mat3x3::rot_spec(0, 0, 0),
                Facing::NegX => Mat3x3::rot_spec(0, -1, 0),
                Facing::NegY => Mat3x3::rot_spec(1, 0, 0),
                Facing::NegZ => Mat3x3::rot_spec(2, 0, 0),
            },
    {
        proof {
            reveal(Rot::image);
            lemma_facing_matrices();
        }
        match self {
            Facing::PosX => Rot::new(0, 1, 0),
            Facing::PosY => Rot::new(-1, 0, 0),
            Facing::PosZ => Rot::new(0, 0, 0),
            Facing::NegX => Rot::new(0, -1, 0),
            Facing::NegY => Rot::new(1, 0, 0),
            Facing::NegZ => Rot::new(2, 0, 0),
        }
    }
}

} // verus!
