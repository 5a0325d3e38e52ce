use vstd::prelude::*;
use crate::geometry::scalar::Scalar;
use crate::geometry::scalar::ONE_BITS;

verus! {

/// An affine transform: a 3x3 block that rotates and scales, and a
/// translation.
///
/// Transforms act on row vectors, `v * M`. The rows of the block are the
/// images of the three axes, and the translation is the fourth row of the
/// homogeneous matrix.
#[derive(Clone, Copy, Debug, PartialEq, Eq)]
pub struct Transform {
    pub rotation_scale: [[Scalar; 3]; 3],
    pub translation: [Scalar; 3],
}

impl Transform {
    /// Entry `(row, column)` of the 4x4 homogeneous matrix of the transform.
    pub open spec fn homogeneous_entry(self, row: int, column: int) -> Scalar {
        if column == 3 {
            if row == 3 {
                Scalar { bits: ONE_BITS }
            } else {
                Scalar { bits: 0 }
            }
        } else if row == 3 {
            self.translation[column]
        } else {
            self.rotation_scale[row][column]
        }
    }

    /// Whether `m` is the 4x4 homogeneous matrix of the transform: the block
    /// in the upper left, the translation in the last row, and `(0, 0, 0, 1)`
    /// as the last column.
    pub open spec fn has_matrix(self, m: [[Scalar; 4]; 4]) -> bool {
        forall|row: int, column: int|
            0 <= row < 4 && 0 <= column < 4 ==> m[row][column] == self.homogeneous_entry(
                row,
                column,
            )
    }

    /// Whether the transform is the one that the upper three columns of `m`
    /// hold.
    pub open spec fn is_read_from(self, m: [[Scalar; 4]; 4]) -> bool {
        &&& forall|row: int, column: int|
            0 <= row < 3 && 0 <= column < 3 ==> self.rotation_scale[row][column]
                == m[row][column]
        &&& forall|column: int| 0 <= column < 3 ==> self.translation[column] == m[3][column]
    }

    /// The transform that changes nothing.
    pub open spec fn is_identity(self) -> bool {
        &&& forall|row: int, column: int|
            0 <= row < 3 && 0 <= column < 3 ==> self.rotation_scale[row][column].bits == (if row
                == column {
                ONE_BITS
            } else {
                0u32
            })
        &&& forall|column: int| 0 <= column < 3 ==> self.translation[column].bits == 0
    }

    pub fn new() -> (r: Transform)
        ensures
            r.is_identity(),
    {
        let o: Scalar = Scalar::zero();
        let i: Scalar = Scalar::one();
        Transform { rotation_scale: [[i, o, o], [o, i, o], [o, o, i]], translation: [o, o, o] }
    }

    /// The image of the first axis.
    pub fn left(&self) -> (r: [Scalar; 3])
        ensures
            r == self.rotation_scale[0],
    {
        self.rotation_scale[0]
    }

    /// The image of the second axis.
    pub fn up(&self) -> (r: [Scalar; 3])
        ensures
            r == self.rotation_scale[1],
    {
        self.rotation_scale[1]
    }

    /// The image of the third axis.
    pub fn forward(&self) -> (r: [Scalar; 3])
        ensures
            r == self.rotation_scale[2],
    {
        self.rotation_scale[2]
    }

    /// The 4x4 matrix of the transform, row by row.
    pub fn to_homogeneous(&self) -> (r: [[Scalar; 4]; 4])
        ensures
            self.has_matrix(r),
    {
        let o: Scalar = Scalar::zero();
        let i: Scalar = Scalar::one();
        let rs = &self.rotation_scale;
        let t = &self.translation;
        [
            [rs[0][0], rs[0][1], rs[0][2], o],
            [rs[1][0], rs[1][1], rs[1][2], o],
            [rs[2][0], rs[2][1], rs[2][2], o],
            [t[0], t[1], t[2], i],
        ]
    }

    /// Reads a transform back from a 4x4 matrix. The last column is not
    /// looked at.
    pub fn from_homogeneous(m: [[Scalar; 4]; 4]) -> (r: Transform)
        ensures
            r.is_read_from(m),
    {
        Transform {
            translation: [m[3][0], m[3][1], m[3][2]],
            rotation_scale: [
                [m[0][0], m[0][1], m[0][2]],
                [m[1][0], m[1][1], m[1][2]],
                [m[2][0], m[2][1], m[2][2]],
            ],
        }
    }
}

/// A matrix holds one transform only: two transforms read from the same
/// matrix are equal.
pub proof fn lemma_read_is_unique(m: [[Scalar; 4]; 4], a: Transform, b: Transform)
    requires
        a.is_read_from(m),
        b.is_read_from(m),
    ensures
        a == b,
{
    assert forall|column: int| 0 <= column < 3 implies a.translation[column]
        == b.translation[column] by {
        assert(a.translation[column] == m[3][column]);
    }
    assert(a.translation =~= b.translation);
    assert forall|row: int| 0 <= row < 3 implies a.rotation_scale[row]
        == b.rotation_scale[row] by {
        assert forall|column: int| 0 <= column < 3 implies a.rotation_scale[row][column]
            == b.rotation_scale[row][column] by {
            assert(a.rotation_scale[row][column] == m[row][column]);
            assert(b.rotation_scale[row][column] == m[row][column]);
        }
        assert(a.rotation_scale[row] =~= b.rotation_scale[row]);
    }
    assert(a.rotation_scale =~= b.rotation_scale);
}

/// Writing a transform as a matrix and reading the matrix back gives the
/// transform again, scalar for scalar.
pub proof fn lemma_homogeneous_round_trip(t: Transform, m: [[Scalar; 4]; 4], back: Transform)
    requires
        t.has_matrix(m),
        back.is_read_from(m),
    ensures
        back == t,
{
    assert forall|row: int, column: int| 0 <= row < 3 && 0 <= column < 3 implies m[row][column]
        == t.rotation_scale[row][column] by {
        assert(m[row][column] == t.homogeneous_entry(row, column));
    }
    assert forall|column: int| 0 <= column < 3 implies m[3][column] == t.translation[column] by {
        assert(m[3][column] == t.homogeneous_entry(3, column));
    }
    lemma_read_is_unique(m, back, t);
}

impl Default for Transform {
    fn default() -> (r: Transform)
        ensures
            r.is_identity(),
    {
        Transform::new()
    }
}

} // verus!

