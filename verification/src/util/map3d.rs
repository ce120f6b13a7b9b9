//! A dense three-dimensional array.

use vstd::prelude::*;
use crate::util::vec3::Vec3;

verus! {

/// It's like [`Vec`], but in 3D: a box of `x_size * y_size * z_size` cells,
/// stored row by row along X, then Y, then Z.
#[derive(Debug)]
pub struct Map3D<T> {
    pub x_size: usize,
    pub y_size: usize,
    pub z_size: usize,
    pub data: Vec<T>,
}

/// The number of cells of a box with the given side lengths.
pub open spec fn cells(x: int, y: int, z: int) -> int {
    x * y * z
}

/// The place of the cell `(x, y, z)` in the raw vector of a box whose sides
/// along X and Y are `x_size` and `y_size`.
pub open spec fn cell_id(x_size: int, y_size: int, x: int, y: int, z: int) -> int {
    x + y * x_size + z * x_size * y_size
}

/// Inside a box, every cell has its place in the raw vector.
pub proof fn lemma_cell_id_range(sx: int, sy: int, sz: int, x: int, y: int, z: int)
    requires
        0 <= x < sx,
        0 <= y < sy,
        0 <= z < sz,
    ensures
        0 <= cell_id(sx, sy, x, y, z) < cells(sx, sy, sz),
        0 <= y * sx <= (sy - 1) * sx,
        0 <= z * sx <= (sz - 1) * sx,
        0 <= z * sx * sy <= (sz - 1) * sx * sy,
        sx * sy <= cells(sx, sy, sz),
        0 <= (z * sx) * sy == z * sx * sy,
        y * sx <= cells(sx, sy, sz),
        z * sx <= cells(sx, sy, sz),
        z * sx * sy <= cells(sx, sy, sz),
{
    assert(y * sx <= sx * sy * sz && z * sx <= sx * sy * sz && z * sx * sy <= sx * sy * sz)
        by (nonlinear_arith)
        requires
            0 <= x < sx,
            0 <= y < sy,
            0 <= z < sz,
    {
        assert(sx * sy * sz >= sx * sy);
        assert(sx * sy >= sx);
        assert(y * sx <= sx * sy);
        assert(z * sx * sy <= sz * sx * sy);
        assert(z * sx <= z * sx * sy);
    }
    assert(0 <= y * sx <= (sy - 1) * sx) by (nonlinear_arith)
        requires
            0 <= y < sy,
            0 <= sx,
    ;
    assert(0 <= z * sx <= (sz - 1) * sx) by (nonlinear_arith)
        requires
            0 <= z < sz,
            0 <= sx,
    ;
    assert(0 <= z * sx * sy <= (sz - 1) * sx * sy) by (nonlinear_arith)
        requires
            0 <= z < sz,
            0 <= sx,
            0 <= sy,
    ;
    assert(x + y * sx + z * sx * sy < sx * sy * sz) by (nonlinear_arith)
        requires
            0 <= x < sx,
            0 <= y < sy,
            0 <= z < sz,
    ;
    assert(sx * sy <= sx * sy * sz) by (nonlinear_arith)
        requires
            0 <= sx,
            0 <= sy,
            1 <= sz,
    ;
}

/// Two cells of a box with the same place in the raw vector are the same.
pub proof fn lemma_cell_id_injective(
    sx: int,
    sy: int,
    a: (int, int, int),
    b: (int, int, int),
)
    requires
        0 <= a.0 < sx,
        0 <= a.1 < sy,
        0 <= b.0 < sx,
        0 <= b.1 < sy,
        cell_id(sx, sy, a.0, a.1, a.2) == cell_id(sx, sy, b.0, b.1, b.2),
    ensures
        a == b,
{
    assert(a.2 == b.2 && a.1 == b.1) by (nonlinear_arith)
        requires
            0 <= a.0 < sx,
            0 <= a.1 < sy,
            0 <= b.0 < sx,
            0 <= b.1 < sy,
            a.0 + a.1 * sx + a.2 * sx * sy == b.0 + b.1 * sx + b.2 * sx * sy,
    {
        let u = a.0 + a.1 * sx;
        let v = b.0 + b.1 * sx;
        assert(0 <= u < sx * sy && 0 <= v < sx * sy);
        assert(u - v == (b.2 - a.2) * (sx * sy));
        if a.2 < b.2 {
            assert((b.2 - a.2) * (sx * sy) >= sx * sy);
        }
        if a.2 > b.2 {
            assert((b.2 - a.2) * (sx * sy) <= -(sx * sy));
        }
        assert(a.2 == b.2);
        assert(a.0 - b.0 == (b.1 - a.1) * sx);
        if a.1 < b.1 {
            assert((b.1 - a.1) * sx >= sx);
        }
        if a.1 > b.1 {
            assert((b.1 - a.1) * sx <= -sx);
        }
    }
}

impl<T> Map3D<T> {
    /// The raw vector holds exactly one item for each cell of the box.
    pub open spec fn wf(&self) -> bool {
        self.data.len() == cells(self.x_size as int, self.y_size as int, self.z_size as int)
    }

    /// The cell `pos` lies inside the box.
    pub open spec fn has(&self, pos: (usize, usize, usize)) -> bool {
        pos.0 < self.x_size && pos.1 < self.y_size && pos.2 < self.z_size
    }

    /// The place of the cell `pos` in the raw vector.
    pub open spec fn id_of(&self, pos: (usize, usize, usize)) -> int {
        cell_id(self.x_size as int, self.y_size as int, pos.0 as int, pos.1 as int, pos.2 as int)
    }

    /// The content of the cell `pos`.
    pub open spec fn at(&self, pos: (usize, usize, usize)) -> T {
        self.data@[self.id_of(pos)]
    }

    /// Creates Map3D from raw data. Length of `data` must be equal to
    /// size.0 * size.1 * size.2.
    pub fn from_raw(size: (usize, usize, usize), data: Vec<T>) -> (map: Self)
        requires
            data.len() == cells(size.0 as int, size.1 as int, size.2 as int),
        ensures
            map.wf(),
            map.x_size == size.0,
            map.y_size == size.1,
            map.z_size == size.2,
            map.data == data,
    {
        Map3D { x_size: size.0, y_size: size.1, z_size: size.2, data }
    }

    /// The raw vector of all cells.
    pub fn as_raw(&self) -> (raw: &Vec<T>)
        ensures
            *raw == self.data,
    {
        &self.data
    }

    /// Gives the raw vector of all cells away.
    pub fn to_raw(self) -> (raw: Vec<T>)
        ensures
            raw == self.data,
    {
        self.data
    }

    /// The raw vector of all cells, to be changed in place. The map stays
    /// well-formed as long as the vector keeps its length.
    pub fn as_raw_mut(&mut self) -> (raw: &mut Vec<T>)
        ensures
            *raw == old(self).data,
            final(self).data == *final(raw),
            final(self).x_size == old(self).x_size,
            final(self).y_size == old(self).y_size,
            final(self).z_size == old(self).z_size,
    {
        &mut self.data
    }

    /// The side lengths of the box.
    pub fn size(&self) -> (size: (usize, usize, usize))
        ensures
            size == (self.x_size, self.y_size, self.z_size),
    {
        (self.x_size, self.y_size, self.z_size)
    }

    /// The side lengths of the box, each reduced to its low 32 bits.
    pub fn size_u32(&self) -> (size: (u32, u32, u32))
        ensures
            size == (self.x_size as u32, self.y_size as u32, self.z_size as u32),
    {
        (
            #[verifier::truncate]
            (self.x_size as u32),
            #[verifier::truncate]
            (self.y_size as u32),
            #[verifier::truncate]
            (self.z_size as u32),
        )
    }

    /// The side lengths of the box as a size, each reduced to its low 32
    /// bits.
    pub fn bounds(&self) -> (bounds: Vec3<u32>)
        ensures
            bounds == (Vec3 {
                x: self.x_size as u32,
                y: self.y_size as u32,
                z: self.z_size as u32,
            }),
    {
        let (x, y, z) = self.size_u32();
        Vec3 { x, y, z }
    }

    /// Returns position of the point in raw vector.
    pub fn to_id(&self, pos: (usize, usize, usize)) -> (id: Option<usize>)
        requires
            self.wf(),
        ensures
            id is Some <==> self.has(pos),
            id matches Some(i) ==> i == self.id_of(pos) && i < self.data.len(),
    {
        if pos.0 >= self.x_size || pos.1 >= self.y_size || pos.2 >= self.z_size {
            None
        } else {
            proof {
                lemma_cell_id_range(
                    self.x_size as int,
                    self.y_size as int,
                    self.z_size as int,
                    pos.0 as int,
                    pos.1 as int,
                    pos.2 as int,
                );
            }
            Some(pos.0 + pos.1 * self.x_size + pos.2 * self.x_size * self.y_size)
        }
    }

    /// Returns reference to content at specified point.
    pub fn get(&self, pos: (usize, usize, usize)) -> (item: Option<&T>)
        requires
            self.wf(),
        ensures
            item is Some <==> self.has(pos),
            item matches Some(t) ==> *t == self.at(pos),
    {
        match self.to_id(pos) {
            None => None,
            Some(id) => Some(&self.data[id]),
        }
    }

    /// Returns mutable reference to the content of specified point.
    pub fn get_mut(&mut self, pos: (usize, usize, usize)) -> (item: Option<&mut T>)
        requires
            old(self).wf(),
        ensures
            item is Some <==> old(self).has(pos),
            final(self).x_size == old(self).x_size,
            final(self).y_size == old(self).y_size,
            final(self).z_size == old(self).z_size,
            item matches Some(t) ==> *t == old(self).at(pos) && final(self).data@ == old(
                self,
            ).data@.update(old(self).id_of(pos), *final(t)),
            item is None ==> final(self).data == old(self).data,
    {
        match self.to_id(pos) {
            None => None,
            Some(id) => Some(&mut self.data[id]),
        }
    }

    /// Replaces content of specified point with given `item`. Returns
    /// previous content of the point.
    pub fn replace(&mut self, pos: (usize, usize, usize), item: T) -> (previous: Option<T>)
        requires
            old(self).wf(),
        ensures
            final(self).wf(),
            final(self).x_size == old(self).x_size,
            final(self).y_size == old(self).y_size,
            final(self).z_size == old(self).z_size,
            previous is Some <==> old(self).has(pos),
            previous matches Some(t) ==> t == old(self).at(pos) && final(self).data@ == old(
                self,
            ).data@.update(old(self).id_of(pos), item) && final(self).at(pos) == item,
            previous is None ==> final(self).data@ == old(self).data@,
            forall|other: (usize, usize, usize)|
                old(self).has(other) && other != pos ==> #[trigger] final(self).at(other) == old(
                    self,
                ).at(other),
    {
        proof {
            let sx = self.x_size as int;
            let sy = self.y_size as int;
            assert forall|other: (usize, usize, usize)|
                self.has(other) && self.has(pos) && other != pos implies #[trigger] self.id_of(other)
                != self.id_of(pos) by {
                if self.id_of(other) == self.id_of(pos) {
                    lemma_cell_id_injective(
                        sx,
                        sy,
                        (other.0 as int, other.1 as int, other.2 as int),
                        (pos.0 as int, pos.1 as int, pos.2 as int),
                    );
                }
            }
            assert forall|other: (usize, usize, usize)| self.has(other) implies 0
                <= #[trigger] self.id_of(other) < self.data.len() by {
                lemma_cell_id_range(
                    sx,
                    sy,
                    self.z_size as int,
                    other.0 as int,
                    other.1 as int,
                    other.2 as int,
                );
            }
        }
        match self.to_id(pos) {
            None => None,
            Some(id) => {
                let mut item = item;
                std::mem::swap(&mut self.data[id], &mut item);
                Some(item)
            },
        }
    }
}

impl<T: Clone> Map3D<T> {
    /// A box of the given side lengths, every cell of which holds a clone of
    /// `default`.
    pub fn filled(size: (usize, usize, usize), default: T) -> (map: Self)
        requires
            cells(size.0 as int, size.1 as int, size.2 as int) <= usize::MAX,
        ensures
            map.wf(),
            map.x_size == size.0,
            map.y_size == size.1,
            map.z_size == size.2,
            forall|i: int| 0 <= i < map.data.len() ==> cloned(default, #[trigger] map.data@[i]),
    {
        proof {
            if size.2 > 0 {
                assert(size.0 * size.1 <= size.0 * size.1 * size.2) by (nonlinear_arith)
                    requires
                        size.2 >= 1,
                ;
            } else {
                assert(size.0 * size.1 * size.2 == 0) by (nonlinear_arith)
                    requires
                        size.2 == 0,
                ;
            }
        }
        let total: usize = if size.2 == 0 {
            0
        } else {
            size.0 * size.1 * size.2
        };
        let mut data: Vec<T> = Vec::new();
        let mut i: usize = 0;
        while i < total
            invariant
                i <= total,
                data.len() == i,
                forall|j: int| 0 <= j < i ==> cloned(default, #[trigger] data@[j]),
            decreases total - i,
        {
            data.push(default.clone());
            i += 1;
        }
        Map3D { x_size: size.0, y_size: size.1, z_size: size.2, data }
    }
}


impl<T: Clone> Clone for Map3D<T> {
    fn clone(&self) -> (copy: Self)
        ensures
            copy.x_size == self.x_size,
            copy.y_size == self.y_size,
            copy.z_size == self.z_size,
            copy.data.len() == self.data.len(),
            forall|i: int| 0 <= i < self.data.len() ==> cloned(#[trigger] self.data@[i], copy.data@[i]),
    {
        Map3D {
            x_size: self.x_size,
            y_size: self.y_size,
            z_size: self.z_size,
            data: self.data.clone(),
        }
    }
}

/// The items of the rows, row after row.
pub open spec fn join_rows<T>(rows: Seq<Vec<T>>) -> Seq<T>
    decreases rows.len(),
{
    if rows.len() == 0 {
        Seq::empty()
    } else {
        join_rows(rows.drop_last()) + rows.last()@
    }
}

/// The items of the planes, plane after plane.
pub open spec fn join_planes<T>(planes: Seq<Vec<Vec<T>>>) -> Seq<T>
    decreases planes.len(),
{
    if planes.len() == 0 {
        Seq::empty()
    } else {
        join_planes(planes.drop_last()) + join_rows(planes.last()@)
    }
}

/// Every plane has `sy` rows, and every row `sx` items.
pub open spec fn is_box<T>(planes: Seq<Vec<Vec<T>>>, sx: int, sy: int) -> bool {
    &&& forall|z: int| 0 <= z < planes.len() ==> (#[trigger] planes[z]).len() == sy
    &&& forall|z: int, y: int|
        0 <= z < planes.len() && 0 <= y < planes[z].len() ==> (#[trigger] planes[z][y]).len() == sx
}

/// The number of rows of the planes: that of the first plane.
pub open spec fn rows_of<T>(planes: Seq<Vec<Vec<T>>>) -> int {
    if planes.len() > 0 {
        planes[0].len() as int
    } else {
        0
    }
}

/// The number of items of the rows: that of the first row.
pub open spec fn items_of<T>(planes: Seq<Vec<Vec<T>>>) -> int {
    if planes.len() > 0 && planes[0].len() > 0 {
        planes[0][0].len() as int
    } else {
        0
    }
}

/// In rows of one length, the item `x` of the row `y` is found again at
/// `x + y * sx`.
pub proof fn lemma_join_rows<T>(rows: Seq<Vec<T>>, sx: int, y: int, x: int)
    requires
        forall|r: int| 0 <= r < rows.len() ==> (#[trigger] rows[r]).len() == sx,
        0 <= sx,
    ensures
        join_rows(rows).len() == rows.len() * sx,
        0 <= y < rows.len() && 0 <= x < sx ==> 0 <= x + y * sx < join_rows(rows).len() && join_rows(
            rows,
        )[x + y * sx] == rows[y][x],
    decreases rows.len(),
{
    if rows.len() > 0 {
        let head = rows.drop_last();
        assert forall|r: int| 0 <= r < head.len() implies (#[trigger] head[r]).len() == sx by {
            assert(head[r] == rows[r]);
        }
        lemma_join_rows(head, sx, y, x);
        assert(rows.last().len() == sx);
        assert(rows.len() * sx == head.len() * sx + sx) by (nonlinear_arith)
            requires
                head.len() == rows.len() - 1,
        ;
        if 0 <= y < rows.len() && 0 <= x < sx {
            if y == rows.len() - 1 {
                assert(join_rows(rows)[head.len() * sx + x] == rows.last()@[x]);
            } else {
                assert(head[y] == rows[y]);
                assert(y * sx + sx <= head.len() * sx) by (nonlinear_arith)
                    requires
                        0 <= y < head.len(),
                        0 <= sx,
                ;
            }
        }
    } else {
        assert(rows.len() * sx == 0) by (nonlinear_arith)
            requires
                rows.len() == 0,
        ;
    }
}

/// In a box of planes, the item `x` of the row `y` of the plane `z` is
/// found again at the place of the cell `(x, y, z)`.
pub proof fn lemma_join_planes<T>(planes: Seq<Vec<Vec<T>>>, sx: int, sy: int, z: int, y: int, x: int)
    requires
        is_box(planes, sx, sy),
        0 <= sx,
        0 <= sy,
    ensures
        join_planes(planes).len() == cells(sx, sy, planes.len() as int),
        0 <= z < planes.len() && 0 <= y < sy && 0 <= x < sx ==> 0 <= cell_id(sx, sy, x, y, z)
            < join_planes(planes).len() && join_planes(planes)[cell_id(sx, sy, x, y, z)]
            == planes[z][y][x],
    decreases planes.len(),
{
    if planes.len() > 0 {
        let head = planes.drop_last();
        assert(is_box(head, sx, sy)) by {
            assert forall|a: int| 0 <= a < head.len() implies (#[trigger] head[a]).len() == sy by {
                assert(head[a] == planes[a]);
            }
            assert forall|a: int, b: int| 0 <= a < head.len() && 0 <= b < head[a].len() implies (
            #[trigger] head[a][b]).len() == sx by {
                assert(head[a] == planes[a]);
                assert(planes[a][b].len() == sx);
            }
        }
        lemma_join_planes(head, sx, sy, z, y, x);
        let last = planes.last()@;
        assert(planes[planes.len() - 1].len() == sy);
        assert forall|r: int| 0 <= r < last.len() implies (#[trigger] last[r]).len() == sx by {
            assert(planes[planes.len() - 1][r].len() == sx);
        }
        lemma_join_rows(last, sx, y, x);
        assert(sx * sy * planes.len() == sx * sy * head.len() + sy * sx) by (nonlinear_arith)
            requires
                head.len() == planes.len() - 1,
        ;
        if 0 <= z < planes.len() && 0 <= y < sy && 0 <= x < sx {
            lemma_cell_id_range(sx, sy, planes.len() as int, x, y, z);
            if z == planes.len() - 1 {
                assert(cell_id(sx, sy, x, y, z) == sx * sy * head.len() + (x + y * sx))
                    by (nonlinear_arith)
                    requires
                        z == head.len(),
                        cell_id(sx, sy, x, y, z) == x + y * sx + z * sx * sy,
                ;
                assert(join_planes(planes)[join_planes(head).len() + (x + y * sx)] == join_rows(
                    last,
                )[x + y * sx]);
            } else {
                assert(head[z] == planes[z]);
                lemma_cell_id_range(sx, sy, head.len() as int, x, y, z);
            }
        }
    } else {
        assert(sx * sy * planes.len() == 0) by (nonlinear_arith)
            requires
                planes.len() == 0,
        ;
    }
}

impl<T> Map3D<T> {
    /// Converts nested lists into Map3D: a list of planes along Z, each a
    /// list of rows along Y, each a list of items along X. All planes have
    /// to have the same number of rows, and all rows the same number of
    /// items.
    pub fn from_nested(vecs: Vec<Vec<Vec<T>>>) -> (map: Self)
        requires
            is_box(vecs@, items_of(vecs@), rows_of(vecs@)),
        ensures
            map.wf(),
            map.x_size == items_of(vecs@),
            map.y_size == rows_of(vecs@),
            map.z_size == vecs.len(),
            map.data@ == join_planes(vecs@),
            forall|x: usize, y: usize, z: usize|
                x < map.x_size && y < map.y_size && z < map.z_size ==> #[trigger] map.at((x, y, z))
                    == vecs[z as int][y as int][x as int],
    {
        let ghost all = vecs@;
        let z_size = vecs.len();
        let y_size = if z_size > 0 {
            vecs[0].len()
        } else {
            0
        };
        let x_size = if z_size > 0 && y_size > 0 {
            vecs[0][0].len()
        } else {
            0
        };
        let mut data: Vec<T> = Vec::new();
        let mut planes = crate::util::reversed(vecs);
        let mut z: usize = 0;
        proof {
            assert(all.take(0).len() == 0);
        }
        while z < z_size
            invariant
                z <= z_size,
                z_size == all.len(),
                planes.len() == z_size - z,
                forall|j: int| 0 <= j < z_size - z ==> #[trigger] planes@[j] == all[z_size - 1 - j],
                data@ == join_planes(all.take(z as int)),
            decreases z_size - z,
        {
            let ghost planes_before = planes@;
            let ghost seen = all.take(z + 1);
            match planes.pop() {
                Some(plane) => {
                    proof {
                        assert(plane == planes_before[z_size - z - 1]);
                        assert(plane == all[z as int]);
                        assert forall|j: int| 0 <= j < z_size - z - 1 implies #[trigger] planes@[j]
                            == all[z_size - 1 - j] by {
                            assert(planes@[j] == planes_before[j]);
                        }
                        assert(seen.drop_last() =~= all.take(z as int));
                        assert(seen.last() == plane);
                    }
                    let ghost done = data@;
                    let ghost list = plane@;
                    let rows_count = plane.len();
                    let mut rows = crate::util::reversed(plane);
                    let mut y: usize = 0;
                    proof {
                        assert(list.take(0).len() == 0);
                        assert(data@ =~= done + join_rows(list.take(0)));
                    }
                    while y < rows_count
                        invariant
                            y <= rows_count,
                            rows_count == list.len(),
                            rows.len() == rows_count - y,
                            forall|j: int|
                                0 <= j < rows_count - y ==> #[trigger] rows@[j] == list[rows_count - 1
                                    - j],
                            data@ == done + join_rows(list.take(y as int)),
                        decreases rows_count - y,
                    {
                        let ghost rows_before = rows@;
                        let ghost seen_rows = list.take(y + 1);
                        match rows.pop() {
                            Some(row) => {
                                proof {
                                    assert(row == rows_before[rows_count - y - 1]);
                                    assert(row == list[y as int]);
                                    assert forall|j: int|
                                        0 <= j < rows_count - y - 1 implies #[trigger] rows@[j]
                                        == list[rows_count - 1 - j] by {
                                        assert(rows@[j] == rows_before[j]);
                                    }
                                    assert(seen_rows.drop_last() =~= list.take(y as int));
                                    assert(seen_rows.last() == row);
                                }
                                let mut row = row;
                                data.append(&mut row);
                                proof {
                                    assert(data@ =~= done + join_rows(seen_rows));
                                }
                            },
                            None => {
                                proof {
                                    assert(false);
                                }
                            },
                        }
                        y += 1;
                    }
                    proof {
                        assert(list.take(y as int) =~= list);
                    }
                },
                None => {
                    proof {
                        assert(false);
                    }
                },
            }
            z += 1;
        }
        proof {
            assert(all.take(z as int) =~= all);
            lemma_join_planes(all, x_size as int, y_size as int, 0, 0, 0);
            assert forall|x: usize, y: usize, z: usize|
                x < x_size && y < y_size && z < z_size implies data@[cell_id(
                x_size as int,
                y_size as int,
                x as int,
                y as int,
                z as int,
            )] == all[z as int][y as int][x as int] by {
                lemma_join_planes(all, x_size as int, y_size as int, z as int, y as int, x as int);
            }
        }
        Map3D { x_size, y_size, z_size, data }
    }
}

} // verus!
