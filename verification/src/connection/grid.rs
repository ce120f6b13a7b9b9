//! The points of a box, in the order in which connections walk them.

use vstd::prelude::*;
use crate::util::{in_bounds, Bounds, Point};

verus! {

/// The number of addressable cells along a side of length `n`: a point has
/// 32-bit coordinates, so no more than `2^31` cells of a side can be named.
pub open spec fn side(n: u32) -> int {
    if n <= 0x8000_0000 {
        n as int
    } else {
        0x8000_0000
    }
}

/// An integer interval `[lo, hi)`.
pub struct Span {
    pub lo: int,
    pub hi: int,
}

/// The points `(x, y, z)` with `z` running through `zs`, in rising order.
pub open spec fn row_points(x: int, y: int, zs: Span) -> Seq<Point> {
    Seq::new(
        if zs.hi > zs.lo {
            (zs.hi - zs.lo) as nat
        } else {
            0
        },
        |k: int| Point { x: x as i32, y: y as i32, z: (zs.lo + k) as i32 },
    )
}

/// The points `(x, y, z)` with `y` in `ys` and `z` in `zs`: row after row.
pub open spec fn plane_points(x: int, ys: Span, zs: Span) -> Seq<Point>
    decreases ys.hi - ys.lo,
{
    if ys.hi <= ys.lo {
        Seq::empty()
    } else {
        plane_points(x, Span { lo: ys.lo, hi: ys.hi - 1 }, zs) + row_points(x, ys.hi - 1, zs)
    }
}

/// The points of the grid `xs` by `ys` by `zs`: plane after plane, so that
/// `x` changes slowest and `z` fastest.
pub open spec fn grid_points(xs: Span, ys: Span, zs: Span) -> Seq<Point>
    decreases xs.hi - xs.lo,
{
    if xs.hi <= xs.lo {
        Seq::empty()
    } else {
        grid_points(Span { lo: xs.lo, hi: xs.hi - 1 }, ys, zs) + plane_points(xs.hi - 1, ys, zs)
    }
}

/// All points of a box of the given size, `x` changing slowest.
pub open spec fn box_points(size: Bounds) -> Seq<Point> {
    grid_points(
        Span { lo: 0, hi: side(size.x) },
        Span { lo: 0, hi: side(size.y) },
        Span { lo: 0, hi: side(size.z) },
    )
}

/// The span lies within the 32-bit coordinates.
pub open spec fn span_ok(s: Span) -> bool {
    i32::MIN <= s.lo && s.hi <= 0x8000_0000
}

/// A point is in a row exactly if it has the row's `x` and `y` and its `z`
/// is in the span.
pub proof fn lemma_row_contains(x: int, y: int, zs: Span, p: Point)
    requires
        i32::MIN <= x <= i32::MAX,
        i32::MIN <= y <= i32::MAX,
        span_ok(zs),
    ensures
        row_points(x, y, zs).contains(p) <==> (p.x == x && p.y == y && zs.lo <= p.z < zs.hi),
{
    let row = row_points(x, y, zs);
    if p.x == x && p.y == y && zs.lo <= p.z < zs.hi {
        assert(row[p.z - zs.lo] == p);
    }
}

/// A point is in a plane exactly if it has the plane's `x` and its `y` and
/// `z` are in the spans.
pub proof fn lemma_plane_contains(x: int, ys: Span, zs: Span, p: Point)
    requires
        i32::MIN <= x <= i32::MAX,
        span_ok(ys),
        span_ok(zs),
    ensures
        plane_points(x, ys, zs).contains(p) <==> (p.x == x && ys.lo <= p.y < ys.hi && zs.lo
            <= p.z < zs.hi),
    decreases ys.hi - ys.lo,
{
    if ys.hi > ys.lo {
        let head = plane_points(x, Span { lo: ys.lo, hi: ys.hi - 1 }, zs);
        let last = row_points(x, ys.hi - 1, zs);
        lemma_plane_contains(x, Span { lo: ys.lo, hi: ys.hi - 1 }, zs, p);
        lemma_row_contains(x, ys.hi - 1, zs, p);
        lemma_concat_contains(head, last, p);
    }
}

/// A point is in a grid exactly if each coordinate is in its span.
pub proof fn lemma_grid_contains(xs: Span, ys: Span, zs: Span, p: Point)
    requires
        span_ok(xs),
        span_ok(ys),
        span_ok(zs),
    ensures
        grid_points(xs, ys, zs).contains(p) <==> (xs.lo <= p.x < xs.hi && ys.lo <= p.y < ys.hi
            && zs.lo <= p.z < zs.hi),
    decreases xs.hi - xs.lo,
{
    if xs.hi > xs.lo {
        let head = grid_points(Span { lo: xs.lo, hi: xs.hi - 1 }, ys, zs);
        let last = plane_points(xs.hi - 1, ys, zs);
        lemma_grid_contains(Span { lo: xs.lo, hi: xs.hi - 1 }, ys, zs, p);
        lemma_plane_contains(xs.hi - 1, ys, zs, p);
        lemma_concat_contains(head, last, p);
    }
}

/// The points of a box are exactly the points within its bounds.
pub proof fn lemma_box_contains(size: Bounds, p: Point)
    ensures
        box_points(size).contains(p) <==> in_bounds(p, size),
{
    lemma_grid_contains(
        Span { lo: 0, hi: side(size.x) },
        Span { lo: 0, hi: side(size.y) },
        Span { lo: 0, hi: side(size.z) },
        p,
    );
}

/// An item is in a concatenation exactly if it is in one of the two parts.
pub proof fn lemma_concat_contains<A>(a: Seq<A>, b: Seq<A>, e: A)
    ensures
        (a + b).contains(e) <==> (a.contains(e) || b.contains(e)),
{
    if a.contains(e) {
        let i = choose|i: int| 0 <= i < a.len() && a[i] == e;
        assert((a + b)[i] == e);
    }
    if b.contains(e) {
        let i = choose|i: int| 0 <= i < b.len() && b[i] == e;
        assert((a + b)[a.len() + i] == e);
    }
    if (a + b).contains(e) {
        let i = choose|i: int| 0 <= i < (a + b).len() && (a + b)[i] == e;
        if i < a.len() {
            assert(a[i] == e);
        } else {
            assert(b[i - a.len()] == e);
        }
    }
}

/// The number of cells along a side, as a 64-bit value.
pub fn side_of(n: u32) -> (s: i64)
    ensures
        s == side(n),
{
    if n <= 0x8000_0000 {
        n as i64
    } else {
        0x8000_0000
    }
}

/// Appends the points of the grid `[x0, x1) x [y0, y1) x [z0, z1)` to `out`.
pub fn push_grid(out: &mut Vec<Point>, x0: i64, x1: i64, y0: i64, y1: i64, z0: i64, z1: i64)
    requires
        span_ok(Span { lo: x0 as int, hi: x1 as int }),
        span_ok(Span { lo: y0 as int, hi: y1 as int }),
        span_ok(Span { lo: z0 as int, hi: z1 as int }),
    ensures
        final(out)@ == old(out)@ + grid_points(
            Span { lo: x0 as int, hi: x1 as int },
            Span { lo: y0 as int, hi: y1 as int },
            Span { lo: z0 as int, hi: z1 as int },
        ),
{
    let ghost before = out@;
    let ghost ys = Span { lo: y0 as int, hi: y1 as int };
    let ghost zs = Span { lo: z0 as int, hi: z1 as int };
    let mut x: i64 = x0;
    proof {
        assert(out@ =~= before + grid_points(Span { lo: x0 as int, hi: x0 as int }, ys, zs));
    }
    while x < x1
        invariant
            x0 <= x1 ==> x0 <= x <= x1,
            x0 > x1 ==> x == x0,
            i32::MIN <= x0,
            x1 <= 0x8000_0000,
            span_ok(ys),
            span_ok(zs),
            ys == (Span { lo: y0 as int, hi: y1 as int }),
            zs == (Span { lo: z0 as int, hi: z1 as int }),
            out@ == before + grid_points(Span { lo: x0 as int, hi: x as int }, ys, zs),
        decreases x1 - x,
    {
        let ghost planes = out@;
        let mut y: i64 = y0;
        proof {
            assert(out@ =~= planes + plane_points(x as int, Span { lo: y0 as int, hi: y0 as int }, zs));
        }
        while y < y1
            invariant
                y0 <= y1 ==> y0 <= y <= y1,
                y0 > y1 ==> y == y0,
                i32::MIN <= y0,
                y1 <= 0x8000_0000,
                i32::MIN <= x < 0x8000_0000,
                span_ok(zs),
                zs == (Span { lo: z0 as int, hi: z1 as int }),
                out@ == planes + plane_points(x as int, Span { lo: y0 as int, hi: y as int }, zs),
            decreases y1 - y,
        {
            let ghost rows = out@;
            let mut z: i64 = z0;
            proof {
                assert(out@ =~= rows + row_points(x as int, y as int, Span { lo: z0 as int, hi: z0 as int }));
            }
            while z < z1
                invariant
                    z0 <= z1 ==> z0 <= z <= z1,
                    z0 > z1 ==> z == z0,
                    i32::MIN <= z0,
                    z1 <= 0x8000_0000,
                    i32::MIN <= x < 0x8000_0000,
                    i32::MIN <= y < 0x8000_0000,
                    out@ == rows + row_points(x as int, y as int, Span { lo: z0 as int, hi: z as int }),
                decreases z1 - z,
            {
                out.push(Point { x: x as i32, y: y as i32, z: z as i32 });
                z += 1;
                proof {
                    assert(out@ =~= rows + row_points(
                        x as int,
                        y as int,
                        Span { lo: z0 as int, hi: z as int },
                    ));
                }
            }
            proof {
                assert(row_points(x as int, y as int, Span { lo: z0 as int, hi: z as int })
                    =~= row_points(x as int, y as int, zs));
                assert(out@ =~= planes + plane_points(
                    x as int,
                    Span { lo: y0 as int, hi: y + 1 },
                    zs,
                ));
            }
            y += 1;
        }
        proof {
            lemma_plane_empty_tail(x as int, y0 as int, y as int, y1 as int, zs);
            assert(out@ =~= before + grid_points(Span { lo: x0 as int, hi: x + 1 }, ys, zs));
        }
        x += 1;
    }
    proof {
        lemma_grid_empty_tail(x0 as int, x as int, x1 as int, ys, zs);
    }
}

/// A plane over an empty span of `y` is the plane over any other empty span.
pub proof fn lemma_plane_empty_tail(x: int, y0: int, y: int, y1: int, zs: Span)
    requires
        y >= y1,
        y0 <= y1 ==> y == y1,
        y0 > y1 ==> y == y0,
    ensures
        plane_points(x, Span { lo: y0, hi: y }, zs) == plane_points(x, Span { lo: y0, hi: y1 }, zs),
{
}

/// A grid over an empty span of `x` is the grid over any other empty span.
pub proof fn lemma_grid_empty_tail(x0: int, x: int, x1: int, ys: Span, zs: Span)
    requires
        x >= x1,
        x0 <= x1 ==> x == x1,
        x0 > x1 ==> x == x0,
    ensures
        grid_points(Span { lo: x0, hi: x }, ys, zs) == grid_points(Span { lo: x0, hi: x1 }, ys, zs),
{
}

/// All points of a box of the given size, `x` changing slowest.
pub fn points_of(size: Bounds) -> (points: Vec<Point>)
    ensures
        points@ == box_points(size),
{
    let mut points: Vec<Point> = Vec::new();
    push_grid(&mut points, 0, side_of(size.x), 0, side_of(size.y), 0, side_of(size.z));
    proof {
        assert(points@ =~= box_points(size));
    }
    points
}

} // verus!
