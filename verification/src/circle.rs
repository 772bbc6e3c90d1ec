//! Rasterization of circles into lattice points.

use vstd::prelude::*;

verus! {

/// A point of the integer lattice. `x` grows to the right, `y` upward.
#[derive(Copy, Clone, PartialEq, Eq, Structural, Debug)]
pub struct Point {
    pub x: i64,
    pub y: i64,
}

impl Point {
    pub open spec fn view(&self) -> (int, int) {
        (self.x as int, self.y as int)
    }
}

/// The coordinates of `points`.
pub open spec fn coords(points: Seq<Point>) -> Seq<(int, int)> {
    Seq::new(points.len(), |i: int| points[i]@)
}

/// Squared distance of `p` from the origin.
pub open spec fn sq_norm(p: (int, int)) -> int {
    p.0 * p.0 + p.1 * p.1
}

/// One step of the scan of the first octant of the circle of radius `r`
/// around the origin: diagonally up and to the right, and back to the left
/// where that falls inside the circle.
pub open spec fn scan_step(r: int, p: (int, int)) -> (int, int) {
    if sq_norm((p.0 + 1, p.1 + 1)) < r * r {
        (p.0, p.1 + 1)
    } else {
        (p.0 + 1, p.1 + 1)
    }
}

/// The points that the scan visits after `p`: it goes on while it is left of
/// the diagonal `-x == y`, so that the last point is on or just past it.
pub open spec fn scan_from(r: int, p: (int, int)) -> Seq<(int, int)>
    decreases -p.0 - p.1 + 1,
{
    if -p.0 > p.1 {
        seq![scan_step(r, p)] + scan_from(r, scan_step(r, p))
    } else {
        Seq::empty()
    }
}

/// The scan from the leftmost point `(-r, 0)`, which is not part of it.
pub open spec fn scanned(r: int) -> Seq<(int, int)> {
    scan_from(r, (-r, 0))
}

pub open spec fn on_diagonal(p: (int, int)) -> bool {
    -p.0 == p.1
}

/// Whether the scan ends on the diagonal.
pub open spec fn has_diagonal(r: int) -> bool {
    scanned(r).len() > 0 && on_diagonal(scanned(r).last())
}

/// The scanned points of the first octant, without a point on the diagonal.
pub open spec fn octant(r: int) -> Seq<(int, int)> {
    if has_diagonal(r) {
        scanned(r).drop_last()
    } else {
        scanned(r)
    }
}

/// The scanned point on the diagonal: one point or none.
pub open spec fn diagonal(r: int) -> Seq<(int, int)> {
    if has_diagonal(r) {
        seq![scanned(r).last()]
    } else {
        Seq::empty()
    }
}

/// The image in octant `k` of a point `p` of the first octant. The octants
/// are counted clockwise from 1, the one above the negative x axis.
pub open spec fn into_octant(k: int, p: (int, int)) -> (int, int) {
    if k == 1 {
        p
    } else if k == 2 {
        (-p.1, -p.0)
    } else if k == 3 {
        (p.1, -p.0)
    } else if k == 4 {
        (-p.0, p.1)
    } else if k == 5 {
        (-p.0, -p.1)
    } else if k == 6 {
        (p.1, p.0)
    } else if k == 7 {
        (-p.1, p.0)
    } else {
        (p.0, -p.1)
    }
}

/// The points of octant `k` in clockwise order: the images of the first
/// octant's points, in their order for odd `k` and in reverse for even `k`.
pub open spec fn octant_points(r: int, k: int) -> Seq<(int, int)> {
    let first = octant(r);
    Seq::new(
        first.len(),
        |i: int|
            if k % 2 == 1 {
                into_octant(k, first[i])
            } else {
                into_octant(k, first[first.len() - 1 - i])
            },
    )
}

/// The octant that holds the diagonal point of quadrant `q`.
pub open spec fn diagonal_octant(q: int) -> int {
    if q == 0 {
        1
    } else if q == 1 {
        4
    } else if q == 2 {
        5
    } else {
        8
    }
}

/// The diagonal point of quadrant `q`, if the scan found one.
pub open spec fn diagonal_points(r: int, q: int) -> Seq<(int, int)> {
    let first = diagonal(r);
    Seq::new(first.len(), |i: int| into_octant(diagonal_octant(q), first[i]))
}

/// The point on the axis at which quadrant `q` begins: left, top, right,
/// bottom.
pub open spec fn cardinal(r: int, q: int) -> (int, int) {
    if q == 0 {
        (-r, 0)
    } else if q == 1 {
        (0, r)
    } else if q == 2 {
        (r, 0)
    } else {
        (0, -r)
    }
}

/// The points of quadrant `q` (0 to 3, clockwise from the left): its cardinal
/// point, an octant, the diagonal point if there is one, the next octant.
pub open spec fn quadrant(r: int, q: int) -> Seq<(int, int)> {
    seq![cardinal(r, q)] + octant_points(r, 2 * q + 1) + diagonal_points(r, q) + octant_points(
        r,
        2 * q + 2,
    )
}

/// The circle of radius `r` around the origin as a closed path of lattice
/// points, clockwise from the leftmost point.
pub open spec fn circle(r: int) -> Seq<(int, int)> {
    quadrant(r, 0) + quadrant(r, 1) + quadrant(r, 2) + quadrant(r, 3)
}

/// `points` moved by `by`.
pub open spec fn shifted(points: Seq<(int, int)>, by: (int, int)) -> Seq<(int, int)> {
    Seq::new(points.len(), |i: int| (points[i].0 + by.0, points[i].1 + by.1))
}

/// The circle of radius `r` around `center`.
pub open spec fn circle_around(center: (int, int), r: int) -> Seq<(int, int)> {
    shifted(circle(r), center)
}

/// Whether `p` lies in the square of half-width `r` around the origin.
pub open spec fn within(r: int, p: (int, int)) -> bool {
    -r <= p.0 <= r && -r <= p.1 <= r
}

/// The scan stays in the upper left quarter of the bounding square and
/// outside the open disk of radius `r`.
pub proof fn lemma_scan_from(r: int, p: (int, int))
    requires
        -r <= p.0 <= 0,
        0 <= p.1,
        p.1 <= -p.0 + 1,
        sq_norm(p) >= r * r,
    ensures
        forall|i: int|
            0 <= i < scan_from(r, p).len() ==> {
                let q = #[trigger] scan_from(r, p)[i];
                &&& -r <= q.0 <= 0
                &&& 0 <= q.1 <= r
                &&& sq_norm(q) >= r * r
                &&& q.1 <= -q.0 + 1
                &&& q.1 == p.1 + i + 1
                &&& i < scan_from(r, p).len() - 1 ==> -q.0 > q.1
            },
    decreases -p.0 - p.1 + 1,
{
    if -p.0 > p.1 {
        let q = scan_step(r, p);
        assert(sq_norm(q) >= r * r) by (nonlinear_arith)
            requires
                q == scan_step(r, p),
                sq_norm(p) >= r * r,
                p.1 >= 0,
        {
            if q.0 == p.0 {
                assert((p.1 + 1) * (p.1 + 1) >= p.1 * p.1);
            }
        }
        lemma_scan_from(r, q);
        let rest = scan_from(r, q);
        assert forall|i: int| 0 <= i < scan_from(r, p).len() implies {
            let s = #[trigger] scan_from(r, p)[i];
            &&& -r <= s.0 <= 0
            &&& 0 <= s.1 <= r
            &&& sq_norm(s) >= r * r
            &&& s.1 <= -s.0 + 1
            &&& s.1 == p.1 + i + 1
            &&& i < scan_from(r, p).len() - 1 ==> -s.0 > s.1
        } by {
            if i > 0 {
                assert(scan_from(r, p)[i] == rest[i - 1]);
            } else {
                if rest.len() > 0 {
                    assert(-q.0 > q.1);
                }
            }
        }
    }
}

/// The leftmost point is at `r` from the origin.
pub proof fn lemma_start_on_circle(r: int)
    ensures
        sq_norm((-r, 0)) == r * r,
        r * r >= 0,
{
    assert((-r) * (-r) + 0 * 0 == r * r && r * r >= 0) by (nonlinear_arith);
}

/// Appending a point to a path, and the moved point to the moved path, keeps
/// the second the first moved.
proof fn lemma_push_shifted(
    points: Seq<Point>,
    done: Seq<(int, int)>,
    c: (int, int),
    moved: Point,
    p: (int, int),
)
    requires
        coords(points) == shifted(done, c),
        moved@ == (p.0 + c.0, p.1 + c.1),
    ensures
        coords(points.push(moved)) == shifted(done + seq![p], c),
{
    let a = coords(points.push(moved));
    let b = shifted(done + seq![p], c);
    assert(coords(points).len() == points.len());
    assert(shifted(done, c).len() == done.len());
    assert(a.len() == points.len() + 1);
    assert(b.len() == done.len() + 1);
    assert forall|i: int| 0 <= i < a.len() implies a[i] == b[i] by {
        if i < points.len() {
            assert(coords(points)[i] == shifted(done, c)[i]);
            assert((done + seq![p])[i] == done[i]);
        } else {
            assert((done + seq![p])[i] == p);
        }
    }
    assert(a =~= b);
}

/// Every point of the first octant and the diagonal point lie in the upper
/// left quarter of the bounding square, at no less than `r` from the origin.
pub proof fn lemma_scanned(r: int)
    requires
        0 <= r,
    ensures
        forall|i: int|
            0 <= i < octant(r).len() ==> {
                let q = #[trigger] octant(r)[i];
                -r <= q.0 <= 0 && 0 <= q.1 <= r && sq_norm(q) >= r * r
            },
        forall|i: int|
            0 <= i < diagonal(r).len() ==> {
                let q = #[trigger] diagonal(r)[i];
                -r <= q.0 <= 0 && 0 <= q.1 <= r && sq_norm(q) >= r * r && on_diagonal(q)
            },
        diagonal(r).len() <= 1,
        scanned(r) == octant(r) + diagonal(r),
{
    lemma_start_on_circle(r);
    lemma_scan_from(r, (-r, 0));
    assert(scanned(r) =~= octant(r) + diagonal(r));
}

/// Number of points of each quadrant.
pub open spec fn quadrant_len(r: int) -> int {
    1 + 2 * (octant(r).len() as int) + diagonal(r).len()
}

/// Whether `p` is one of the eight images of `s` under the symmetries of the
/// square.
pub open spec fn is_image(p: (int, int), s: (int, int)) -> bool {
    ||| p == into_octant(1, s)
    ||| p == into_octant(2, s)
    ||| p == into_octant(3, s)
    ||| p == into_octant(4, s)
    ||| p == into_octant(5, s)
    ||| p == into_octant(6, s)
    ||| p == into_octant(7, s)
    ||| p == into_octant(8, s)
}

/// Whether `p` is one of the four points where the circle crosses the axes.
pub open spec fn is_cardinal(r: int, p: (int, int)) -> bool {
    p == (-r, 0int) || p == (0int, r) || p == (r, 0int) || p == (0int, -r)
}

/// Whether `p` is a point of the circle of radius `r`: a cardinal point, or
/// an image of a scanned point.
pub open spec fn on_circle(r: int, p: (int, int)) -> bool {
    ||| is_cardinal(r, p)
    ||| exists|j: int| 0 <= j < octant(r).len() && is_image(p, #[trigger] octant(r)[j])
    ||| diagonal(r).len() == 1 && is_image(p, diagonal(r)[0])
}

/// The points of a quadrant, by position.
pub proof fn lemma_quadrant_at(r: int, q: int, j: int)
    requires
        0 <= q < 4,
        0 <= j < octant(r).len(),
    ensures
        quadrant(r, q).len() == quadrant_len(r),
        quadrant(r, q)[0] == cardinal(r, q),
        quadrant(r, q)[1 + j] == into_octant(2 * q + 1, octant(r)[j]),
        quadrant(r, q)[1 + octant(r).len() + diagonal(r).len() + j] == into_octant(
            2 * q + 2,
            octant(r)[octant(r).len() - 1 - j],
        ),
{
}

/// The cardinal point and the diagonal point of a quadrant, by position.
pub proof fn lemma_quadrant_fixed(r: int, q: int)
    requires
        0 <= q < 4,
    ensures
        quadrant(r, q).len() == quadrant_len(r),
        quadrant(r, q)[0] == cardinal(r, q),
        diagonal(r).len() == 1 ==> quadrant(r, q)[1 + (octant(r).len() as int)] == into_octant(
            diagonal_octant(q),
            diagonal(r)[0],
        ),
{
}

/// The circle is its four quadrants, one after the other.
pub proof fn lemma_circle_at(r: int, q: int, t: int)
    requires
        0 <= q < 4,
        0 <= t < quadrant_len(r),
    ensures
        circle(r).len() == 4 * quadrant_len(r),
        circle(r)[q * quadrant_len(r) + t] == quadrant(r, q)[t],
{
    lemma_quadrant_fixed(r, 0);
    lemma_quadrant_fixed(r, 1);
    lemma_quadrant_fixed(r, 2);
    lemma_quadrant_fixed(r, 3);
    lemma_times_quadrant(q, quadrant_len(r));
}

/// A small multiple, written out.
proof fn lemma_times_quadrant(q: int, len: int)
    requires
        0 <= q < 4,
    ensures
        q * len == if q == 0 {
            0
        } else if q == 1 {
            len
        } else if q == 2 {
            2 * len
        } else {
            3 * len
        },
{
    assert(0 * len == 0 && 1 * len == len) by (nonlinear_arith);
}

/// The path starts at the leftmost point of the circle and passes the top,
/// the rightmost and the bottom point in this order, a quarter of the path
/// apart.
pub proof fn lemma_circle_cardinals(r: int)
    ensures
        circle(r).len() == 4 * quadrant_len(r),
        circle(r).len() >= 4,
        circle(r)[0] == (-r, 0int),
        circle(r)[quadrant_len(r)] == (0int, r),
        circle(r)[2 * quadrant_len(r)] == (r, 0int),
        circle(r)[3 * quadrant_len(r)] == (0int, -r),
{
    lemma_circle_at(r, 0, 0);
    lemma_circle_at(r, 1, 0);
    lemma_circle_at(r, 2, 0);
    lemma_circle_at(r, 3, 0);
    lemma_quadrant_fixed(r, 0);
    lemma_quadrant_fixed(r, 1);
    lemma_quadrant_fixed(r, 2);
    lemma_quadrant_fixed(r, 3);
}

/// Every point of the path is a cardinal point or an image of a scanned
/// point.
#[verifier::rlimit(30)]
pub proof fn lemma_path_on_circle(r: int, i: int)
    requires
        0 <= i < circle(r).len(),
    ensures
        on_circle(r, circle(r)[i]),
{
    let len = quadrant_len(r);
    let n = octant(r).len() as int;
    let d = diagonal(r).len() as int;
    lemma_circle_at(r, 0, 0);
    let q: int = if i < len {
        0
    } else if i < 2 * len {
        1
    } else if i < 3 * len {
        2
    } else {
        3
    };
    lemma_times_quadrant(q, len);
    let t = i - q * len;
    lemma_circle_at(r, q, t);
    lemma_quadrant_fixed(r, q);
    let p = circle(r)[i];
    if t == 0 {
        assert(is_cardinal(r, p));
    } else if t <= n {
        lemma_quadrant_at(r, q, t - 1);
        assert(is_image(p, octant(r)[t - 1]));
    } else if t < 1 + n + d {
        assert(is_image(p, diagonal(r)[0]));
    } else {
        let j = t - 1 - n - d;
        lemma_quadrant_at(r, q, j);
        assert(is_image(p, octant(r)[n - 1 - j]));
    }
}

/// Every cardinal point and every image of a scanned point is on the path.
#[verifier::rlimit(30)]
pub proof fn lemma_on_circle_in_path(r: int, p: (int, int))
    requires
        0 <= r,
        on_circle(r, p),
    ensures
        circle(r).contains(p),
{
    let len = quadrant_len(r);
    let n = octant(r).len() as int;
    let d = diagonal(r).len() as int;
    lemma_circle_cardinals(r);
    lemma_scanned(r);
    if is_cardinal(r, p) {
        assert(circle(r)[0] == p || circle(r)[len] == p || circle(r)[2 * len] == p || circle(
            r,
        )[3 * len] == p);
    } else if exists|j: int| 0 <= j < octant(r).len() && is_image(p, #[trigger] octant(r)[j]) {
        let j = choose|j: int| 0 <= j < octant(r).len() && is_image(p, #[trigger] octant(r)[j]);
        let s = octant(r)[j];
        let back = n - 1 - j;
        lemma_quadrant_at(r, 0, j);
        lemma_quadrant_at(r, 1, j);
        lemma_quadrant_at(r, 2, j);
        lemma_quadrant_at(r, 3, j);
        lemma_quadrant_at(r, 0, back);
        lemma_quadrant_at(r, 1, back);
        lemma_quadrant_at(r, 2, back);
        lemma_quadrant_at(r, 3, back);
        lemma_circle_at(r, 0, 1 + j);
        lemma_circle_at(r, 1, 1 + j);
        lemma_circle_at(r, 2, 1 + j);
        lemma_circle_at(r, 3, 1 + j);
        lemma_circle_at(r, 0, 1 + n + d + back);
        lemma_circle_at(r, 1, 1 + n + d + back);
        lemma_circle_at(r, 2, 1 + n + d + back);
        lemma_circle_at(r, 3, 1 + n + d + back);
        if p == into_octant(1, s) {
            assert(circle(r)[1 + j] == p);
        } else if p == into_octant(2, s) {
            assert(circle(r)[1 + n + d + back] == p);
        } else if p == into_octant(3, s) {
            assert(circle(r)[len + 1 + j] == p);
        } else if p == into_octant(4, s) {
            assert(circle(r)[len + 1 + n + d + back] == p);
        } else if p == into_octant(5, s) {
            assert(circle(r)[2 * len + 1 + j] == p);
        } else if p == into_octant(6, s) {
            assert(circle(r)[2 * len + 1 + n + d + back] == p);
        } else if p == into_octant(7, s) {
            assert(circle(r)[3 * len + 1 + j] == p);
        } else {
            assert(circle(r)[3 * len + 1 + n + d + back] == p);
        }
    } else {
        let s = diagonal(r)[0];
        assert(on_diagonal(s));
        lemma_quadrant_fixed(r, 0);
        lemma_quadrant_fixed(r, 1);
        lemma_quadrant_fixed(r, 2);
        lemma_quadrant_fixed(r, 3);
        lemma_circle_at(r, 0, 1 + n);
        lemma_circle_at(r, 1, 1 + n);
        lemma_circle_at(r, 2, 1 + n);
        lemma_circle_at(r, 3, 1 + n);
        if p == into_octant(1, s) || p == into_octant(2, s) {
            assert(circle(r)[1 + n] == p);
        } else if p == into_octant(3, s) || p == into_octant(4, s) {
            assert(circle(r)[len + 1 + n] == p);
        } else if p == into_octant(5, s) || p == into_octant(6, s) {
            assert(circle(r)[2 * len + 1 + n] == p);
        } else {
            assert(circle(r)[3 * len + 1 + n] == p);
        }
    }
}

/// The rasterized circle is symmetric under the eight symmetries of the
/// square: with each of its points it holds the mirror images of the point in
/// both axes and both diagonals, and the point turned by each quarter.
pub proof fn lemma_circle_symmetric(r: int, k: int, i: int)
    requires
        0 <= r,
        1 <= k <= 8,
        0 <= i < circle(r).len(),
    ensures
        circle(r).contains(into_octant(k, circle(r)[i])),
{
    let p = circle(r)[i];
    let image = into_octant(k, p);
    lemma_path_on_circle(r, i);
    if is_cardinal(r, p) {
        assert(is_cardinal(r, image));
    } else if exists|j: int| 0 <= j < octant(r).len() && is_image(p, #[trigger] octant(r)[j]) {
        let j = choose|j: int| 0 <= j < octant(r).len() && is_image(p, #[trigger] octant(r)[j]);
        assert(is_image(image, octant(r)[j]));
    } else {
        assert(is_image(image, diagonal(r)[0]));
    }
    assert(on_circle(r, image));
    lemma_on_circle_in_path(r, image);
}

/// Every point of the path lies in the bounding square of the circle and not
/// inside the circle.
pub proof fn lemma_circle_points(r: int, i: int)
    requires
        0 <= r,
        0 <= i < circle(r).len(),
    ensures
        within(r, circle(r)[i]),
        sq_norm(circle(r)[i]) >= r * r,
{
    let p = circle(r)[i];
    lemma_path_on_circle(r, i);
    lemma_scanned(r);
    lemma_start_on_circle(r);
    if is_cardinal(r, p) {
        assert(sq_norm(p) == r * r) by (nonlinear_arith)
            requires
                is_cardinal(r, p),
        ;
    } else if exists|j: int| 0 <= j < octant(r).len() && is_image(p, #[trigger] octant(r)[j]) {
        let j = choose|j: int| 0 <= j < octant(r).len() && is_image(p, #[trigger] octant(r)[j]);
        lemma_image_norm(p, octant(r)[j]);
    } else {
        lemma_image_norm(p, diagonal(r)[0]);
    }
}

/// The symmetries of the square keep the distance from the origin.
pub proof fn lemma_image_norm(p: (int, int), s: (int, int))
    requires
        is_image(p, s),
    ensures
        sq_norm(p) == sq_norm(s),
{
    assert(sq_norm(p) == sq_norm(s)) by (nonlinear_arith)
        requires
            is_image(p, s),
    ;
}

/// The path around `center` starts at the leftmost point of the circle, and
/// each of its points is the point of the circle around the origin moved by
/// `center`.
pub proof fn lemma_circle_around(center: (int, int), r: int)
    ensures
        circle_around(center, r).len() == circle(r).len(),
        circle_around(center, r).len() >= 4,
        circle_around(center, r)[0] == (center.0 - r, center.1),
        forall|i: int|
            0 <= i < circle(r).len() ==> #[trigger] circle_around(center, r)[i] == (
                circle(r)[i].0 + center.0,
                circle(r)[i].1 + center.1,
            ),
{
    lemma_circle_cardinals(r);
}

/// The scan rises by one row with each point, stays on the left of the
/// diagonal or steps just past it, and leaves the point on the diagonal out
/// of the octant.
pub proof fn lemma_octant_point(r: int, m: int)
    requires
        0 <= r,
        0 <= m < octant(r).len(),
    ensures
        -r <= octant(r)[m].0 <= 0,
        octant(r)[m].1 == m + 1,
        octant(r)[m].1 <= -octant(r)[m].0 + 1,
        !on_diagonal(octant(r)[m]),
{
    lemma_start_on_circle(r);
    lemma_scan_from(r, (-r, 0));
    assert(octant(r)[m] == scanned(r)[m]);
}

/// Whether `p` lies where two octants meet: on an axis, on a diagonal, or
/// next to a diagonal.
pub open spec fn near_octant_boundary(p: (int, int)) -> bool {
    let x = if p.0 < 0 {
        -p.0
    } else {
        p.0
    };
    let y = if p.1 < 0 {
        -p.1
    } else {
        p.1
    };
    x == 0 || y == 0 || -1 <= x - y <= 1
}

/// Where in its quadrant the point at position `t` of the quadrant comes
/// from: the octant, and the position in the scan of the first octant; for a
/// cardinal point and a point on a diagonal, octant 0.
pub open spec fn source_of(r: int, q: int, t: int) -> (int, int) {
    let n = octant(r).len() as int;
    let d = diagonal(r).len() as int;
    if 1 <= t <= n {
        (2 * q + 1, t - 1)
    } else if 1 + n + d <= t {
        (2 * q + 2, n - 1 - (t - 1 - n - d))
    } else {
        (0, 0)
    }
}

/// A point of the path away from the axes and the diagonals is the image of
/// a scanned point that lies well inside the first octant.
proof fn lemma_inner_point(r: int, q: int, t: int)
    requires
        0 <= r,
        0 <= q < 4,
        0 <= t < quadrant_len(r),
        !near_octant_boundary(quadrant(r, q)[t]),
    ensures
        ({
            let (k, m) = source_of(r, q, t);
            &&& 1 <= k <= 8
            &&& 0 <= m < octant(r).len()
            &&& quadrant(r, q)[t] == into_octant(k, octant(r)[m])
            &&& -octant(r)[m].0 > octant(r)[m].1 > 0
            &&& octant(r)[m].1 == m + 1
        }),
{
    let n = octant(r).len() as int;
    let d = diagonal(r).len() as int;
    lemma_quadrant_fixed(r, q);
    lemma_scanned(r);
    if t == 0 {
        assert(false);
    } else if t <= n {
        lemma_quadrant_at(r, q, t - 1);
        lemma_octant_point(r, t - 1);
    } else if t < 1 + n + d {
        assert(on_diagonal(diagonal(r)[0]));
        assert(false);
    } else {
        let j = t - 1 - n - d;
        lemma_quadrant_at(r, q, j);
        lemma_octant_point(r, n - 1 - j);
    }
}

/// The eight images of the inside of the first octant do not overlap: a point
/// is the image of at most one point well inside the first octant, and in
/// one octant only.
proof fn lemma_images_apart(ki: int, si: (int, int), kj: int, sj: (int, int))
    requires
        1 <= ki <= 8,
        1 <= kj <= 8,
        -si.0 > si.1 > 0,
        -sj.0 > sj.1 > 0,
        into_octant(ki, si) == into_octant(kj, sj),
    ensures
        ki == kj,
        si == sj,
{
    let p = into_octant(ki, si);
    // the octant of a point shows in the signs and the order of its coordinates
    assert(ki == 1 <==> (p.0 < 0 && p.1 > 0 && -p.0 > p.1));
    assert(ki == 2 <==> (p.0 < 0 && p.1 > 0 && -p.0 < p.1));
    assert(ki == 3 <==> (p.0 > 0 && p.1 > 0 && p.0 < p.1));
    assert(ki == 4 <==> (p.0 > 0 && p.1 > 0 && p.0 > p.1));
    assert(ki == 5 <==> (p.0 > 0 && p.1 < 0 && p.0 > -p.1));
    assert(ki == 6 <==> (p.0 > 0 && p.1 < 0 && p.0 < -p.1));
    assert(ki == 7 <==> (p.0 < 0 && p.1 < 0 && -p.0 < -p.1));
    assert(ki == 8 <==> (p.0 < 0 && p.1 < 0 && -p.0 > -p.1));
    assert(kj == 1 <==> (p.0 < 0 && p.1 > 0 && -p.0 > p.1));
    assert(kj == 2 <==> (p.0 < 0 && p.1 > 0 && -p.0 < p.1));
    assert(kj == 3 <==> (p.0 > 0 && p.1 > 0 && p.0 < p.1));
    assert(kj == 4 <==> (p.0 > 0 && p.1 > 0 && p.0 > p.1));
    assert(kj == 5 <==> (p.0 > 0 && p.1 < 0 && p.0 > -p.1));
    assert(kj == 6 <==> (p.0 > 0 && p.1 < 0 && p.0 < -p.1));
    assert(kj == 7 <==> (p.0 < 0 && p.1 < 0 && -p.0 < -p.1));
    assert(kj == 8 <==> (p.0 < 0 && p.1 < 0 && -p.0 > -p.1));
}

/// Where a point of the path comes from, by its position in the path.
#[verifier::rlimit(30)]
proof fn lemma_inner_point_of_path(r: int, i: int) -> (source: (int, int))
    requires
        0 <= r,
        0 <= i < circle(r).len(),
        !near_octant_boundary(circle(r)[i]),
    ensures
        1 <= source.0 <= 8,
        0 <= source.1 < octant(r).len(),
        circle(r)[i] == into_octant(source.0, octant(r)[source.1]),
        -octant(r)[source.1].0 > octant(r)[source.1].1 > 0,
        octant(r)[source.1].1 == source.1 + 1,
        forall|j: int|
            0 <= j < circle(r).len() && j != i && !near_octant_boundary(circle(r)[j])
                ==> #[trigger] path_source(r, j) != source,
        source == path_source(r, i),
{
    let len = quadrant_len(r);
    lemma_circle_at(r, 0, 0);
    let q = path_quadrant(r, i);
    lemma_times_quadrant(q, len);
    let t = i - q * len;
    lemma_circle_at(r, q, t);
    lemma_inner_point(r, q, t);
    let source = source_of(r, q, t);
    assert forall|j: int|
        0 <= j < circle(r).len() && j != i && !near_octant_boundary(
            circle(r)[j],
        ) implies #[trigger] path_source(r, j) != source by {
        let qj = path_quadrant(r, j);
        lemma_times_quadrant(qj, len);
        let tj = j - qj * len;
        lemma_circle_at(r, qj, tj);
        lemma_inner_point(r, qj, tj);
    }
    source
}

/// The quadrant of position `i` of the path.
pub open spec fn path_quadrant(r: int, i: int) -> int {
    if i < quadrant_len(r) {
        0
    } else if i < 2 * quadrant_len(r) {
        1
    } else if i < 3 * quadrant_len(r) {
        2
    } else {
        3
    }
}

/// Where the point at position `i` of the path comes from: the octant, and
/// the position in the scan of the first octant.
pub open spec fn path_source(r: int, i: int) -> (int, int) {
    source_of(r, path_quadrant(r, i), i - path_quadrant(r, i) * quadrant_len(r))
}

/// No point is passed twice but where octants meet: a point that the path
/// holds at two positions lies on an axis, on a diagonal, or next to a
/// diagonal.
pub proof fn lemma_circle_repeats_only_at_boundaries(r: int, i: int, j: int)
    requires
        0 <= r,
        0 <= i < j < circle(r).len(),
        circle(r)[i] == circle(r)[j],
    ensures
        near_octant_boundary(circle(r)[i]),
{
    if !near_octant_boundary(circle(r)[i]) {
        let from_i = lemma_inner_point_of_path(r, i);
        let from_j = lemma_inner_point_of_path(r, j);
        lemma_images_apart(
            from_i.0,
            octant(r)[from_i.1],
            from_j.0,
            octant(r)[from_j.1],
        );
        assert(from_i.1 == from_j.1);
        assert(path_source(r, j) != from_i);
        assert(false);
    }
}

impl Point {
    /// The image of the first-octant point `self` in octant `k`.
    fn into_octant(self, k: u8) -> (image: Point)
        requires
            1 <= k <= 8,
            i64::MIN < self.x,
            i64::MIN < self.y,
        ensures
            image@ == into_octant(k as int, self@),
    {
        if k == 1 {
            self
        } else if k == 2 {
            Point { x: -self.y, y: -self.x }
        } else if k == 3 {
            Point { x: self.y, y: -self.x }
        } else if k == 4 {
            Point { x: -self.x, y: self.y }
        } else if k == 5 {
            Point { x: -self.x, y: -self.y }
        } else if k == 6 {
            Point { x: self.y, y: self.x }
        } else if k == 7 {
            Point { x: -self.y, y: self.x }
        } else {
            Point { x: self.x, y: -self.y }
        }
    }
}

/// Scans the first octant of the circle of radius `radius` around the
/// origin. Returns the points left of the diagonal and the point on it.
fn scan_octant(radius: u32) -> (found: (Vec<Point>, Option<Point>))
    ensures
        coords(found.0@) == octant(radius as int),
        match found.1 {
            Some(p) => diagonal(radius as int) == seq![p@],
            None => diagonal(radius as int) == Seq::<(int, int)>::empty(),
        },
{
    let r: i64 = radius as i64;
    let mut points: Vec<Point> = Vec::new();
    let mut at_diagonal: Option<Point> = None;
    let mut x: i64 = -r;
    let mut y: i64 = 0;
    proof {
        assert(coords(points@) =~= Seq::<(int, int)>::empty());
        lemma_start_on_circle(r as int);
    }
    while -x > y
        invariant
            r == radius,
            -r <= x <= 0,
            0 <= y,
            y <= -x + 1,
            sq_norm((x as int, y as int)) >= r * r,
            at_diagonal is None ==> scanned(r as int) == coords(points@) + scan_from(
                r as int,
                (x as int, y as int),
            ),
            at_diagonal is None && points@.len() > 0 ==> points@.last()@ == (x as int, y as int),
            at_diagonal is None && points@.len() > 0 ==> -x != y,
            at_diagonal matches Some(p) ==> -x == y && p@ == (x as int, y as int) && scanned(
                r as int,
            ) == coords(points@) + seq![p@],
        decreases -x - y + 1,
    {
        let ghost before = (x as int, y as int);
        let ghost old_points = points@;
        let next_x: i64 = x + 1;
        let next_y: i64 = y + 1;
        assert(next_x * next_x <= 0x1_0000_0000_0000_0000 && next_y * next_y
            <= 0x1_0000_0000_0000_0000 && r * r <= 0x1_0000_0000_0000_0000 && next_x * next_x >= 0
            && next_y * next_y >= 0 && r * r >= 0) by (nonlinear_arith)
            requires
                -0x1_0000_0000 <= next_x <= 0x1_0000_0000,
                0 <= next_y <= 0x1_0000_0000,
                0 <= r <= 0x1_0000_0000,
        ;
        let reach: i128 = (next_x as i128) * (next_x as i128) + (next_y as i128) * (next_y as i128);
        if reach >= (r as i128) * (r as i128) {
            x = next_x;
        }
        y = next_y;
        proof {
            let after = (x as int, y as int);
            assert(after == scan_step(r as int, before));
            assert(sq_norm(after) >= r * r) by (nonlinear_arith)
                requires
                    after == scan_step(r as int, before),
                    sq_norm(before) >= r * r,
                    before.1 >= 0,
            {
                if after.0 == before.0 {
                    assert((before.1 + 1) * (before.1 + 1) >= before.1 * before.1);
                }
            }
            assert(scan_from(r as int, before) == seq![after] + scan_from(r as int, after));
        }
        if -x == y {
            at_diagonal = Some(Point { x, y });
            proof {
                assert(scan_from(r as int, (x as int, y as int)) =~= Seq::<(int, int)>::empty());
                assert(scanned(r as int) =~= coords(points@) + seq![(x as int, y as int)]);
            }
        } else {
            points.push(Point { x, y });
            proof {
                assert(coords(points@) =~= coords(old_points) + seq![(x as int, y as int)]);
                assert(scanned(r as int) =~= coords(points@) + scan_from(
                    r as int,
                    (x as int, y as int),
                ));
            }
        }
    }
    proof {
        let s = scanned(r as int);
        match at_diagonal {
            Some(p) => {
                assert(s.last() == p@);
                assert(on_diagonal(s.last()));
                assert(has_diagonal(r as int));
                assert(s.drop_last() =~= coords(points@));
                assert(octant(r as int) == coords(points@));
                assert(diagonal(r as int) == seq![p@]);
            },
            None => {
                assert(scan_from(r as int, (x as int, y as int)) =~= Seq::<(int, int)>::empty());
                assert(s =~= coords(points@));
                if s.len() > 0 {
                    assert(s.last() == coords(points@)[points@.len() - 1]);
                    assert(s.last() == points@.last()@);
                    assert(!on_diagonal(s.last()));
                }
                assert(!has_diagonal(r as int));
            },
        }
    }
    (points, at_diagonal)
}

/// Whether a circle of radius `r` around `center` fits the coordinates.
pub open spec fn fits(center: Point, r: int) -> bool {
    &&& i64::MIN <= center.x - r
    &&& center.x + r <= i64::MAX
    &&& i64::MIN <= center.y - r
    &&& center.y + r <= i64::MAX
}

/// Appends to `points` the point `p` of the circle around the origin, moved
/// by `center`.
fn push_moved(
    points: &mut Vec<Point>,
    p: Point,
    center: Point,
    Ghost(path): Ghost<Seq<(int, int)>>,
    Ghost(r): Ghost<int>,
)
    requires
        within(r, p@),
        fits(center, r),
        coords(old(points)@) == shifted(path, center@),
    ensures
        coords(final(points)@) == shifted(path + seq![p@], center@),
{
    let ghost before = points@;
    let moved = Point { x: p.x + center.x, y: p.y + center.y };
    points.push(moved);
    proof {
        lemma_push_shifted(before, path, center@, moved, p@);
    }
}

/// Appends to `points` the points of octant `k`, moved by `center`: the
/// images of the scanned points `first`, in their order for odd `k` and in
/// reverse for even `k`.
fn push_octant(
    points: &mut Vec<Point>,
    first: &Vec<Point>,
    k: u8,
    center: Point,
    Ghost(path): Ghost<Seq<(int, int)>>,
    Ghost(r): Ghost<int>,
)
    requires
        1 <= k <= 8,
        0 <= r,
        fits(center, r),
        coords(first@) == octant(r),
        coords(old(points)@) == shifted(path, center@),
    ensures
        coords(final(points)@) == shifted(path + octant_points(r, k as int), center@),
{
    let n: usize = first.len();
    let ghost images = octant_points(r, k as int);
    let mut i: usize = 0;
    proof {
        lemma_scanned(r);
        assert(path + images.subrange(0, 0) =~= path);
    }
    while i < n
        invariant
            i <= n,
            n == first@.len(),
            1 <= k <= 8,
            fits(center, r),
            coords(first@) == octant(r),
            images == octant_points(r, k as int),
            forall|j: int|
                0 <= j < octant(r).len() ==> {
                    let p = #[trigger] octant(r)[j];
                    -r <= p.0 <= 0 && 0 <= p.1 <= r
                },
            coords(points@) == shifted(path + images.subrange(0, i as int), center@),
        decreases n - i,
    {
        let from: usize = if k % 2 == 1 {
            i
        } else {
            n - 1 - i
        };
        assert(first@[from as int]@ == coords(first@)[from as int]);
        let image = first[from].into_octant(k);
        push_moved(points, image, center, Ghost(path + images.subrange(0, i as int)), Ghost(r));
        proof {
            assert(images.subrange(0, i as int) + seq![image@] =~= images.subrange(0, i + 1));
            assert(path + images.subrange(0, i as int) + seq![image@] =~= path + images.subrange(
                0,
                i + 1,
            ));
        }
        i = i + 1;
    }
    proof {
        assert(images.subrange(0, i as int) =~= images);
    }
}

/// Appends to `points` the points of quadrant `q`, moved by `center`.
fn push_quadrant(
    points: &mut Vec<Point>,
    first: &Vec<Point>,
    at_diagonal: Option<Point>,
    q: u8,
    radius: u32,
    center: Point,
    Ghost(path): Ghost<Seq<(int, int)>>,
)
    requires
        q < 4,
        fits(center, radius as int),
        coords(first@) == octant(radius as int),
        match at_diagonal {
            Some(p) => diagonal(radius as int) == seq![p@],
            None => diagonal(radius as int) == Seq::<(int, int)>::empty(),
        },
        coords(old(points)@) == shifted(path, center@),
    ensures
        coords(final(points)@) == shifted(path + quadrant(radius as int, q as int), center@),
{
    let ghost r = radius as int;
    let on_axis = if q == 0 {
        Point { x: -(radius as i64), y: 0 }
    } else if q == 1 {
        Point { x: 0, y: radius as i64 }
    } else if q == 2 {
        Point { x: radius as i64, y: 0 }
    } else {
        Point { x: 0, y: -(radius as i64) }
    };
    assert(on_axis@ == cardinal(r, q as int));
    push_moved(points, on_axis, center, Ghost(path), Ghost(r));
    let ghost with_cardinal = path + seq![cardinal(r, q as int)];

    push_octant(points, first, 2 * q + 1, center, Ghost(with_cardinal), Ghost(r));
    let ghost with_octant = with_cardinal + octant_points(r, 2 * q + 1);

    proof {
        lemma_scanned(r);
    }
    match at_diagonal {
        Some(p) => {
            assert(diagonal(r)[0] == p@);
            let k: u8 = if q == 0 {
                1
            } else if q == 1 {
                4
            } else if q == 2 {
                5
            } else {
                8
            };
            let image = p.into_octant(k);
            push_moved(points, image, center, Ghost(with_octant), Ghost(r));
            proof {
                assert(diagonal_points(r, q as int) =~= seq![image@]);
            }
        },
        None => {
            proof {
                assert(diagonal_points(r, q as int) =~= Seq::<(int, int)>::empty());
                assert(with_octant + diagonal_points(r, q as int) =~= with_octant);
            }
        },
    }
    let ghost with_diagonal = with_octant + diagonal_points(r, q as int);

    push_octant(points, first, 2 * q + 2, center, Ghost(with_diagonal), Ghost(r));
    proof {
        assert(with_diagonal + octant_points(r, 2 * q + 2) =~= path + quadrant(r, q as int));
    }
}

/// Returns circle points clockwise (in a right-handed coordinate system),
/// starting from the leftmost point.
pub fn rasterize_circle(center: Point, radius: u32) -> (points: Vec<Point>)
    requires
        fits(center, radius as int),
    ensures
        coords(points@) == circle_around(center@, radius as int),
{
    let ghost r: int = radius as int;
    let (first, at_diagonal) = scan_octant(radius);
    let mut points: Vec<Point> = Vec::new();
    proof {
        assert(coords(points@) =~= shifted(Seq::empty(), center@));
    }
    push_quadrant(&mut points, &first, at_diagonal, 0, radius, center, Ghost(Seq::empty()));
    push_quadrant(
        &mut points,
        &first,
        at_diagonal,
        1,
        radius,
        center,
        Ghost(Seq::empty() + quadrant(r, 0)),
    );
    push_quadrant(
        &mut points,
        &first,
        at_diagonal,
        2,
        radius,
        center,
        Ghost(Seq::empty() + quadrant(r, 0) + quadrant(r, 1)),
    );
    push_quadrant(
        &mut points,
        &first,
        at_diagonal,
        3,
        radius,
        center,
        Ghost(Seq::empty() + quadrant(r, 0) + quadrant(r, 1) + quadrant(r, 2)),
    );
    proof {
        assert(Seq::empty() + quadrant(r, 0) + quadrant(r, 1) + quadrant(r, 2) + quadrant(r, 3)
            =~= circle(r));
    }
    points
}

} // verus!
