//! Extents: the largest of some measures, and the box around some points.

use vstd::prelude::*;
use crate::scalar::Scalar;
use crate::shape::PointDto;

verus! {

/// The largest of some measures and of nothing at all; what is not a number
/// does not count.
pub open spec fn is_largest(values: Seq<Scalar>, r: Scalar) -> bool {
    &&& r == Scalar::zero() || values.contains(r)
    &&& !r.nan()
    &&& forall|i: int| 0 <= i < values.len() ==> !r.below(#[trigger] values[i])
}

/// The largest of some measures and of nothing at all.
pub fn largest(values: &Vec<Scalar>) -> (r: Scalar)
    ensures
        is_largest(values@, r),
{
    let mut r = Scalar::zero();
    let mut i: usize = 0;
    while i < values.len()
        invariant
            i <= values.len(),
            r == Scalar::zero() || values@.contains(r),
            !r.nan(),
            forall|k: int| 0 <= k < i ==> !r.below(#[trigger] values@[k]),
        decreases values.len() - i,
    {
        if r.lt(values[i]) {
            r = values[i];
            assert(values@.contains(values@[i as int]));
        }
        i += 1;
    }
    r
}

/// A box with its sides along the axes.
#[derive(Clone, Copy, PartialEq, Eq, Structural, Debug)]
pub struct Bounds {
    pub minx: Scalar,
    pub miny: Scalar,
    pub maxx: Scalar,
    pub maxy: Scalar,
}

/// Above every number.
#[verifier::allow_in_spec]
pub fn highest() -> Scalar
    returns
        (Scalar { bits: 0x7ff0_0000_0000_0000 }),
{
    Scalar { bits: 0x7ff0_0000_0000_0000 }
}

/// Below every number.
#[verifier::allow_in_spec]
pub fn lowest() -> Scalar
    returns
        (Scalar { bits: 0xfff0_0000_0000_0000 }),
{
    Scalar { bits: 0xfff0_0000_0000_0000 }
}

/// The abscissas of some points.
pub open spec fn xs(points: Seq<PointDto>) -> Seq<Scalar> {
    points.map_values(|p: PointDto| p.x)
}

/// The ordinates of some points.
pub open spec fn ys(points: Seq<PointDto>) -> Seq<Scalar> {
    points.map_values(|p: PointDto| p.y)
}

/// Whether a number is the lower end of some values: one of them, or above
/// every number where none of them is one, and none of them is below it.
pub open spec fn low_end(values: Seq<Scalar>, r: Scalar) -> bool {
    &&& r == highest() || values.contains(r)
    &&& !r.nan()
    &&& forall|i: int| 0 <= i < values.len() ==> !(#[trigger] values[i]).below(r)
}

/// Whether a number is the upper end of some values.
pub open spec fn high_end(values: Seq<Scalar>, r: Scalar) -> bool {
    &&& r == lowest() || values.contains(r)
    &&& !r.nan()
    &&& forall|i: int| 0 <= i < values.len() ==> !r.below(#[trigger] values[i])
}

/// The box around some points; nothing at all around no points.
pub fn bounds_of(points: &Vec<PointDto>) -> (r: Bounds)
    ensures
        points@.len() == 0 ==> r == (Bounds {
            minx: Scalar::zero(),
            miny: Scalar::zero(),
            maxx: Scalar::zero(),
            maxy: Scalar::zero(),
        }),
        points@.len() > 0 ==> {
            &&& low_end(xs(points@), r.minx)
            &&& low_end(ys(points@), r.miny)
            &&& high_end(xs(points@), r.maxx)
            &&& high_end(ys(points@), r.maxy)
        },
{
    let zero = Scalar::zero();
    if points.len() == 0 {
        return Bounds { minx: zero, miny: zero, maxx: zero, maxy: zero };
    }
    let mut r = Bounds { minx: highest(), miny: highest(), maxx: lowest(), maxy: lowest() };
    let ghost across = xs(points@);
    let ghost along = ys(points@);
    let mut i: usize = 0;
    while i < points.len()
        invariant
            i <= points@.len(),
            across == xs(points@),
            along == ys(points@),
            r.minx == highest() || across.contains(r.minx),
            r.miny == highest() || along.contains(r.miny),
            r.maxx == lowest() || across.contains(r.maxx),
            r.maxy == lowest() || along.contains(r.maxy),
            !r.minx.nan() && !r.miny.nan() && !r.maxx.nan() && !r.maxy.nan(),
            forall|k: int| 0 <= k < i ==> !(#[trigger] across[k]).below(r.minx),
            forall|k: int| 0 <= k < i ==> !(#[trigger] along[k]).below(r.miny),
            forall|k: int| 0 <= k < i ==> !r.maxx.below(#[trigger] across[k]),
            forall|k: int| 0 <= k < i ==> !r.maxy.below(#[trigger] along[k]),
        decreases points.len() - i,
    {
        let p = points[i];
        assert(across[i as int] == p.x && along[i as int] == p.y);
        assert(across.contains(p.x) && along.contains(p.y));
        if p.x.lt(r.minx) {
            r.minx = p.x;
        }
        if r.maxx.lt(p.x) {
            r.maxx = p.x;
        }
        if p.y.lt(r.miny) {
            r.miny = p.y;
        }
        if r.maxy.lt(p.y) {
            r.maxy = p.y;
        }
        i += 1;
    }
    r
}

/// Every point whose coordinates are numbers lies in the box around the points.
pub proof fn law_the_box_holds_its_points(points: Seq<PointDto>, r: Bounds, i: int)
    requires
        low_end(xs(points), r.minx),
        low_end(ys(points), r.miny),
        high_end(xs(points), r.maxx),
        high_end(ys(points), r.maxy),
        0 <= i < points.len(),
        !points[i].x.nan(),
        !points[i].y.nan(),
    ensures
        r.minx.at_most(points[i].x),
        points[i].x.at_most(r.maxx),
        r.miny.at_most(points[i].y),
        points[i].y.at_most(r.maxy),
{
    assert(xs(points)[i] == points[i].x);
    assert(ys(points)[i] == points[i].y);
}

/// The box of some points whose coordinates are numbers holds each of them and
/// is no larger than it must be: each of its four sides goes through a point.
pub proof fn law_the_box_is_tight(points: &Vec<PointDto>, r: Bounds)
    requires
        call_ensures(bounds_of, (points,), r),
        points@.len() > 0,
        forall|i: int|
            0 <= i < points@.len() ==> (#[trigger] points@[i]).x.finite() && points@[i].y.finite(),
    ensures
        forall|i: int|
            0 <= i < points@.len() ==> {
                &&& r.minx.at_most((#[trigger] points@[i]).x)
                &&& points@[i].x.at_most(r.maxx)
                &&& r.miny.at_most(points@[i].y)
                &&& points@[i].y.at_most(r.maxy)
            },
        exists|i: int| 0 <= i < points@.len() && (#[trigger] points@[i]).x == r.minx,
        exists|i: int| 0 <= i < points@.len() && (#[trigger] points@[i]).x == r.maxx,
        exists|i: int| 0 <= i < points@.len() && (#[trigger] points@[i]).y == r.miny,
        exists|i: int| 0 <= i < points@.len() && (#[trigger] points@[i]).y == r.maxy,
{
    assert forall|i: int| 0 <= i < points@.len() implies {
        &&& r.minx.at_most((#[trigger] points@[i]).x)
        &&& points@[i].x.at_most(r.maxx)
        &&& r.miny.at_most(points@[i].y)
        &&& points@[i].y.at_most(r.maxy)
    } by {
        law_the_box_holds_its_points(points@, r, i);
    }
    let first = points@[0];
    assert(r.minx.at_most(first.x) && first.x.at_most(r.maxx));
    assert(r.miny.at_most(first.y) && first.y.at_most(r.maxy));
    assert(xs(points@).contains(r.minx) && xs(points@).contains(r.maxx));
    assert(ys(points@).contains(r.miny) && ys(points@).contains(r.maxy));
    let a = choose|i: int| 0 <= i < xs(points@).len() && xs(points@)[i] == r.minx;
    let b = choose|i: int| 0 <= i < xs(points@).len() && xs(points@)[i] == r.maxx;
    let c = choose|i: int| 0 <= i < ys(points@).len() && ys(points@)[i] == r.miny;
    let d = choose|i: int| 0 <= i < ys(points@).len() && ys(points@)[i] == r.maxy;
    assert(points@[a].x == r.minx && points@[b].x == r.maxx);
    assert(points@[c].y == r.miny && points@[d].y == r.maxy);
}

/// Without a point the box is the origin.
pub proof fn law_no_points_have_no_extent(points: &Vec<PointDto>, r: Bounds)
    requires
        call_ensures(bounds_of, (points,), r),
        points@.len() == 0,
    ensures
        r.minx.bits == 0 && r.miny.bits == 0 && r.maxx.bits == 0 && r.maxy.bits == 0,
{
}

/// The largest of some values is at least zero and at least each of them that
/// is a number, and is one of these.
pub proof fn law_the_largest_is_reached(values: &Vec<Scalar>, r: Scalar)
    requires
        call_ensures(largest, (values,), r),
    ensures
        forall|i: int|
            0 <= i < values@.len() && !(#[trigger] values@[i]).nan() ==> values@[i].at_most(r),
        r.bits == 0 || exists|i: int| 0 <= i < values@.len() && #[trigger] values@[i] == r,
{
    if r.bits != 0 {
        assert(r == Scalar::zero() || values@.contains(r));
        let i = choose|i: int| 0 <= i < values@.len() && values@[i] == r;
        assert(values@[i] == r);
    }
}

} // verus!
