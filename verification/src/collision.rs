//! The collision resolution engine. Each tick it builds a fresh quadtree
//! over the reactive bodies, finds candidate pairs through a neighborhood
//! query sized by each body's radius, tests each unordered pair once, splits
//! the separation between the two bodies by a fixed policy ratio, and then
//! pushes every reactive body fully out of each static obstacle. Corrections
//! are first computed into a buffer from the original positions and applied
//! afterwards, so no pass observes a half-updated state.
//!
//! All coordinates are milli-units. Positions are kept within a region
//! vastly larger than the world so that every square and product below
//! stays inside `i64`.

use vstd::prelude::*;

use crate::mathx::{clamp_i64, div_trunc, isqrt, spec_clamp, spec_isqrt, spec_tdiv};
use crate::quadtree::{Point, Quadtree, Rect};
use vstd::multiset::Multiset;

verus! {

broadcast use vstd::seq_lib::group_to_multiset_ensures, vstd::multiset::group_multiset_axioms;

/// Reactive bodies and obstacles keep their centers within this bound.
pub const POS_RANGE: i64 = 0x2000_0000;

/// Applied positions are confined to this bound, far beyond any world.
pub const POS_CLAMP: i64 = 0x4000_0000;

/// Largest radius of a reactive body.
pub const REACT_RAD_LIMIT: i64 = 0x10_0000;

/// Largest bounding radius of an obstacle.
pub const OB_RAD_LIMIT: i64 = 0x100_0000;

/// Largest half-extent of a rectangular obstacle.
pub const OB_HALF_LIMIT: i64 = 0x40_0000;

/// Most reactive bodies one resolution pass accepts.
pub const REACT_LIMIT: usize = 4096;

/// The policy constant of step 4: the share, in percent, of each pair's
/// separation that the lower-indexed body takes; the other body takes the
/// rest. An even split is the default.
pub const SPLIT_PERCENT: i64 = 50;

/// One reactive body: a circle that collision resolution may move.
#[derive(Clone, Copy, Debug, PartialEq, Eq, Structural)]
pub struct Body {
    pub x: i64,
    pub y: i64,
    pub radius: i64,
}

impl Body {
    /// Center within range, radius bounded.
    pub open spec fn wf(self) -> bool {
        &&& -POS_RANGE <= self.x <= POS_RANGE
        &&& -POS_RANGE <= self.y <= POS_RANGE
        &&& 0 <= self.radius <= REACT_RAD_LIMIT
    }
}

/// An obstacle's exact footprint.
#[derive(Clone, Copy, Debug, PartialEq, Eq, Structural)]
pub enum Shape {
    Circle { radius: i64 },
    Rect { half_w: i64, half_h: i64 },
}

/// An obstacle's shape together with its bounding radius, used by the
/// broad phase.
#[derive(Clone, Copy, Debug, PartialEq, Eq, Structural)]
pub struct Collider {
    pub shape: Shape,
    pub rad: i64,
}

impl Collider {
    /// The bounding radius is bounded and covers the shape.
    pub open spec fn wf(self) -> bool {
        &&& 0 <= self.rad <= OB_RAD_LIMIT
        &&& match self.shape {
            Shape::Circle { radius } => self.rad == radius,
            Shape::Rect { half_w, half_h } => {
                &&& 0 <= half_w <= OB_HALF_LIMIT
                &&& 0 <= half_h <= OB_HALF_LIMIT
                &&& half_w * half_w + half_h * half_h < self.rad * self.rad
            },
        }
    }

    /// A circular collider: the bounding radius is the radius itself.
    pub fn circle(rad: i64) -> (r: Collider)
        requires
            0 <= rad <= OB_RAD_LIMIT,
        ensures
            r.wf(),
            r.shape == (Shape::Circle { radius: rad }),
            r.rad == rad,
    {
        Collider { shape: Shape::Circle { radius: rad }, rad }
    }

    /// A rectangular collider: the bounding radius is the smallest integer
    /// strictly covering the half-diagonal.
    pub fn rect(half_w: i64, half_h: i64) -> (r: Collider)
        requires
            0 <= half_w <= OB_HALF_LIMIT,
            0 <= half_h <= OB_HALF_LIMIT,
        ensures
            r.wf(),
            r.shape == (Shape::Rect { half_w, half_h }),
            r.rad == spec_isqrt(half_w * half_w + half_h * half_h) + 1,
    {
        proof {
            assert(half_w * half_w <= OB_HALF_LIMIT * OB_HALF_LIMIT) by (nonlinear_arith)
                requires
                    0 <= half_w <= OB_HALF_LIMIT,
            ;
            assert(half_h * half_h <= OB_HALF_LIMIT * OB_HALF_LIMIT) by (nonlinear_arith)
                requires
                    0 <= half_h <= OB_HALF_LIMIT,
            ;
        }
        let d2 = half_w * half_w + half_h * half_h;
        let s = isqrt(d2);
        proof {
            if s >= 0x80_0000 {
                assert(s * s >= 0x80_0000i64 * 0x80_0000i64) by (nonlinear_arith)
                    requires
                        s >= 0x80_0000,
                ;
            }
        }
        let rad = s + 1;
        Collider { shape: Shape::Rect { half_w, half_h }, rad }
    }
}

/// One immovable obstacle.
#[derive(Clone, Copy, Debug, PartialEq, Eq, Structural)]
pub struct Obstacle {
    pub x: i64,
    pub y: i64,
    pub collider: Collider,
}

impl Obstacle {
    pub open spec fn wf(self) -> bool {
        &&& -POS_RANGE <= self.x <= POS_RANGE
        &&& -POS_RANGE <= self.y <= POS_RANGE
        &&& self.collider.wf()
    }
}

/// The boundary of the spatial index: the whole playable world.
pub open spec fn spec_world_rect() -> Rect {
    Rect { x_min: 0, y_min: 0, x_max: 8_192_000, y_max: 8_192_000 }
}

/// The neighborhood rectangle queried around a body: three radii each way.
pub open spec fn spec_neigh_rect(b: Body) -> Rect {
    Rect {
        x_min: (b.x - 3 * b.radius) as i64,
        y_min: (b.y - 3 * b.radius) as i64,
        x_max: (b.x + 3 * b.radius) as i64,
        y_max: (b.y + 3 * b.radius) as i64,
    }
}

/// The index point of the `i`-th body.
pub open spec fn spec_point_of(ents: Seq<Body>, i: int) -> Point {
    Point { x: ents[i].x, y: ents[i].y, index: i as usize }
}

/// The bodies the spatial index holds after the first `k` bodies were
/// offered to it: those lying within the world boundary.
pub open spec fn spec_points(ents: Seq<Body>, k: int) -> Multiset<Point>
    decreases k,
{
    if k <= 0 {
        Multiset::empty()
    } else {
        let m = spec_points(ents, k - 1);
        if spec_world_rect().spec_contains(ents[k - 1].x as int, ents[k - 1].y as int) {
            m.insert(spec_point_of(ents, k - 1))
        } else {
            m
        }
    }
}

/// What the index holds: exactly the in-world bodies, each under its index.
proof fn lemma_points_contains(ents: Seq<Body>, m: int, p: Point)
    requires
        0 <= m <= ents.len() <= usize::MAX,
    ensures
        spec_points(ents, m).contains(p) <==> (0 <= (p.index as int) < m && spec_world_rect().spec_contains(
            ents[p.index as int].x as int,
            ents[p.index as int].y as int,
        ) && p == spec_point_of(ents, p.index as int)),
    decreases m,
{
    if m > 0 {
        lemma_points_contains(ents, m - 1, p);
    }
}

/// Whether the unordered pair `(i, j)`, `i < j`, is tested by the broad
/// phase: the second body stands in the world (so the index holds it) and
/// inside the first body's neighborhood rectangle.
pub open spec fn spec_pair_tested(ents: Seq<Body>, i: int, j: int) -> bool {
    &&& 0 <= i < j < ents.len()
    &&& spec_world_rect().spec_contains(ents[j].x as int, ents[j].y as int)
    &&& spec_neigh_rect(ents[i]).spec_contains(ents[j].x as int, ents[j].y as int)
}

/// The squared center distance.
pub open spec fn spec_d2(a: Body, b: Body) -> int {
    (b.x - a.x) * (b.x - a.x) + (b.y - a.y) * (b.y - a.y)
}

/// Whether two bodies' bounding circles overlap with a defined separation
/// direction (coincident centers give none).
pub open spec fn spec_overlap(a: Body, b: Body) -> bool {
    0 < spec_d2(a, b) < (a.radius + b.radius) * (a.radius + b.radius)
}

/// The penetration depth of an overlapping pair.
pub open spec fn spec_pen(a: Body, b: Body) -> int {
    a.radius + b.radius - spec_isqrt(spec_d2(a, b))
}

/// The share of the separation the lower-indexed body takes.
pub open spec fn spec_sep_first(a: Body, b: Body) -> int {
    spec_tdiv(spec_pen(a, b) * SPLIT_PERCENT, 100)
}

/// The rest of the separation, taken by the higher-indexed body.
pub open spec fn spec_sep_second(a: Body, b: Body) -> int {
    spec_pen(a, b) - spec_sep_first(a, b)
}

/// What an overlapping pair does to the lower-indexed body: it moves
/// against the separation axis by its share of the penetration.
pub open spec fn spec_push_first(a: Body, b: Body) -> (int, int) {
    if spec_overlap(a, b) {
        let dx = b.x - a.x;
        let dy = b.y - a.y;
        let dist = spec_isqrt(spec_d2(a, b));
        (-spec_tdiv(dx * spec_sep_first(a, b), dist), -spec_tdiv(dy * spec_sep_first(a, b), dist))
    } else {
        (0, 0)
    }
}

/// What an overlapping pair does to the higher-indexed body: it moves along
/// the separation axis by the rest of the penetration.
pub open spec fn spec_push_second(a: Body, b: Body) -> (int, int) {
    if spec_overlap(a, b) {
        let dx = b.x - a.x;
        let dy = b.y - a.y;
        let dist = spec_isqrt(spec_d2(a, b));
        (spec_tdiv(dx * spec_sep_second(a, b), dist), spec_tdiv(dy * spec_sep_second(a, b), dist))
    } else {
        (0, 0)
    }
}

/// What the tested pair `(i, j)` contributes to body `k`'s correction: the
/// lower-indexed body moves against the separation axis by its share, the
/// higher-indexed body along it by the rest; an untested or non-overlapping
/// pair contributes nothing.
pub open spec fn spec_pair_delta(ents: Seq<Body>, i: int, j: int, k: int) -> (int, int) {
    if spec_pair_tested(ents, i, j) {
        if k == i {
            spec_push_first(ents[i], ents[j])
        } else if k == j {
            spec_push_second(ents[i], ents[j])
        } else {
            (0, 0)
        }
    } else {
        (0, 0)
    }
}

/// The correction body `k` accumulates from pairs whose lower index is
/// below `upto`.
pub open spec fn spec_delta_lower(ents: Seq<Body>, k: int, upto: int) -> (int, int)
    decreases upto,
{
    if upto <= 0 {
        (0, 0)
    } else {
        let rest = spec_delta_lower(ents, k, upto - 1);
        let d = spec_pair_delta(ents, upto - 1, k, k);
        (rest.0 + d.0, rest.1 + d.1)
    }
}

/// The correction body `k` accumulates from pairs `(k, j)` with `j` below
/// `upto`.
pub open spec fn spec_delta_higher(ents: Seq<Body>, k: int, upto: int) -> (int, int)
    decreases upto,
{
    if upto <= k + 1 || upto <= 0 {
        (0, 0)
    } else {
        let rest = spec_delta_higher(ents, k, upto - 1);
        let d = spec_pair_delta(ents, k, upto - 1, k);
        (rest.0 + d.0, rest.1 + d.1)
    }
}

/// Body `k`'s whole correction from the reactive-versus-reactive phase.
pub open spec fn spec_delta(ents: Seq<Body>, k: int) -> (int, int) {
    let lo = spec_delta_lower(ents, k, k);
    let hi = spec_delta_higher(ents, k, ents.len() as int);
    (lo.0 + hi.0, lo.1 + hi.1)
}

/// Every pair contribution moves a body by at most the combined radius.
proof fn lemma_pair_delta_bound(ents: Seq<Body>, i: int, j: int, k: int)
    requires
        forall|t: int| 0 <= t < ents.len() ==> #[trigger] ents[t].wf(),
    ensures
        -(2 * REACT_RAD_LIMIT) <= spec_pair_delta(ents, i, j, k).0 <= 2 * REACT_RAD_LIMIT,
        -(2 * REACT_RAD_LIMIT) <= spec_pair_delta(ents, i, j, k).1 <= 2 * REACT_RAD_LIMIT,
{
    if spec_pair_tested(ents, i, j) && spec_overlap(ents[i], ents[j]) {
        let a = ents[i];
        let b = ents[j];
        assert(a.wf() && b.wf());
        assert(spec_pair_delta(ents, i, j, k) == (if k == i {
            spec_push_first(a, b)
        } else if k == j {
            spec_push_second(a, b)
        } else {
            (0int, 0int)
        }));
        let dx = b.x - a.x;
        let dy = b.y - a.y;
        let d2 = spec_d2(a, b);
        let dist = spec_isqrt(d2);
        let comb = a.radius + b.radius;
        assert(dist >= 0 && dist * dist <= d2 < (dist + 1) * (dist + 1)) by {
            lemma_isqrt_props(d2);
        }
        lemma_component_le_isqrt(dx, dy);
        lemma_component_le_isqrt(dy, dx);
        assert(dist < comb) by {
            if dist >= comb {
                crate::mathx::lemma_square_monotone(comb, dist);
                assert(comb * comb <= dist * dist);
            }
        }
        assert(dist >= 1) by {
            if dist == 0 {
                assert((dist + 1) * (dist + 1) == 1) by (nonlinear_arith)
                    requires
                        dist == 0int,
                ;
            }
        }
        let pen = spec_pen(a, b);
        assert(0 < pen <= comb);
        let s1 = spec_sep_first(a, b);
        assert(0 <= pen * SPLIT_PERCENT <= pen * 100) by (nonlinear_arith)
            requires
                pen >= 0,
        ;
        assert(0 <= s1 <= pen) by {
            crate::mathx::lemma_tdiv_bound(pen * SPLIT_PERCENT, 100, pen);
            assert(spec_tdiv(pen * SPLIT_PERCENT, 100) >= 0) by (nonlinear_arith)
                requires
                    pen >= 0,
            ;
        }
        let s2 = spec_sep_second(a, b);
        assert(0 <= s2 <= pen);
        lemma_push_bound(dx, s1, dist);
        lemma_push_bound(dy, s1, dist);
        lemma_push_bound(dx, s2, dist);
        lemma_push_bound(dy, s2, dist);
        assert(pen <= 2 * REACT_RAD_LIMIT);
    }
}

/// The floor square root's defining inequalities, given non-negative input.
pub proof fn lemma_isqrt_props(x: int)
    requires
        x >= 0,
    ensures
        spec_isqrt(x) >= 0,
        spec_isqrt(x) * spec_isqrt(x) <= x,
        x < (spec_isqrt(x) + 1) * (spec_isqrt(x) + 1),
{
    let r = sqrt_witness(x);
    crate::mathx::lemma_isqrt_is(x, r);
}

/// A witness that a floor square root exists for every non-negative value.
proof fn sqrt_witness(x: int) -> (r: int)
    requires
        x >= 0,
    ensures
        r >= 0,
        r * r <= x,
        x < (r + 1) * (r + 1),
    decreases x,
{
    if x == 0 {
        0
    } else {
        let s = sqrt_witness(x - 1);
        if x < (s + 1) * (s + 1) {
            s
        } else {
            assert(x == (s + 1) * (s + 1));
            assert(x < (s + 2) * (s + 2)) by (nonlinear_arith)
                requires
                    x == (s + 1) * (s + 1) && s >= 0,
            ;
            s + 1
        }
    }
}

/// A component of a vector is no longer than the floor square root of the
/// vector's squared length.
pub proof fn lemma_component_le_isqrt(dx: int, dy: int)
    ensures
        -spec_isqrt(dx * dx + dy * dy) <= dx <= spec_isqrt(dx * dx + dy * dy),
{
    let d2 = dx * dx + dy * dy;
    assert(dx * dx >= 0 && dy * dy >= 0) by (nonlinear_arith);
    lemma_isqrt_props(d2);
    let r = spec_isqrt(d2);
    if dx > r {
        assert(dx * dx >= (r + 1) * (r + 1)) by (nonlinear_arith)
            requires
                dx >= r + 1 > 0,
        ;
    }
    if dx < -r {
        assert(dx * dx >= (r + 1) * (r + 1)) by (nonlinear_arith)
            requires
                -dx >= r + 1 > 0,
        ;
    }
}

/// A push of share `s` along a component `d` of a vector of length `dist`
/// moves by at most `s`.
proof fn lemma_push_bound(d: int, s: int, dist: int)
    requires
        dist >= 1,
        -dist <= d <= dist,
        s >= 0,
    ensures
        -s <= spec_tdiv(d * s, dist) <= s,
{
    assert(-(dist * s) <= d * s <= dist * s) by (nonlinear_arith)
        requires
            dist >= 1 && -dist <= d <= dist && s >= 0,
    ;
    crate::mathx::lemma_tdiv_bound(d * s, dist, s);
}

/// The running sums of pair contributions stay bounded.
proof fn lemma_delta_lower_bound(ents: Seq<Body>, k: int, upto: int)
    requires
        forall|t: int| 0 <= t < ents.len() ==> #[trigger] ents[t].wf(),
        upto >= 0,
    ensures
        -(upto * (2 * REACT_RAD_LIMIT)) <= spec_delta_lower(ents, k, upto).0 <= upto * (2
            * REACT_RAD_LIMIT),
        -(upto * (2 * REACT_RAD_LIMIT)) <= spec_delta_lower(ents, k, upto).1 <= upto * (2
            * REACT_RAD_LIMIT),
    decreases upto,
{
    if upto > 0 {
        lemma_delta_lower_bound(ents, k, upto - 1);
        lemma_pair_delta_bound(ents, upto - 1, k, k);
    }
}

/// The running sums of pair contributions stay bounded.
proof fn lemma_delta_higher_bound(ents: Seq<Body>, k: int, upto: int)
    requires
        forall|t: int| 0 <= t < ents.len() ==> #[trigger] ents[t].wf(),
        upto >= k + 1,
        k >= 0,
    ensures
        -((upto - k - 1) * (2 * REACT_RAD_LIMIT)) <= spec_delta_higher(ents, k, upto).0 <= (upto
            - k - 1) * (2 * REACT_RAD_LIMIT),
        -((upto - k - 1) * (2 * REACT_RAD_LIMIT)) <= spec_delta_higher(ents, k, upto).1 <= (upto
            - k - 1) * (2 * REACT_RAD_LIMIT),
    decreases upto,
{
    if upto > k + 1 {
        lemma_delta_higher_bound(ents, k, upto - 1);
        lemma_pair_delta_bound(ents, k, upto - 1, k);
    }
}

/// Pairs whose lower index would reach `k` or beyond contribute nothing, so
/// the lower sum is settled once `upto` reaches `k`.
proof fn lemma_delta_lower_stable(ents: Seq<Body>, k: int, upto: int)
    requires
        upto >= k >= 0,
    ensures
        spec_delta_lower(ents, k, upto) == spec_delta_lower(ents, k, k),
    decreases upto,
{
    if upto > k {
        lemma_delta_lower_stable(ents, k, upto - 1);
        assert(spec_pair_delta(ents, upto - 1, k, k) == (0int, 0int));
    }
}


/// Both pushes of an overlapping pair move a body by at most the combined
/// radius.
proof fn lemma_push_fns_bound(a: Body, b: Body)
    requires
        a.wf(),
        b.wf(),
    ensures
        -(2 * REACT_RAD_LIMIT) <= spec_push_first(a, b).0 <= 2 * REACT_RAD_LIMIT,
        -(2 * REACT_RAD_LIMIT) <= spec_push_first(a, b).1 <= 2 * REACT_RAD_LIMIT,
        -(2 * REACT_RAD_LIMIT) <= spec_push_second(a, b).0 <= 2 * REACT_RAD_LIMIT,
        -(2 * REACT_RAD_LIMIT) <= spec_push_second(a, b).1 <= 2 * REACT_RAD_LIMIT,
{
    if spec_overlap(a, b) {
        let dx = b.x - a.x;
        let dy = b.y - a.y;
        let d2 = spec_d2(a, b);
        let dist = spec_isqrt(d2);
        let comb = a.radius + b.radius;
        assert(dist >= 0 && dist * dist <= d2 < (dist + 1) * (dist + 1)) by {
            lemma_isqrt_props(d2);
        }
        lemma_component_le_isqrt(dx, dy);
        lemma_component_le_isqrt(dy, dx);
        assert(dist < comb) by {
            if dist >= comb {
                crate::mathx::lemma_square_monotone(comb, dist);
            }
        }
        assert(dist >= 1) by {
            if dist == 0 {
                assert((dist + 1) * (dist + 1) == 1) by (nonlinear_arith)
                    requires
                        dist == 0int,
                ;
            }
        }
        let pen = spec_pen(a, b);
        let s1 = spec_sep_first(a, b);
        assert(0 <= pen * SPLIT_PERCENT <= pen * 100) by (nonlinear_arith)
            requires
                pen >= 0,
        ;
        assert(0 <= s1 <= pen) by {
            crate::mathx::lemma_tdiv_bound(pen * SPLIT_PERCENT, 100, pen);
            assert(spec_tdiv(pen * SPLIT_PERCENT, 100) >= 0) by (nonlinear_arith)
                requires
                    pen >= 0,
            ;
        }
        let s2 = spec_sep_second(a, b);
        lemma_push_bound(dx, s1, dist);
        lemma_push_bound(dy, s1, dist);
        lemma_push_bound(dx, s2, dist);
        lemma_push_bound(dy, s2, dist);
    }
}

/// Computes both pushes of one candidate pair: the lower-indexed body's and
/// the higher-indexed body's, in that order.
fn pair_push(a: Body, b: Body) -> (d: (i64, i64, i64, i64))
    requires
        a.wf(),
        b.wf(),
    ensures
        d.0 == spec_push_first(a, b).0,
        d.1 == spec_push_first(a, b).1,
        d.2 == spec_push_second(a, b).0,
        d.3 == spec_push_second(a, b).1,
{
    let dx = b.x - a.x;
    let dy = b.y - a.y;
    proof {
        assert(-0x4000_0000 <= dx <= 0x4000_0000 && -0x4000_0000 <= dy <= 0x4000_0000);
        assert(0 <= dx * dx <= 0x4000_0000i64 * 0x4000_0000i64 && 0 <= dy * dy
            <= 0x4000_0000i64 * 0x4000_0000i64) by (nonlinear_arith)
            requires
                -0x4000_0000 <= dx <= 0x4000_0000 && -0x4000_0000 <= dy <= 0x4000_0000,
        ;
    }
    let d2 = dx * dx + dy * dy;
    let comb = a.radius + b.radius;
    proof {
        assert(0 <= comb <= 0x20_0000);
        assert(0 <= comb * comb <= 0x20_0000i64 * 0x20_0000i64) by (nonlinear_arith)
            requires
                0 <= comb <= 0x20_0000,
        ;
    }
    if d2 > 0 && d2 < comb * comb {
        let dist = isqrt(d2);
        proof {
            crate::mathx::lemma_isqrt_is(d2 as int, dist as int);
            assert(dist < comb) by {
                if dist >= comb {
                    crate::mathx::lemma_square_monotone(comb as int, dist as int);
                }
            }
            assert(dist >= 1) by {
                if dist == 0 {
                    assert((dist + 1) * (dist + 1) == 1) by (nonlinear_arith)
                        requires
                            dist == 0int,
                    ;
                }
            }
            lemma_component_le_isqrt(dx as int, dy as int);
            lemma_component_le_isqrt(dy as int, dx as int);
        }
        let pen = comb - dist;
        let sep1 = div_trunc(pen * SPLIT_PERCENT, 100);
        proof {
            assert(0 <= pen * SPLIT_PERCENT <= pen * 100) by (nonlinear_arith)
                requires
                    pen >= 0,
            ;
            crate::mathx::lemma_tdiv_bound((pen * SPLIT_PERCENT) as int, 100, pen as int);
        }
        let sep2 = pen - sep1;
        proof {
            assert(-(dist * sep1) <= dx * sep1 <= dist * sep1) by (nonlinear_arith)
                requires
                    -dist <= dx <= dist && sep1 >= 0,
            ;
            assert(-(dist * sep1) <= dy * sep1 <= dist * sep1) by (nonlinear_arith)
                requires
                    -dist <= dy <= dist && sep1 >= 0,
            ;
            assert(-(dist * sep2) <= dx * sep2 <= dist * sep2) by (nonlinear_arith)
                requires
                    -dist <= dx <= dist && sep2 >= 0,
            ;
            assert(-(dist * sep2) <= dy * sep2 <= dist * sep2) by (nonlinear_arith)
                requires
                    -dist <= dy <= dist && sep2 >= 0,
            ;
            assert(dist * sep1 <= (2 * POS_RANGE) * (2 * REACT_RAD_LIMIT)) by (nonlinear_arith)
                requires
                    0 <= dist <= 2 * POS_RANGE && 0 <= sep1 <= 2 * REACT_RAD_LIMIT,
            ;
            assert(dist * sep2 <= (2 * POS_RANGE) * (2 * REACT_RAD_LIMIT)) by (nonlinear_arith)
                requires
                    0 <= dist <= 2 * POS_RANGE && 0 <= sep2 <= 2 * REACT_RAD_LIMIT,
            ;
            crate::mathx::lemma_tdiv_bound((dx * sep1) as int, dist as int, sep1 as int);
            crate::mathx::lemma_tdiv_bound((dy * sep1) as int, dist as int, sep1 as int);
            crate::mathx::lemma_tdiv_bound((dx * sep2) as int, dist as int, sep2 as int);
            crate::mathx::lemma_tdiv_bound((dy * sep2) as int, dist as int, sep2 as int);
        }
        let ax = div_trunc(dx * sep1, dist);
        let ay = div_trunc(dy * sep1, dist);
        let bx = div_trunc(dx * sep2, dist);
        let by = div_trunc(dy * sep2, dist);
        (-ax, -ay, bx, by)
    } else {
        (0, 0, 0, 0)
    }
}

/// The deltas buffer matches the finished sum for body `k`.
pub open spec fn inv_done(ents: Seq<Body>, deltas: Seq<(i64, i64)>, k: int) -> bool {
    deltas[k].0 == spec_delta(ents, k).0 && deltas[k].1 == spec_delta(ents, k).1
}

/// The deltas buffer holds the partial lower sum for body `k`, with no
/// higher-pair contribution yet.
pub open spec fn inv_partial(ents: Seq<Body>, deltas: Seq<(i64, i64)>, k: int, upto: int) -> bool {
    deltas[k].0 == spec_delta_lower(ents, k, upto).0 && deltas[k].1 == spec_delta_lower(
        ents,
        k,
        upto,
    ).1
}

/// Computes the reactive-versus-reactive correction of every body from the
/// original positions alone: body `k`'s correction is the sum of its shares
/// over every broad-phase pair it overlaps.
pub fn compute_corrections(ents: &Vec<Body>) -> (deltas: Vec<(i64, i64)>)
    requires
        ents@.len() <= REACT_LIMIT,
        forall|t: int| 0 <= t < ents@.len() ==> #[trigger] ents@[t].wf(),
    ensures
        deltas@.len() == ents@.len(),
        forall|k: int|
            0 <= k < ents@.len() ==> #[trigger] deltas@[k].0 == spec_delta(ents@, k).0
                && deltas@[k].1 == spec_delta(ents@, k).1,
{
    let n = ents.len();
    let world = Rect { x_min: 0, y_min: 0, x_max: 8_192_000, y_max: 8_192_000 };
    let mut qt = Quadtree::new(world, 4);
    let mut i: usize = 0;
    while i < n
        invariant
            i <= n,
            n == ents@.len(),
            qt.wf(),
            qt.boundary == spec_world_rect(),
            qt.contents() == spec_points(ents@, i as int),
        decreases n - i,
    {
        let b = ents[i];
        let p = Point { x: b.x, y: b.y, index: i };
        let _inside = qt.insert(p);
        i = i + 1;
    }
    let mut deltas: Vec<(i64, i64)> = Vec::new();
    let mut k: usize = 0;
    while k < n
        invariant
            k <= n,
            deltas@.len() == k,
            forall|t: int| 0 <= t < k ==> #[trigger] deltas@[t] == (0i64, 0i64),
        decreases n - k,
    {
        deltas.push((0, 0));
        k = k + 1;
    }
    let mut i: usize = 0;
    while i < n
        invariant
            i <= n,
            n == ents@.len() <= REACT_LIMIT,
            forall|t: int| 0 <= t < ents@.len() ==> #[trigger] ents@[t].wf(),
            deltas@.len() == n,
            qt.wf(),
            qt.boundary == spec_world_rect(),
            qt.contents() == spec_points(ents@, n as int),
            forall|k: int| 0 <= k < i ==> #[trigger] inv_done(ents@, deltas@, k),
            forall|k: int| i <= k < n ==> #[trigger] inv_partial(ents@, deltas@, k, i as int),
        decreases n - i,
    {
        let b = ents[i];
        proof {
            assert(ents@[i as int].wf());
        }
        let qrect = Rect::new(b.x, b.y, 3 * b.radius, 3 * b.radius);
        let mut scratch: Vec<Point> = Vec::new();
        qt.query(&qrect, &mut scratch);
        let ghost pred = |p: Point| qrect.spec_contains(p.x as int, p.y as int);
        proof {
            assert(scratch@.to_multiset() =~= spec_points(ents@, n as int).filter(pred));
        }
        let mut near: Vec<bool> = Vec::new();
        let mut t: usize = 0;
        while t < n
            invariant
                t <= n,
                near@.len() == t,
                forall|j: int| 0 <= j < t ==> !(#[trigger] near@[j]),
            decreases n - t,
        {
            near.push(false);
            t = t + 1;
        }
        let m = scratch.len();
        let mut t: usize = 0;
        while t < m
            invariant
                t <= m,
                m == scratch@.len(),
                near@.len() == n,
                forall|j: int|
                    0 <= j < n ==> (#[trigger] near@[j] <==> exists|u: int|
                        0 <= u < t && (#[trigger] scratch@[u].index) == j),
            decreases m - t,
        {
            let p = scratch[t];
            if p.index < n {
                near.set(p.index, true);
            }
            t = t + 1;
            proof {
                assert forall|j: int| 0 <= j < n implies (#[trigger] near@[j] <==> exists|u: int|
                    0 <= u < t && (#[trigger] scratch@[u].index) == j) by {
                    if near@[j] {
                        if j == p.index as int {
                            assert(scratch@[t - 1].index == j);
                        }
                    }
                    if exists|u: int| 0 <= u < t && (#[trigger] scratch@[u].index) == j {
                        let u = choose|u: int| 0 <= u < t && (#[trigger] scratch@[u].index) == j;
                        if u == t - 1 {
                            assert(p.index == j);
                        }
                    }
                }
            }
        }
        proof {
            assert forall|j: int| i < j < n implies (near@[j] <==> spec_pair_tested(
                ents@,
                i as int,
                j,
            )) by {
                let pj = spec_point_of(ents@, j);
                lemma_points_contains(ents@, n as int, pj);
                if near@[j] {
                    let u = choose|u: int| 0 <= u < scratch@.len() && (#[trigger] scratch@[u].index)
                        == j;
                    let q = scratch@[u];
                    assert(scratch@.contains(q));
                    assert(scratch@.to_multiset().count(q) > 0);
                    assert(spec_points(ents@, n as int).contains(q) && pred(q));
                    lemma_points_contains(ents@, n as int, q);
                    assert(q == pj);
                }
                if spec_pair_tested(ents@, i as int, j) {
                    assert(spec_points(ents@, n as int).contains(pj));
                    assert(pred(pj));
                    assert(scratch@.to_multiset().count(pj) > 0);
                    assert(scratch@.contains(pj));
                    let u = choose|u: int| 0 <= u < scratch@.len() && scratch@[u] == pj;
                    assert(scratch@[u].index == j);
                }
            }
        }
        let mut j: usize = i + 1;
        proof {
            assert(inv_partial(ents@, deltas@, i as int, i as int));
            assert(spec_delta_higher(ents@, i as int, i as int + 1) == (0int, 0int));
        }
        while j < n
            invariant
                i < j <= n || (i + 1 >= n && j == i + 1),
                i < n,
                n == ents@.len() <= REACT_LIMIT,
                forall|t: int| 0 <= t < ents@.len() ==> #[trigger] ents@[t].wf(),
                deltas@.len() == n,
                near@.len() == n,
                forall|jj: int|
                    i < jj < n ==> (#[trigger] near@[jj] <==> spec_pair_tested(
                        ents@,
                        i as int,
                        jj,
                    )),
                forall|k: int| 0 <= k < i ==> #[trigger] inv_done(ents@, deltas@, k),
                deltas@[i as int].0 == spec_delta_lower(ents@, i as int, i as int).0
                    + spec_delta_higher(ents@, i as int, j as int).0,
                deltas@[i as int].1 == spec_delta_lower(ents@, i as int, i as int).1
                    + spec_delta_higher(ents@, i as int, j as int).1,
                forall|k: int| i < k < j ==> #[trigger] inv_partial(ents@, deltas@, k, i as int + 1),
                forall|k: int| j <= k < n ==> #[trigger] inv_partial(ents@, deltas@, k, i as int),
            decreases n - j,
        {
            let ghost d0 = deltas@;
            let ghost lo_i = spec_delta_lower(ents@, i as int, i as int);
            let ghost hi_ij = spec_delta_higher(ents@, i as int, j as int);
            let ghost lo_j = spec_delta_lower(ents@, j as int, i as int);
            let ghost pd_i = spec_pair_delta(ents@, i as int, j as int, i as int);
            let ghost pd_j = spec_pair_delta(ents@, i as int, j as int, j as int);
            proof {
                assert(ents@[i as int].wf() && ents@[j as int].wf());
                assert(inv_partial(ents@, deltas@, j as int, i as int));
                lemma_delta_lower_bound(ents@, i as int, i as int);
                lemma_delta_higher_bound(ents@, i as int, j as int);
                lemma_delta_lower_bound(ents@, j as int, i as int);
                lemma_push_fns_bound(ents@[i as int], ents@[j as int]);
                lemma_pair_delta_bound(ents@, i as int, j as int, i as int);
                lemma_pair_delta_bound(ents@, i as int, j as int, j as int);
                assert(spec_delta_higher(ents@, i as int, j as int + 1) == (hi_ij.0 + pd_i.0, hi_ij.1
                    + pd_i.1));
                assert(spec_delta_lower(ents@, j as int, i as int + 1) == (lo_j.0 + pd_j.0, lo_j.1
                    + pd_j.1));
                assert(i as int * (2 * REACT_RAD_LIMIT) + (j as int - i as int - 1) * (2
                    * REACT_RAD_LIMIT) <= 4096 * (2 * REACT_RAD_LIMIT)) by (nonlinear_arith)
                    requires
                        0 <= (i as int) && (i as int) < (j as int) && (j as int) <= 4096,
                ;
            }
            if near[j] {
                let d = pair_push(ents[i], ents[j]);
                proof {
                    assert(spec_pair_tested(ents@, i as int, j as int));
                    assert(d.0 == pd_i.0 && d.1 == pd_i.1 && d.2 == pd_j.0 && d.3 == pd_j.1);
                }
                let di = deltas[i];
                deltas.set(i, (di.0 + d.0, di.1 + d.1));
                let dj = deltas[j];
                deltas.set(j, (dj.0 + d.2, dj.1 + d.3));
                proof {
                    assert(deltas@[i as int].0 == lo_i.0 + spec_delta_higher(
                        ents@,
                        i as int,
                        j as int + 1,
                    ).0 && deltas@[i as int].1 == lo_i.1 + spec_delta_higher(
                        ents@,
                        i as int,
                        j as int + 1,
                    ).1);
                    assert(inv_partial(ents@, deltas@, j as int, i as int + 1));
                }
            } else {
                proof {
                    assert(!spec_pair_tested(ents@, i as int, j as int));
                    assert(pd_i == (0int, 0int) && pd_j == (0int, 0int));
                    assert(inv_partial(ents@, deltas@, j as int, i as int + 1));
                }
            }
            proof {
                assert forall|k: int| 0 <= k < i implies #[trigger] inv_done(
                    ents@,
                    deltas@,
                    k,
                ) by {
                    assert(inv_done(ents@, d0, k));
                    assert(deltas@[k] == d0[k]);
                }
                assert forall|k: int| i < k < j + 1 implies #[trigger] inv_partial(
                    ents@,
                    deltas@,
                    k,
                    i as int + 1,
                ) by {
                    if k < j {
                        assert(inv_partial(ents@, d0, k, i as int + 1));
                        assert(deltas@[k] == d0[k]);
                    }
                }
                assert forall|k: int| j + 1 <= k < n implies #[trigger] inv_partial(
                    ents@,
                    deltas@,
                    k,
                    i as int,
                ) by {
                    assert(inv_partial(ents@, d0, k, i as int));
                    assert(deltas@[k] == d0[k]);
                }
            }
            j = j + 1;
        }
        proof {
            assert(inv_done(ents@, deltas@, i as int)) by {
                lemma_delta_lower_stable(ents@, i as int, i as int);
            }
            assert forall|k: int| i + 1 <= k < n implies #[trigger] inv_partial(
                ents@,
                deltas@,
                k,
                i as int + 1,
            ) by {
            }
        }
        i = i + 1;
    }
    proof {
        assert forall|k: int| 0 <= k < ents@.len() implies #[trigger] deltas@[k].0 == spec_delta(
            ents@,
            k,
        ).0 && deltas@[k].1 == spec_delta(ents@, k).1 by {
            assert(inv_done(ents@, deltas@, k));
        }
    }
    deltas
}


/// What one obstacle does to a reactive body standing at `e`: nothing
/// outside the bounding-circle broad phase; otherwise the exact narrow
/// phase of the obstacle's shape, pushing the body out by the full
/// penetration (obstacles never move). A body whose center coincides with a
/// circular obstacle's center, leaving no direction, is not moved; one whose
/// center lies inside a rectangular obstacle leaves along the axis of least
/// penetration.
pub open spec fn spec_obstacle_push(e: Body, o: Obstacle) -> (int, int) {
    let dxo = o.x - e.x;
    let dyo = o.y - e.y;
    let d2 = dxo * dxo + dyo * dyo;
    let comb = e.radius + o.collider.rad;
    if d2 >= comb * comb {
        (0, 0)
    } else {
        match o.collider.shape {
            Shape::Circle { radius } => {
                if d2 > 0 {
                    let dist = spec_isqrt(d2);
                    let pen = e.radius + radius - dist;
                    if pen > 0 {
                        (-spec_tdiv(dxo * pen, dist), -spec_tdiv(dyo * pen, dist))
                    } else {
                        (0, 0)
                    }
                } else {
                    (0, 0)
                }
            },
            Shape::Rect { half_w, half_h } => {
                let cx = spec_clamp(e.x as int, o.x - half_w, o.x + half_w);
                let cy = spec_clamp(e.y as int, o.y - half_h, o.y + half_h);
                let ddx = e.x - cx;
                let ddy = e.y - cy;
                let dd2 = ddx * ddx + ddy * ddy;
                if dd2 > 0 {
                    if dd2 < e.radius * e.radius {
                        let dist = spec_isqrt(dd2);
                        let pen = e.radius - dist;
                        if pen > 0 {
                            (spec_tdiv(ddx * pen, dist), spec_tdiv(ddy * pen, dist))
                        } else {
                            (0, 0)
                        }
                    } else {
                        (0, 0)
                    }
                } else {
                    let ax = if dxo >= 0 {
                        dxo
                    } else {
                        -dxo
                    };
                    let ay = if dyo >= 0 {
                        dyo
                    } else {
                        -dyo
                    };
                    let pen_x = half_w - ax + e.radius;
                    let pen_y = half_h - ay + e.radius;
                    if pen_x <= pen_y {
                        (
                            if e.x >= o.x {
                                pen_x
                            } else {
                                -pen_x
                            },
                            0,
                        )
                    } else {
                        (
                            0,
                            if e.y >= o.y {
                                pen_y
                            } else {
                                -pen_y
                            },
                        )
                    }
                }
            },
        }
    }
}

/// The body after one obstacle's push, confined to the clamp region.
pub open spec fn spec_obstacle_step(e: Body, o: Obstacle) -> Body {
    let p = spec_obstacle_push(e, o);
    Body {
        x: spec_clamp(e.x + p.0, -POS_CLAMP as int, POS_CLAMP as int) as i64,
        y: spec_clamp(e.y + p.1, -POS_CLAMP as int, POS_CLAMP as int) as i64,
        radius: e.radius,
    }
}

/// The body after the first `k` obstacles, applied in order.
pub open spec fn spec_push_all(e: Body, obs: Seq<Obstacle>, k: int) -> Body
    decreases k,
{
    if k <= 0 {
        e
    } else {
        spec_obstacle_step(spec_push_all(e, obs, k - 1), obs[k - 1])
    }
}

/// The clamp region and the radius survive every obstacle step.
pub open spec fn spec_body_in_clamp(e: Body) -> bool {
    &&& -POS_CLAMP <= e.x <= POS_CLAMP
    &&& -POS_CLAMP <= e.y <= POS_CLAMP
    &&& 0 <= e.radius <= REACT_RAD_LIMIT
}

/// Applies one obstacle's push to a body.
fn obstacle_step(e: Body, o: &Obstacle) -> (r: Body)
    requires
        spec_body_in_clamp(e),
        o.wf(),
    ensures
        r == spec_obstacle_step(e, *o),
        spec_body_in_clamp(r),
{
    let dxo = o.x - e.x;
    let dyo = o.y - e.y;
    proof {
        assert(-0x6000_0000 <= dxo <= 0x6000_0000 && -0x6000_0000 <= dyo <= 0x6000_0000);
        assert(0 <= dxo * dxo <= 0x6000_0000i64 * 0x6000_0000i64 && 0 <= dyo * dyo
            <= 0x6000_0000i64 * 0x6000_0000i64) by (nonlinear_arith)
            requires
                -0x6000_0000 <= dxo <= 0x6000_0000 && -0x6000_0000 <= dyo <= 0x6000_0000,
        ;
    }
    let d2 = dxo * dxo + dyo * dyo;
    let comb = e.radius + o.rad();
    proof {
        assert(0 <= comb <= 0x200_0000);
        assert(0 <= comb * comb <= 0x200_0000i64 * 0x200_0000i64) by (nonlinear_arith)
            requires
                0 <= comb <= 0x200_0000,
        ;
    }
    let push: (i64, i64) = if d2 >= comb * comb {
        (0, 0)
    } else {
        match o.collider.shape {
            Shape::Circle { radius } => {
                if d2 > 0 {
                    let dist = isqrt(d2);
                    proof {
                        crate::mathx::lemma_isqrt_is(d2 as int, dist as int);
                        assert(dist >= 1) by {
                            if dist == 0 {
                                assert((dist as int + 1) * (dist as int + 1) == 1)
                                    by (nonlinear_arith)
                                    requires
                                        dist == 0,
                                ;
                            }
                        }
                        lemma_component_le_isqrt(dxo as int, dyo as int);
                        lemma_component_le_isqrt(dyo as int, dxo as int);
                        assert(dist < comb) by {
                            if dist >= comb {
                                crate::mathx::lemma_square_monotone(comb as int, dist as int);
                            }
                        }
                    }
                    let pen = e.radius + radius - dist;
                    if pen > 0 {
                        proof {
                            assert(-(dist * pen) <= dxo * pen <= dist * pen && -(dist * pen) <= dyo
                                * pen <= dist * pen) by (nonlinear_arith)
                                requires
                                    -dist <= dxo <= dist && -dist <= dyo <= dist && pen >= 0,
                            ;
                            assert(dist * pen <= 0x6000_0000i64 * 0x200_0000i64)
                                by (nonlinear_arith)
                                requires
                                    0 <= dist <= 0x6000_0000 && 0 <= pen <= 0x200_0000,
                            ;
                            crate::mathx::lemma_tdiv_bound((dxo * pen) as int, dist as int, pen as int);
                            crate::mathx::lemma_tdiv_bound((dyo * pen) as int, dist as int, pen as int);
                        }
                        let px = div_trunc(dxo * pen, dist);
                        let py = div_trunc(dyo * pen, dist);
                        (-px, -py)
                    } else {
                        (0, 0)
                    }
                } else {
                    (0, 0)
                }
            },
            Shape::Rect { half_w, half_h } => {
                let cx = clamp_i64(e.x, o.x - half_w, o.x + half_w);
                let cy = clamp_i64(e.y, o.y - half_h, o.y + half_h);
                let ddx = e.x - cx;
                let ddy = e.y - cy;
                proof {
                    assert(-0x6000_0000 <= ddx <= 0x6000_0000 && -0x6000_0000 <= ddy
                        <= 0x6000_0000);
                    assert(0 <= ddx * ddx <= 0x6000_0000i64 * 0x6000_0000i64 && 0 <= ddy * ddy
                        <= 0x6000_0000i64 * 0x6000_0000i64) by (nonlinear_arith)
                        requires
                            -0x6000_0000 <= ddx <= 0x6000_0000 && -0x6000_0000 <= ddy
                                <= 0x6000_0000,
                    ;
                    assert(0 <= e.radius * e.radius <= REACT_RAD_LIMIT * REACT_RAD_LIMIT)
                        by (nonlinear_arith)
                        requires
                            0 <= e.radius <= REACT_RAD_LIMIT,
                    ;
                }
                let dd2 = ddx * ddx + ddy * ddy;
                if dd2 > 0 {
                    if dd2 < e.radius * e.radius {
                        let dist = isqrt(dd2);
                        proof {
                            crate::mathx::lemma_isqrt_is(dd2 as int, dist as int);
                            assert(dist >= 1) by {
                                if dist == 0 {
                                    assert((dist as int + 1) * (dist as int + 1) == 1)
                                        by (nonlinear_arith)
                                        requires
                                            dist == 0,
                                    ;
                                }
                            }
                            lemma_component_le_isqrt(ddx as int, ddy as int);
                            lemma_component_le_isqrt(ddy as int, ddx as int);
                            assert(dist < e.radius) by {
                                if dist >= e.radius {
                                    crate::mathx::lemma_square_monotone(e.radius as int, dist as int);
                                }
                            }
                        }
                        let pen = e.radius - dist;
                        if pen > 0 {
                            proof {
                                assert(-(dist * pen) <= ddx * pen <= dist * pen && -(dist * pen)
                                    <= ddy * pen <= dist * pen) by (nonlinear_arith)
                                    requires
                                        -dist <= ddx <= dist && -dist <= ddy <= dist && pen >= 0,
                                ;
                                assert(dist * pen <= 0x6000_0000i64 * 0x10_0000i64)
                                    by (nonlinear_arith)
                                    requires
                                        0 <= dist <= 0x6000_0000 && 0 <= pen <= 0x10_0000,
                                ;
                                crate::mathx::lemma_tdiv_bound(
                                    (ddx * pen) as int,
                                    dist as int,
                                    pen as int,
                                );
                                crate::mathx::lemma_tdiv_bound(
                                    (ddy * pen) as int,
                                    dist as int,
                                    pen as int,
                                );
                            }
                            let px = div_trunc(ddx * pen, dist);
                            let py = div_trunc(ddy * pen, dist);
                            (px, py)
                        } else {
                            (0, 0)
                        }
                    } else {
                        (0, 0)
                    }
                } else {
                    proof {
                        assert(ddx == 0 && ddy == 0) by (nonlinear_arith)
                            requires
                                ddx * ddx + ddy * ddy == 0,
                        ;
                    }
                    let ax = if dxo >= 0 {
                        dxo
                    } else {
                        -dxo
                    };
                    let ay = if dyo >= 0 {
                        dyo
                    } else {
                        -dyo
                    };
                    let pen_x = half_w - ax + e.radius;
                    let pen_y = half_h - ay + e.radius;
                    if pen_x <= pen_y {
                        (
                            if e.x >= o.x {
                                pen_x
                            } else {
                                -pen_x
                            },
                            0,
                        )
                    } else {
                        (
                            0,
                            if e.y >= o.y {
                                pen_y
                            } else {
                                -pen_y
                            },
                        )
                    }
                }
            },
        }
    };
    let nx = clamp_i64(e.x + push.0, -POS_CLAMP, POS_CLAMP);
    let ny = clamp_i64(e.y + push.1, -POS_CLAMP, POS_CLAMP);
    Body { x: nx, y: ny, radius: e.radius }
}

impl Obstacle {
    /// The obstacle's bounding radius.
    fn rad(&self) -> (r: i64)
        ensures
            r == self.collider.rad,
    {
        self.collider.rad
    }
}

/// Pushes a body out of every obstacle in order, exactly the fold of the
/// single-obstacle step.
fn push_out_of_obstacles(e0: Body, obstacles: &Vec<Obstacle>) -> (r: Body)
    requires
        spec_body_in_clamp(e0),
        forall|t: int| 0 <= t < obstacles@.len() ==> #[trigger] obstacles@[t].wf(),
    ensures
        r == spec_push_all(e0, obstacles@, obstacles@.len() as int),
        spec_body_in_clamp(r),
{
    let n = obstacles.len();
    let mut e = e0;
    let mut m: usize = 0;
    while m < n
        invariant
            m <= n,
            n == obstacles@.len(),
            forall|t: int| 0 <= t < obstacles@.len() ==> #[trigger] obstacles@[t].wf(),
            e == spec_push_all(e0, obstacles@, m as int),
            spec_body_in_clamp(e),
        decreases n - m,
    {
        e = obstacle_step(e, &obstacles[m]);
        m = m + 1;
    }
    e
}

/// The body after the reactive-versus-reactive corrections are applied.
pub open spec fn spec_applied(ents: Seq<Body>, k: int) -> Body {
    let d = spec_delta(ents, k);
    Body {
        x: spec_clamp(ents[k].x + d.0, -POS_CLAMP as int, POS_CLAMP as int) as i64,
        y: spec_clamp(ents[k].y + d.1, -POS_CLAMP as int, POS_CLAMP as int) as i64,
        radius: ents[k].radius,
    }
}

/// The final position of body `k` after one whole resolution pass.
pub open spec fn spec_resolved(ents: Seq<Body>, obs: Seq<Obstacle>, k: int) -> Body {
    spec_push_all(spec_applied(ents, k), obs, obs.len() as int)
}

/// Every obstacle step keeps the body inside the clamp region and leaves
/// its radius alone.
pub proof fn lemma_push_all_props(e: Body, obs: Seq<Obstacle>, k: int)
    requires
        spec_body_in_clamp(e),
        0 <= k <= obs.len(),
    ensures
        spec_push_all(e, obs, k).radius == e.radius,
        spec_body_in_clamp(spec_push_all(e, obs, k)),
    decreases k,
{
    if k > 0 {
        lemma_push_all_props(e, obs, k - 1);
    }
}

/// A resolved body stays inside the clamp region and keeps its radius.
pub proof fn lemma_resolved_props(ents: Seq<Body>, obs: Seq<Obstacle>, k: int)
    requires
        0 <= k < ents.len(),
        ents[k].wf(),
    ensures
        spec_resolved(ents, obs, k).radius == ents[k].radius,
        spec_body_in_clamp(spec_resolved(ents, obs, k)),
{
    lemma_push_all_props(spec_applied(ents, k), obs, obs.len() as int);
}

/// One whole resolution pass over the reactive bodies: every body ends at
/// exactly the position given by its accumulated pair corrections followed
/// by the fold of the obstacle pushes, all computed from the original
/// positions of this tick. One pass makes no zero-penetration promise:
/// overlaps may survive into the next tick.
pub fn collision_resolution_system(reactive: &Vec<Body>, obstacles: &Vec<Obstacle>) -> (out: Vec<
    Body,
>)
    requires
        reactive@.len() <= REACT_LIMIT,
        forall|t: int| 0 <= t < reactive@.len() ==> #[trigger] reactive@[t].wf(),
        forall|t: int| 0 <= t < obstacles@.len() ==> #[trigger] obstacles@[t].wf(),
    ensures
        out@.len() == reactive@.len(),
        forall|k: int|
            0 <= k < reactive@.len() ==> #[trigger] out@[k] == spec_resolved(
                reactive@,
                obstacles@,
                k,
            ),
{
    let n = reactive.len();
    let deltas = compute_corrections(reactive);
    let mut out: Vec<Body> = Vec::new();
    let mut k: usize = 0;
    while k < n
        invariant
            k <= n,
            n == reactive@.len() <= REACT_LIMIT,
            forall|t: int| 0 <= t < reactive@.len() ==> #[trigger] reactive@[t].wf(),
            forall|t: int| 0 <= t < obstacles@.len() ==> #[trigger] obstacles@[t].wf(),
            deltas@.len() == n,
            forall|t: int|
                0 <= t < n ==> #[trigger] deltas@[t].0 == spec_delta(reactive@, t).0
                    && deltas@[t].1 == spec_delta(reactive@, t).1,
            out@.len() == k,
            forall|t: int|
                0 <= t < k ==> #[trigger] out@[t] == spec_resolved(reactive@, obstacles@, t),
        decreases n - k,
    {
        let b = reactive[k];
        let d = deltas[k];
        proof {
            assert(reactive@[k as int].wf());
            lemma_delta_lower_bound(reactive@, k as int, k as int);
            lemma_delta_higher_bound(reactive@, k as int, n as int);
            assert(k as int * (2 * REACT_RAD_LIMIT) + (n as int - k as int - 1) * (2
                * REACT_RAD_LIMIT) <= 4096 * (2 * REACT_RAD_LIMIT)) by (nonlinear_arith)
                requires
                    0 <= (k as int) && (k as int) < (n as int) && (n as int) <= 4096,
            ;
        }
        let nx = clamp_i64(b.x + d.0, -POS_CLAMP, POS_CLAMP);
        let ny = clamp_i64(b.y + d.1, -POS_CLAMP, POS_CLAMP);
        let applied = Body { x: nx, y: ny, radius: b.radius };
        proof {
            assert(applied == spec_applied(reactive@, k as int));
        }
        let resolved = push_out_of_obstacles(applied, obstacles);
        out.push(resolved);
        k = k + 1;
    }
    out
}

} // verus!
