//! The spatial index: an axis-aligned quadtree over integer milli-unit
//! coordinates. A node holds points up to a fixed capacity, then subdivides
//! into four equal quadrants and redistributes; a query walks only subtrees
//! whose boundary meets the query rectangle. The tree's contents are modeled
//! as a multiset of points, and `query` returns exactly the stored points
//! inside the queried rectangle.

use vstd::prelude::*;

use vstd::multiset::Multiset;

verus! {

broadcast use vstd::seq_lib::group_to_multiset_ensures, vstd::multiset::group_multiset_axioms;

/// Coordinates handled by the index stay within this bound, which keeps all
/// midpoint and extent arithmetic inside `i64`.
pub const COORD_LIMIT: i64 = 0x1000_0000_0000_0000;

/// One indexed position: the coordinates in milli-units and an opaque index
/// back into the caller's entity array. The tree stores no entity data.
#[derive(Clone, Copy, Debug, PartialEq, Eq, Structural)]
pub struct Point {
    pub x: i64,
    pub y: i64,
    pub index: usize,
}

/// An axis-aligned rectangle, bounds inclusive.
#[derive(Clone, Copy, Debug, PartialEq, Eq, Structural)]
pub struct Rect {
    pub x_min: i64,
    pub y_min: i64,
    pub x_max: i64,
    pub y_max: i64,
}

impl Rect {
    /// Ordered bounds, within the coordinate limit.
    pub open spec fn wf(self) -> bool {
        &&& -COORD_LIMIT <= self.x_min <= self.x_max <= COORD_LIMIT
        &&& -COORD_LIMIT <= self.y_min <= self.y_max <= COORD_LIMIT
    }

    /// Whether the rectangle contains the position, bounds inclusive.
    pub open spec fn spec_contains(self, px: int, py: int) -> bool {
        self.x_min <= px <= self.x_max && self.y_min <= py <= self.y_max
    }

    /// Whether two rectangles share at least one position.
    pub open spec fn spec_intersects(self, other: Rect) -> bool {
        !(other.x_min > self.x_max || other.x_max < self.x_min || other.y_min > self.y_max
            || other.y_max < self.y_min)
    }

    /// Builds the rectangle centered at `(x, y)` reaching `width` to each
    /// side and `height` above and below.
    pub fn new(x: i64, y: i64, width: i64, height: i64) -> (r: Rect)
        requires
            0 <= width,
            0 <= height,
            -COORD_LIMIT <= x - width,
            x + width <= COORD_LIMIT,
            -COORD_LIMIT <= y - height,
            y + height <= COORD_LIMIT,
        ensures
            r.x_min == x - width,
            r.y_min == y - height,
            r.x_max == x + width,
            r.y_max == y + height,
            r.wf(),
    {
        Rect { x_min: x - width, y_min: y - height, x_max: x + width, y_max: y + height }
    }

    /// Whether the rectangle contains the point's position.
    pub fn contains(&self, p: &Point) -> (r: bool)
        ensures
            r == self.spec_contains(p.x as int, p.y as int),
    {
        p.x >= self.x_min && p.x <= self.x_max && p.y >= self.y_min && p.y <= self.y_max
    }

    /// Whether the two rectangles share at least one position.
    pub fn intersects(&self, other: &Rect) -> (r: bool)
        ensures
            r == self.spec_intersects(*other),
    {
        !(other.x_min > self.x_max || other.x_max < self.x_min || other.y_min > self.y_max
            || other.y_max < self.y_min)
    }
}

/// The horizontal midpoint a node subdivides at.
pub open spec fn spec_x_mid(r: Rect) -> int {
    r.x_min + (r.x_max - r.x_min) / 2
}

/// The vertical midpoint a node subdivides at.
pub open spec fn spec_y_mid(r: Rect) -> int {
    r.y_min + (r.y_max - r.y_min) / 2
}

/// The four quadrants of a boundary, edges shared inclusively.
pub open spec fn spec_nw(r: Rect) -> Rect {
    Rect { x_min: r.x_min, y_min: r.y_min, x_max: spec_x_mid(r) as i64, y_max: spec_y_mid(r) as i64 }
}

pub open spec fn spec_ne(r: Rect) -> Rect {
    Rect { x_min: spec_x_mid(r) as i64, y_min: r.y_min, x_max: r.x_max, y_max: spec_y_mid(r) as i64 }
}

pub open spec fn spec_sw(r: Rect) -> Rect {
    Rect { x_min: r.x_min, y_min: spec_y_mid(r) as i64, x_max: spec_x_mid(r) as i64, y_max: r.y_max }
}

pub open spec fn spec_se(r: Rect) -> Rect {
    Rect { x_min: spec_x_mid(r) as i64, y_min: spec_y_mid(r) as i64, x_max: r.x_max, y_max: r.y_max }
}

/// A position inside a boundary lies inside at least one of its quadrants.
proof fn lemma_quadrant_coverage(r: Rect, px: int, py: int)
    requires
        r.wf(),
        r.spec_contains(px, py),
    ensures
        spec_nw(r).spec_contains(px, py) || spec_ne(r).spec_contains(px, py) || spec_sw(
            r,
        ).spec_contains(px, py) || spec_se(r).spec_contains(px, py),
{
}

/// A position inside any quadrant lies inside the boundary it was cut from.
proof fn lemma_quadrant_in_parent(r: Rect, px: int, py: int)
    requires
        r.wf(),
        spec_nw(r).spec_contains(px, py) || spec_ne(r).spec_contains(px, py) || spec_sw(
            r,
        ).spec_contains(px, py) || spec_se(r).spec_contains(px, py),
    ensures
        r.spec_contains(px, py),
{
    assert(0 <= (r.x_max - r.x_min) / 2 <= r.x_max - r.x_min);
    assert(0 <= (r.y_max - r.y_min) / 2 <= r.y_max - r.y_min);
}

/// The four children of a subdivided node.
pub struct Quads {
    pub nw: Quadtree,
    pub ne: Quadtree,
    pub sw: Quadtree,
    pub se: Quadtree,
}

/// A quadtree node: its boundary, the points it holds while it is a leaf,
/// and its four children once it has subdivided.
pub struct Quadtree {
    pub boundary: Rect,
    pub capacity: usize,
    pub points: Vec<Point>,
    pub children: Option<Box<Quads>>,
}

impl Quadtree {
    /// Structural well-formedness: the boundary is ordered and bounded,
    /// every held point lies inside it, a childless node holds at most its
    /// capacity of points unless its boundary is too narrow to split, and a
    /// subdivided node holds no points of its own, was wide enough to
    /// split, and has the four quadrants as children.
    pub open spec fn wf(self) -> bool
        decreases self,
    {
        &&& self.boundary.wf()
        &&& forall|i: int|
            0 <= i < self.points@.len() ==> self.boundary.spec_contains(
                #[trigger] self.points@[i].x as int,
                self.points@[i].y as int,
            )
        &&& match self.children {
            Option::None => self.points@.len() <= self.capacity || self.boundary.x_max
                - self.boundary.x_min < 2 || self.boundary.y_max - self.boundary.y_min < 2,
            Option::Some(b) => {
                &&& self.points@.len() == 0
                &&& self.boundary.x_max - self.boundary.x_min >= 2
                &&& self.boundary.y_max - self.boundary.y_min >= 2
                &&& b.nw.boundary == spec_nw(self.boundary)
                &&& b.ne.boundary == spec_ne(self.boundary)
                &&& b.sw.boundary == spec_sw(self.boundary)
                &&& b.se.boundary == spec_se(self.boundary)
                &&& b.nw.wf()
                &&& b.ne.wf()
                &&& b.sw.wf()
                &&& b.se.wf()
            },
        }
    }

    /// Everything the subtree stores, as a multiset of points.
    pub open spec fn contents(self) -> Multiset<Point>
        decreases self,
    {
        match self.children {
            Option::None => self.points@.to_multiset(),
            Option::Some(b) => self.points@.to_multiset().add(b.nw.contents()).add(
                b.ne.contents(),
            ).add(b.sw.contents()).add(b.se.contents()),
        }
    }

    /// The termination measure of the recursion: the boundary's combined
    /// extent, which every quadrant strictly shrinks.
    pub open spec fn measure(self) -> int {
        (self.boundary.x_max - self.boundary.x_min) + (self.boundary.y_max - self.boundary.y_min)
    }

    /// Every stored point lies inside the node's boundary.
    pub proof fn lemma_contents_in_boundary(self)
        requires
            self.wf(),
        ensures
            forall|p: Point|
                #[trigger] self.contents().contains(p) ==> self.boundary.spec_contains(
                    p.x as int,
                    p.y as int,
                ),
        decreases self,
    {
        match self.children {
            Option::None => {
                assert forall|p: Point| #[trigger]
                    self.contents().contains(p) implies self.boundary.spec_contains(
                    p.x as int,
                    p.y as int,
                ) by {
                    assert(self.points@.to_multiset().count(p) > 0);
                    assert(self.points@.contains(p));
                    let i = choose|i: int| 0 <= i < self.points@.len() && self.points@[i] == p;
                    assert(self.boundary.spec_contains(self.points@[i].x as int, self.points@[i].y as int));
                }
            },
            Option::Some(b) => {
                b.nw.lemma_contents_in_boundary();
                b.ne.lemma_contents_in_boundary();
                b.sw.lemma_contents_in_boundary();
                b.se.lemma_contents_in_boundary();
                assert forall|p: Point| #[trigger]
                    self.contents().contains(p) implies self.boundary.spec_contains(
                    p.x as int,
                    p.y as int,
                ) by {
                    assert(self.points@.to_multiset().count(p) == 0) by {
                        assert(!self.points@.contains(p));
                    }
                    assert(b.nw.contents().contains(p) || b.ne.contents().contains(p)
                        || b.sw.contents().contains(p) || b.se.contents().contains(p));
                    lemma_quadrant_in_parent(self.boundary, p.x as int, p.y as int);
                }
            },
        }
    }

    /// Builds an empty leaf over the given boundary.
    pub fn new(boundary: Rect, capacity: usize) -> (r: Quadtree)
        requires
            boundary.wf(),
        ensures
            r.wf(),
            r.boundary == boundary,
            r.capacity == capacity,
            r.contents() == Multiset::<Point>::empty(),
    {
        let t = Quadtree { boundary, capacity, points: Vec::new(), children: None };
        proof {
            assert(t.contents() =~= Multiset::<Point>::empty());
        }
        t
    }

    /// Inserts a point: returns false, changing nothing, when the point lies
    /// outside the node's boundary; otherwise stores it (subdividing a full
    /// leaf that is still wide enough to split) and returns true.
    pub fn insert(&mut self, point: Point) -> (r: bool)
        requires
            old(self).wf(),
        ensures
            final(self).wf(),
            final(self).boundary == old(self).boundary,
            final(self).capacity == old(self).capacity,
            r == old(self).boundary.spec_contains(point.x as int, point.y as int),
            r ==> final(self).contents() == old(self).contents().insert(point),
            !r ==> final(self).contents() == old(self).contents(),
        decreases old(self).measure(), 1int,
    {
        if !self.boundary.contains(&point) {
            return false;
        }
        if self.children.is_none() {
            let can_split = self.boundary.x_max - self.boundary.x_min >= 2 && self.boundary.y_max
                - self.boundary.y_min >= 2;
            if self.points.len() < self.capacity || !can_split {
                self.points.push(point);
                proof {
                    assert(final(self).contents() =~= old(self).contents().insert(point));
                }
                return true;
            }
            self.subdivide();
        }
        let taken = self.children.take();
        match taken {
            Option::Some(bx) => {
                let mut q: Quads = *bx;
                let mut inserted = q.nw.insert(point);
                if !inserted {
                    inserted = q.ne.insert(point);
                }
                if !inserted {
                    inserted = q.sw.insert(point);
                }
                if !inserted {
                    inserted = q.se.insert(point);
                }
                proof {
                    lemma_quadrant_coverage(self.boundary, point.x as int, point.y as int);
                }
                self.children = Some(Box::new(q));
                proof {
                    assert(final(self).contents() =~= old(self).contents().insert(point));
                }
                true
            },
            Option::None => vstd::pervasive::unreached(),
        }
    }

    /// Splits a full leaf into four quadrant children and redistributes its
    /// points; what the subtree stores does not change.
    fn subdivide(&mut self)
        requires
            old(self).wf(),
            old(self).children is None,
            old(self).boundary.x_max - old(self).boundary.x_min >= 2,
            old(self).boundary.y_max - old(self).boundary.y_min >= 2,
        ensures
            final(self).wf(),
            final(self).boundary == old(self).boundary,
            final(self).capacity == old(self).capacity,
            final(self).children is Some,
            final(self).contents() == old(self).contents(),
        decreases old(self).measure(), 0int,
    {
        let x_mid = self.boundary.x_min + (self.boundary.x_max - self.boundary.x_min) / 2;
        let y_mid = self.boundary.y_min + (self.boundary.y_max - self.boundary.y_min) / 2;
        let nw = Quadtree::new(
            Rect {
                x_min: self.boundary.x_min,
                y_min: self.boundary.y_min,
                x_max: x_mid,
                y_max: y_mid,
            },
            self.capacity,
        );
        let ne = Quadtree::new(
            Rect {
                x_min: x_mid,
                y_min: self.boundary.y_min,
                x_max: self.boundary.x_max,
                y_max: y_mid,
            },
            self.capacity,
        );
        let sw = Quadtree::new(
            Rect {
                x_min: self.boundary.x_min,
                y_min: y_mid,
                x_max: x_mid,
                y_max: self.boundary.y_max,
            },
            self.capacity,
        );
        let se = Quadtree::new(
            Rect {
                x_min: x_mid,
                y_min: y_mid,
                x_max: self.boundary.x_max,
                y_max: self.boundary.y_max,
            },
            self.capacity,
        );
        let mut q = Quads { nw, ne, sw, se };
        let mut i: usize = 0;
        let n = self.points.len();
        while i < n
            invariant
                i <= n,
                n == self.points@.len(),
                old(self).wf(),
                self.boundary == old(self).boundary,
                self.capacity == old(self).capacity,
                self.points == old(self).points,
                self.children is None,
                old(self).boundary.x_max - old(self).boundary.x_min >= 2,
                old(self).boundary.y_max - old(self).boundary.y_min >= 2,
                q.nw.boundary == spec_nw(old(self).boundary),
                q.ne.boundary == spec_ne(old(self).boundary),
                q.sw.boundary == spec_sw(old(self).boundary),
                q.se.boundary == spec_se(old(self).boundary),
                q.nw.wf() && q.ne.wf() && q.sw.wf() && q.se.wf(),
                q.nw.contents().add(q.ne.contents()).add(q.sw.contents()).add(q.se.contents())
                    == self.points@.subrange(0, i as int).to_multiset(),
            decreases n - i,
        {
            let p = self.points[i];
            let ghost before = q;
            let mut placed = q.nw.insert(p);
            if !placed {
                placed = q.ne.insert(p);
            }
            if !placed {
                placed = q.sw.insert(p);
            }
            if !placed {
                placed = q.se.insert(p);
            }
            proof {
                lemma_quadrant_coverage(old(self).boundary, p.x as int, p.y as int);
                assert(placed);
                assert(self.points@.subrange(0, i + 1) =~= self.points@.subrange(
                    0,
                    i as int,
                ).push(p));
                assert(q.nw.contents().add(q.ne.contents()).add(q.sw.contents()).add(
                    q.se.contents(),
                ) =~= self.points@.subrange(0, i + 1).to_multiset());
            }
            i = i + 1;
        }
        self.points = Vec::new();
        self.children = Some(Box::new(q));
        proof {
            assert(old(self).points@.subrange(0, n as int) =~= old(self).points@);
            assert(final(self).points@.to_multiset() =~= Multiset::<Point>::empty());
            assert(final(self).contents() =~= old(self).contents());
        }
    }

    /// Collects into `found` every stored point inside `range`, pruning any
    /// subtree whose boundary misses the rectangle: what is appended is
    /// exactly the tree's contents restricted to `range`.
    pub fn query(&self, range: &Rect, found: &mut Vec<Point>)
        requires
            self.wf(),
        ensures
            final(found)@.to_multiset() == old(found)@.to_multiset().add(
                self.contents().filter(
                    |p: Point| range.spec_contains(p.x as int, p.y as int),
                ),
            ),
            final(found)@.len() >= old(found)@.len(),
            final(found)@.subrange(0, old(found)@.len() as int) == old(found)@,
        decreases self,
    {
        let ghost pred = |p: Point| range.spec_contains(p.x as int, p.y as int);
        if !self.boundary.intersects(range) {
            proof {
                self.lemma_contents_in_boundary();
                assert forall|p: Point| #[trigger]
                    self.contents().count(p) > 0 implies !pred(p) by {
                    assert(self.contents().contains(p));
                }
                assert(self.contents().filter(pred) =~= Multiset::<Point>::empty());
                assert(found@.to_multiset() =~= old(found)@.to_multiset().add(
                    self.contents().filter(pred),
                ));
                assert(found@.subrange(0, old(found)@.len() as int) =~= old(found)@);
            }
            return;
        }
        let n = self.points.len();
        let mut i: usize = 0;
        while i < n
            invariant
                i <= n,
                n == self.points@.len(),
                found@ == old(found)@ + self.points@.subrange(0, i as int).filter(pred),
                pred == |p: Point| range.spec_contains(p.x as int, p.y as int),
            decreases n - i,
        {
            let p = self.points[i];
            proof {
                reveal(Seq::filter);
                assert(self.points@.subrange(0, i + 1).drop_last() =~= self.points@.subrange(
                    0,
                    i as int,
                ));
            }
            if range.contains(&p) {
                found.push(p);
            }
            proof {
                assert(found@ =~= old(found)@ + self.points@.subrange(0, i + 1).filter(pred));
            }
            i = i + 1;
        }
        proof {
            assert(self.points@.subrange(0, n as int) =~= self.points@);
            lemma_seq_filter_to_multiset(self.points@, pred);
            vstd::seq_lib::lemma_multiset_commutative(old(found)@, self.points@.filter(pred));
            assert(found@.to_multiset() =~= old(found)@.to_multiset().add(
                self.points@.to_multiset().filter(pred),
            ));
        }
        proof {
            assert(found@.subrange(0, old(found)@.len() as int) =~= old(found)@);
        }
        match &self.children {
            Option::None => {
                proof {
                    assert(found@.to_multiset() =~= old(found)@.to_multiset().add(
                        self.contents().filter(pred),
                    ));
                }
            },
            Option::Some(b) => {
                let ghost f0 = found@;
                b.nw.query(range, found);
                proof {
                    lemma_prefix_chain(old(found)@, f0, found@);
                }
                let ghost f1 = found@;
                b.ne.query(range, found);
                proof {
                    lemma_prefix_chain(old(found)@, f1, found@);
                }
                let ghost f2 = found@;
                b.sw.query(range, found);
                proof {
                    lemma_prefix_chain(old(found)@, f2, found@);
                }
                let ghost f3 = found@;
                b.se.query(range, found);
                proof {
                    lemma_prefix_chain(old(found)@, f3, found@);
                    assert(found@.to_multiset() =~= old(found)@.to_multiset().add(
                        self.contents().filter(pred),
                    ));
                }
            },
        }
    }

    /// Querying a tree with its own boundary restricts its contents not at
    /// all: together with `insert`'s contract, inserting any set of points
    /// that lie within the root boundary and then querying that boundary
    /// returns exactly the inserted points, none lost and none duplicated.
    pub proof fn lemma_query_root_exact(self)
        requires
            self.wf(),
        ensures
            self.contents().filter(
                |p: Point| self.boundary.spec_contains(p.x as int, p.y as int),
            ) == self.contents(),
    {
        let pred = |p: Point| self.boundary.spec_contains(p.x as int, p.y as int);
        self.lemma_contents_in_boundary();
        assert forall|p: Point| #[trigger]
            self.contents().filter(pred).count(p) == self.contents().count(p) by {
            if self.contents().count(p) > 0 {
                assert(self.contents().contains(p));
                assert(pred(p));
            } else {
                if pred(p) {
                } else {
                }
            }
        }
        assert(self.contents().filter(pred) =~= self.contents());
    }
}

/// A prefix of a prefix is a prefix: output already shown to extend `a`
/// into `b` still extends `a` after growing into `c`.
proof fn lemma_prefix_chain(a: Seq<Point>, b: Seq<Point>, c: Seq<Point>)
    requires
        a.len() <= b.len() <= c.len(),
        b.subrange(0, a.len() as int) == a,
        c.subrange(0, b.len() as int) == b,
    ensures
        c.subrange(0, a.len() as int) == a,
{
    assert forall|t: int| 0 <= t < a.len() implies c[t] == a[t] by {
        assert(c.subrange(0, b.len() as int)[t] == b[t]);
        assert(b.subrange(0, a.len() as int)[t] == a[t]);
    }
    assert(c.subrange(0, a.len() as int) =~= a);
}

/// Filtering a sequence and counting occurrences commute: the multiset of a
/// filtered sequence is the filtered multiset.
proof fn lemma_seq_filter_to_multiset(s: Seq<Point>, pred: spec_fn(Point) -> bool)
    ensures
        s.filter(pred).to_multiset() == s.to_multiset().filter(pred),
    decreases s.len(),
{
    reveal(Seq::filter);
    if s.len() == 0 {
        assert(s.filter(pred).to_multiset() =~= s.to_multiset().filter(pred));
    } else {
        let init = s.drop_last();
        let last = s.last();
        lemma_seq_filter_to_multiset(init, pred);
        assert(s =~= init.push(last));
        assert(s.to_multiset() =~= init.to_multiset().insert(last));
        if pred(last) {
            assert(s.filter(pred) =~= init.filter(pred).push(last));
            assert(s.filter(pred).to_multiset() =~= init.filter(pred).to_multiset().insert(last));
            assert(s.to_multiset().filter(pred) =~= init.to_multiset().filter(pred).insert(last));
        } else {
            assert(s.filter(pred) =~= init.filter(pred));
            assert(s.to_multiset().filter(pred) =~= init.to_multiset().filter(pred));
        }
    }
}

} // verus!
