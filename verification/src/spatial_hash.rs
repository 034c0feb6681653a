//! A uniform-grid spatial hash, the quadtree's simpler sibling: entity
//! indices are binned by the grid cell their position falls in, and a query
//! walks every cell a circle's bounding box touches. The grid is modeled as
//! a map from packed cell keys to the sequence of indices each cell holds.

use vstd::prelude::*;

use std::collections::HashMap;

use crate::chunks::{pack_key, spec_pack_key};
use crate::mathx::floor_div;

verus! {

broadcast use vstd::std_specs::hash::group_hash_axioms;

/// Positions handled by the grid stay within this bound.
pub const HASH_POS_LIMIT: i64 = 0x4000_0000_0000;

/// Smallest accepted cell side, in milli-units.
pub const MIN_CELL_MILLI: i64 = 1000;

/// The packed key of the cell a position falls in.
pub open spec fn spec_cell_key(cell_size: i64, x: i64, y: i64) -> u64 {
    spec_pack_key(
        (x as int / cell_size as int) as i32,
        (y as int / cell_size as int) as i32,
    )
}

/// What a cell holds: its index list, or nothing.
pub open spec fn spec_cell(m: Map<u64, Vec<usize>>, key: u64) -> Seq<usize> {
    if m.dom().contains(key) {
        m[key]@
    } else {
        Seq::empty()
    }
}

/// The indices of one column of cells, rows `gy_lo` through `gy_hi`.
pub open spec fn spec_column(
    m: Map<u64, Vec<usize>>,
    gx: i32,
    gy_lo: int,
    gy_hi: int,
) -> Seq<usize>
    decreases gy_hi - gy_lo + 1,
{
    if gy_lo > gy_hi {
        Seq::empty()
    } else {
        spec_column(m, gx, gy_lo, gy_hi - 1) + spec_cell(m, spec_pack_key(gx, gy_hi as i32))
    }
}

/// The indices of a block of cells, columns `gx_lo` through `gx_hi`, rows
/// `gy_lo` through `gy_hi`, in column-major order.
pub open spec fn spec_block(
    m: Map<u64, Vec<usize>>,
    gx_lo: int,
    gx_hi: int,
    gy_lo: int,
    gy_hi: int,
) -> Seq<usize>
    decreases gx_hi - gx_lo + 1,
{
    if gx_lo > gx_hi {
        Seq::empty()
    } else {
        spec_block(m, gx_lo, gx_hi - 1, gy_lo, gy_hi) + spec_column(m, gx_hi as i32, gy_lo, gy_hi)
    }
}

/// The uniform grid: a cell side length and the bins.
pub struct SpatialHash {
    pub cell_size: i64,
    pub grid: HashMap<u64, Vec<usize>>,
}

impl SpatialHash {
    /// A usable grid has a positive, bounded cell side.
    pub open spec fn wf(self) -> bool {
        MIN_CELL_MILLI <= self.cell_size <= HASH_POS_LIMIT
    }

    /// An empty grid with the given cell side.
    pub fn new(cell_size: i64) -> (r: SpatialHash)
        requires
            MIN_CELL_MILLI <= cell_size <= HASH_POS_LIMIT,
        ensures
            r.wf(),
            r.cell_size == cell_size,
            r.grid@ == Map::<u64, Vec<usize>>::empty(),
    {
        SpatialHash { cell_size, grid: HashMap::new() }
    }

    /// Empties the grid; the cell side is kept.
    pub fn clear(&mut self)
        ensures
            final(self).cell_size == old(self).cell_size,
            final(self).grid@ == Map::<u64, Vec<usize>>::empty(),
    {
        self.grid = HashMap::new();
    }

    /// The packed key of the cell a position falls in.
    fn hash(&self, x: i64, y: i64) -> (r: u64)
        requires
            self.wf(),
            -HASH_POS_LIMIT <= x <= HASH_POS_LIMIT,
            -HASH_POS_LIMIT <= y <= HASH_POS_LIMIT,
        ensures
            r == spec_cell_key(self.cell_size, x, y),
    {
        let gx = floor_div(x, self.cell_size) as i32;
        let gy = floor_div(y, self.cell_size) as i32;
        pack_key(gx, gy)
    }

    /// Appends an entity index to the bin of the cell its position falls
    /// in; every other cell is untouched.
    pub fn insert(&mut self, x: i64, y: i64, index: usize)
        requires
            old(self).wf(),
            -HASH_POS_LIMIT <= x <= HASH_POS_LIMIT,
            -HASH_POS_LIMIT <= y <= HASH_POS_LIMIT,
        ensures
            final(self).wf(),
            final(self).cell_size == old(self).cell_size,
            final(self).grid@.dom() == old(self).grid@.dom().insert(
                spec_cell_key(old(self).cell_size, x, y),
            ),
            spec_cell(final(self).grid@, spec_cell_key(old(self).cell_size, x, y)) == spec_cell(
                old(self).grid@,
                spec_cell_key(old(self).cell_size, x, y),
            ).push(index),
            forall|k: u64|
                k != spec_cell_key(old(self).cell_size, x, y) ==> spec_cell(
                    final(self).grid@,
                    k,
                ) == spec_cell(#[trigger] old(self).grid@, k),
    {
        let key = self.hash(x, y);
        let mut list = match self.grid.remove(&key) {
            Some(l) => l,
            None => Vec::new(),
        };
        list.push(index);
        self.grid.insert(key, list);
        proof {
            assert(final(self).grid@.dom() =~= old(self).grid@.dom().insert(key));
            assert forall|k: u64| k != key implies spec_cell(final(self).grid@, k) == spec_cell(
                #[trigger] old(self).grid@,
                k,
            ) by {
                if old(self).grid@.dom().contains(k) {
                    assert(final(self).grid@[k] == old(self).grid@[k]);
                }
            }
        }
    }

    /// Collects every index binned in a cell the circle's bounding box
    /// touches, column by column: exactly the grid's block between the
    /// box's corner cells. The broad phase may over-approximate — the
    /// caller narrows.
    pub fn query(&self, x: i64, y: i64, radius: i64, found: &mut Vec<usize>)
        requires
            self.wf(),
            0 <= radius <= HASH_POS_LIMIT,
            -HASH_POS_LIMIT <= x - radius,
            x + radius <= HASH_POS_LIMIT,
            -HASH_POS_LIMIT <= y - radius,
            y + radius <= HASH_POS_LIMIT,
        ensures
            final(found)@ == old(found)@ + spec_block(
                self.grid@,
                (x - radius) as int / self.cell_size as int,
                (x + radius) as int / self.cell_size as int,
                (y - radius) as int / self.cell_size as int,
                (y + radius) as int / self.cell_size as int,
            ),
    {
        let min_gx = floor_div(x - radius, self.cell_size);
        let max_gx = floor_div(x + radius, self.cell_size);
        let min_gy = floor_div(y - radius, self.cell_size);
        let max_gy = floor_div(y + radius, self.cell_size);
        proof {
            vstd::arithmetic::div_mod::lemma_div_is_ordered(
                (x - radius) as int,
                (x + radius) as int,
                self.cell_size as int,
            );
            vstd::arithmetic::div_mod::lemma_div_is_ordered(
                (y - radius) as int,
                (y + radius) as int,
                self.cell_size as int,
            );
        }
        let ghost m = self.grid@;
        let mut gx: i64 = min_gx;
        while gx <= max_gx
            invariant
                self.wf(),
                m == self.grid@,
                min_gx <= gx <= max_gx + 1,
                min_gx == (x - radius) as int / self.cell_size as int,
                max_gx == (x + radius) as int / self.cell_size as int,
                min_gy == (y - radius) as int / self.cell_size as int,
                max_gy == (y + radius) as int / self.cell_size as int,
                min_gy <= max_gy,
                -0x4000_0000_0000 <= min_gy && max_gx <= 0x4000_0000_0000 && max_gy
                    <= 0x4000_0000_0000,
                found@ == old(found)@ + spec_block(
                    m,
                    min_gx as int,
                    gx - 1,
                    min_gy as int,
                    max_gy as int,
                ),
            decreases max_gx + 1 - gx,
        {
            let mut gy: i64 = min_gy;
            while gy <= max_gy
                invariant
                    self.wf(),
                    m == self.grid@,
                    min_gx <= gx <= max_gx,
                    min_gy <= gy <= max_gy + 1,
                    max_gx <= 0x4000_0000_0000 && max_gy <= 0x4000_0000_0000,
                    found@ == old(found)@ + spec_block(
                        m,
                        min_gx as int,
                        gx - 1,
                        min_gy as int,
                        max_gy as int,
                    ) + spec_column(m, gx as i32, min_gy as int, gy - 1),
                decreases max_gy + 1 - gy,
            {
                let key = pack_key(gx as i32, gy as i32);
                match self.grid.get(&key) {
                    Some(list) => {
                        let ghost pre = found@;
                        let n = list.len();
                        let mut t: usize = 0;
                        while t < n
                            invariant
                                t <= n,
                                n == list@.len(),
                                found@ == pre + list@.subrange(0, t as int),
                            decreases n - t,
                        {
                            found.push(list[t]);
                            t = t + 1;
                            assert(found@ =~= pre + list@.subrange(0, t as int));
                        }
                        proof {
                            assert(list@.subrange(0, n as int) =~= list@);
                            assert(found@ =~= pre + spec_cell(m, key));
                        }
                    },
                    None => {
                        proof {
                            assert(spec_cell(m, key) =~= Seq::<usize>::empty());
                        }
                    },
                }
                proof {
                    assert(found@ =~= old(found)@ + spec_block(
                        m,
                        min_gx as int,
                        gx - 1,
                        min_gy as int,
                        max_gy as int,
                    ) + spec_column(m, gx as i32, min_gy as int, gy as int));
                }
                gy = gy + 1;
            }
            proof {
                assert(found@ =~= old(found)@ + spec_block(
                    m,
                    min_gx as int,
                    gx as int,
                    min_gy as int,
                    max_gy as int,
                ));
            }
            gx = gx + 1;
        }
    }
}

} // verus!
