//! The shared occupancy set: the set of every grid cell claimed by any pipe.
//! It is the single source of truth for collision checks, and it only ever
//! grows within one generation cycle.

use vstd::prelude::*;

use vstd::set_lib::lemma_len_subset;

use crate::util::{in_bounds_spec, volume, Coordinate};

verus! {

/// A set of occupied grid cells. Its view is the set of coordinates it
/// holds; the backing vector holds each coordinate at most once.
pub struct OccupiedNodes {
    items: Vec<Coordinate>,
}

impl View for OccupiedNodes {
    type V = Set<Coordinate>;

    closed spec fn view(&self) -> Set<Coordinate> {
        self.items@.to_set()
    }
}

impl OccupiedNodes {
    /// The backing vector holds no coordinate twice, so its length is the
    /// cardinality of the set.
    pub closed spec fn wf(self) -> bool {
        self.items@.no_duplicates()
    }

    /// An empty occupancy set.
    pub fn new() -> (r: Self)
        ensures
            r@ == Set::<Coordinate>::empty(),
            r.wf(),
    {
        let r = OccupiedNodes { items: Vec::new() };
        proof {
            assert(r.items@.to_set() =~= Set::<Coordinate>::empty());
        }
        r
    }

    /// Number of occupied cells.
    pub fn len(&self) -> (n: usize)
        requires
            self.wf(),
        ensures
            n == self@.len(),
    {
        proof {
            self.items@.unique_seq_to_set();
        }
        self.items.len()
    }

    /// The set of occupied cells is always finite.
    pub proof fn lemma_view_finite(&self)
        ensures
            self@.finite(),
    {
        broadcast use vstd::seq_lib::seq_to_set_is_finite;

        assert(self.items@.to_set().finite());
    }

    /// Whether `coord` is occupied.
    pub fn contains(&self, coord: Coordinate) -> (r: bool)
        ensures
            r == self@.contains(coord),
    {
        let mut k: usize = 0;
        while k < self.items.len()
            invariant
                k <= self.items@.len(),
                forall|i: int| 0 <= i < k ==> self.items@[i] != coord,
            decreases self.items@.len() - k,
        {
            let c = self.items[k];
            if c.0 == coord.0 && c.1 == coord.1 && c.2 == coord.2 {
                proof {
                    assert(self.items@[k as int] == coord);
                    assert(self.items@.contains(coord));
                }
                return true;
            }
            k = k + 1;
        }
        proof {
            assert(!self.items@.contains(coord));
        }
        false
    }

    /// Marks `coord` occupied; the set never shrinks.
    pub fn insert(&mut self, coord: Coordinate)
        ensures
            final(self)@ == old(self)@.insert(coord),
            old(self).wf() ==> final(self).wf(),
            old(self)@.subset_of(final(self)@),
    {
        let already = self.contains(coord);
        if !already {
            let ghost before = self.items@;
            self.items.push(coord);
            proof {
                assert(self.items@.to_set() =~= before.to_set().insert(coord)) by {
                    assert forall|x: Coordinate| self.items@.contains(x) implies
                        before.to_set().insert(coord).contains(x) by {
                        let i = choose|i: int| 0 <= i < self.items@.len() && self.items@[i] == x;
                        if i < before.len() {
                            assert(before[i] == x);
                        }
                    }
                    assert forall|x: Coordinate| before.to_set().insert(coord).contains(x) implies
                        self.items@.contains(x) by {
                        if x == coord {
                            assert(self.items@[before.len() as int] == coord);
                        } else {
                            let i = choose|i: int| 0 <= i < before.len() && before[i] == x;
                            assert(self.items@[i] == x);
                        }
                    }
                }
                assert(old(self).wf() ==> self.wf()) by {
                    if before.no_duplicates() {
                        assert forall|i: int, j: int|
                            0 <= i < self.items@.len() && 0 <= j < self.items@.len() && i != j
                            implies self.items@[i] != self.items@[j] by {
                            if i < before.len() && j < before.len() {
                                assert(before[i] != before[j]);
                            } else if j == before.len() {
                                assert(before[i] != coord);
                            } else {
                                assert(before[j] != coord);
                            }
                        }
                    }
                }
            }
        } else {
            proof {
                assert(self.items@.to_set() =~= self.items@.to_set().insert(coord));
            }
        }
    }
}

/// Occupancy is monotonic: an occupancy set that contains another is at
/// least as large, so the occupied count never decreases as cells are
/// reserved within one generation cycle.
pub proof fn lemma_occupancy_monotonic(before: &OccupiedNodes, after: &OccupiedNodes)
    requires
        before@.subset_of(after@),
    ensures
        before@.len() <= after@.len(),
{
    before.lemma_view_finite();
    after.lemma_view_finite();
    lemma_len_subset(before@, after@);
}

/// All cells of the bounded box.
pub open spec fn box_set(bounds: Coordinate) -> Set<Coordinate> {
    Set::new(|c: Coordinate| in_bounds_spec(c, bounds))
}

/// Cells of one grid line: first two components fixed, third below `k`.
spec fn line_prefix(x: i32, y: i32, k: int) -> Set<Coordinate> {
    Set::new(|c: Coordinate| c.0 == x && c.1 == y && 0 <= c.2 < k)
}

/// Cells of one grid plane: first component fixed, second below `k`,
/// third within the z bound.
spec fn plane_prefix(bounds: Coordinate, x: i32, k: int) -> Set<Coordinate> {
    Set::new(|c: Coordinate| c.0 == x && 0 <= c.1 < k && 0 <= c.2 < bounds.2)
}

/// Cells of the box whose first component lies below `k`.
spec fn box_prefix(bounds: Coordinate, k: int) -> Set<Coordinate> {
    Set::new(|c: Coordinate| 0 <= c.0 < k && 0 <= c.1 < bounds.1 && 0 <= c.2 < bounds.2)
}

proof fn lemma_line_prefix_len(x: i32, y: i32, k: int)
    requires
        0 <= k <= i32::MAX,
    ensures
        line_prefix(x, y, k).finite(),
        line_prefix(x, y, k).len() == k,
    decreases k,
{
    if k == 0 {
        assert(line_prefix(x, y, 0) =~= Set::<Coordinate>::empty());
    } else {
        lemma_line_prefix_len(x, y, k - 1);
        let last = (x, y, ((k - 1) as i32));
        assert(line_prefix(x, y, k) =~= line_prefix(x, y, k - 1).insert(last));
        assert(!line_prefix(x, y, k - 1).contains(last));
    }
}

proof fn lemma_plane_prefix_len(bounds: Coordinate, x: i32, k: int)
    requires
        0 <= k <= i32::MAX,
        0 <= bounds.2,
    ensures
        plane_prefix(bounds, x, k).finite(),
        plane_prefix(bounds, x, k).len() == k * bounds.2,
    decreases k,
{
    if k == 0 {
        assert(plane_prefix(bounds, x, 0) =~= Set::<Coordinate>::empty());
        assert(0 * bounds.2 == 0) by (nonlinear_arith);
    } else {
        lemma_plane_prefix_len(bounds, x, k - 1);
        let row = line_prefix(x, ((k - 1) as i32), bounds.2 as int);
        lemma_line_prefix_len(x, ((k - 1) as i32), bounds.2 as int);
        assert(plane_prefix(bounds, x, k) =~= plane_prefix(bounds, x, k - 1).union(row));
        assert(plane_prefix(bounds, x, k - 1).disjoint(row));
        vstd::set_lib::lemma_set_disjoint_lens(plane_prefix(bounds, x, k - 1), row);
        assert((k - 1) * bounds.2 + bounds.2 == k * bounds.2) by (nonlinear_arith);
    }
}

proof fn lemma_box_prefix_len(bounds: Coordinate, k: int)
    requires
        0 <= k <= i32::MAX,
        0 <= bounds.1,
        0 <= bounds.2,
    ensures
        box_prefix(bounds, k).finite(),
        box_prefix(bounds, k).len() == k * bounds.1 * bounds.2,
    decreases k,
{
    if k == 0 {
        assert(box_prefix(bounds, 0) =~= Set::<Coordinate>::empty());
        assert(0 * bounds.1 * bounds.2 == 0) by (nonlinear_arith);
    } else {
        lemma_box_prefix_len(bounds, k - 1);
        let slab = plane_prefix(bounds, ((k - 1) as i32), bounds.1 as int);
        lemma_plane_prefix_len(bounds, ((k - 1) as i32), bounds.1 as int);
        assert(box_prefix(bounds, k) =~= box_prefix(bounds, k - 1).union(slab));
        assert(box_prefix(bounds, k - 1).disjoint(slab));
        vstd::set_lib::lemma_set_disjoint_lens(box_prefix(bounds, k - 1), slab);
        assert((k - 1) * bounds.1 * bounds.2 + bounds.1 * bounds.2 == k * bounds.1 * bounds.2)
            by (nonlinear_arith);
    }
}

/// The bounded box holds exactly `volume(bounds)` cells.
pub proof fn lemma_box_volume(bounds: Coordinate)
    requires
        0 <= bounds.0,
        0 <= bounds.1,
        0 <= bounds.2,
    ensures
        box_set(bounds).finite(),
        box_set(bounds).len() == volume(bounds),
{
    lemma_box_prefix_len(bounds, bounds.0 as int);
    assert(box_set(bounds) =~= box_prefix(bounds, bounds.0 as int));
}

/// A set of cells that all lie in the bounded box cannot hold more cells
/// than the box has.
pub proof fn lemma_occupancy_bounded(s: Set<Coordinate>, bounds: Coordinate)
    requires
        s.finite(),
        0 <= bounds.0,
        0 <= bounds.1,
        0 <= bounds.2,
        forall|c: Coordinate| s.contains(c) ==> in_bounds_spec(c, bounds),
    ensures
        s.len() <= volume(bounds),
{
    lemma_box_volume(bounds);
    assert(s.subset_of(box_set(bounds)));
    lemma_len_subset(s, box_set(bounds));
}

} // verus!
