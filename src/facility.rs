use crate::medication::{cheapest_kind, cheapest_price, sample_medication, MedicationType};
use crate::random::{draw_inclusive, shuffle_cells};
use crate::rank_queue::{queue_len, queue_new, queue_pop, queue_push, rank_le, rank_lt, Rank, queue_entries};
use rand::rngs::StdRng;
use vstd::prelude::*;

verus! {

/// Largest numerator of a uniform fraction in `[0, 1)`; the denominator is
/// `FRACTION_MAX + 1`, so a valuation is a dollar amount in units of that
/// denominator.
pub const FRACTION_MAX: u64 = 9007199254740991;

/// Largest whole-dollar multiplier of a valuation.
pub const MULTIPLIER_MAX: u64 = 100;

/// A central fill facility: an identifier, one valuation per medication kind,
/// and the kind it offers at the lowest valuation, which is its price.
#[derive(Clone, Copy, Debug)]
pub struct Facility {
    id: usize,
    inventory: [u64; 3],
    price: u64,
    medication_type: MedicationType,
}

impl Facility {
    pub closed spec fn spec_id(&self) -> usize {
        self.id
    }

    pub closed spec fn spec_inventory(&self) -> [u64; 3] {
        self.inventory
    }

    pub closed spec fn spec_price(&self) -> u64 {
        self.price
    }

    pub closed spec fn spec_medication_type(&self) -> MedicationType {
        self.medication_type
    }

    /// The price and kind are the smallest valuation and the kind it belongs to.
    pub open spec fn valued(&self) -> bool {
        &&& self.spec_price() == cheapest_price(self.spec_inventory())
        &&& self.spec_medication_type() == cheapest_kind(self.spec_inventory())
    }

    /// A facility with the given identifier and valuations.
    pub fn from_valuations(id: usize, inventory: [u64; 3]) -> (r: Facility)
        ensures
            r.spec_id() == id,
            r.spec_inventory() == inventory,
            r.valued(),
    {
        let (medication_type, price) = sample_medication(inventory);
        Facility { id, inventory, price, medication_type }
    }

    /// Draws one valuation: a uniform fraction of a uniform whole-dollar
    /// multiplier.
    fn draw_valuation(rng: &mut StdRng) -> (r: u64)
        ensures
            r <= FRACTION_MAX * MULTIPLIER_MAX,
    {
        let fraction = draw_inclusive(rng, 0, FRACTION_MAX);
        let multiplier = draw_inclusive(rng, 1, MULTIPLIER_MAX);
        assert(fraction * multiplier <= FRACTION_MAX * MULTIPLIER_MAX) by (nonlinear_arith)
            requires
                fraction <= FRACTION_MAX,
                multiplier <= MULTIPLIER_MAX,
        ;
        fraction * multiplier
    }

    /// A facility with the given identifier and three freshly drawn valuations.
    pub fn new(id: usize, rng: &mut StdRng) -> (r: Facility)
        ensures
            r.spec_id() == id,
            r.valued(),
            forall|i: int| 0 <= i < 3 ==> r.spec_inventory()[i] <= FRACTION_MAX * MULTIPLIER_MAX,
    {
        let a = Self::draw_valuation(rng);
        let b = Self::draw_valuation(rng);
        let c = Self::draw_valuation(rng);
        Self::from_valuations(id, [a, b, c])
    }

    pub fn id(&self) -> (r: usize)
        ensures
            r == self.spec_id(),
    {
        self.id
    }

    pub fn inventory(&self) -> (r: [u64; 3])
        ensures
            r == self.spec_inventory(),
    {
        self.inventory
    }

    pub fn price(&self) -> (r: u64)
        ensures
            r == self.spec_price(),
    {
        self.price
    }

    pub fn medication_type(&self) -> (r: MedicationType)
        ensures
            r == self.spec_medication_type(),
    {
        self.medication_type
    }
}


/// A facility found by a query, with its cell and its distance to the
/// query point.
#[derive(Clone, Copy, Debug)]
pub struct Neighbor {
    pub cell: usize,
    pub distance: usize,
    pub facility: Facility,
}

pub open spec fn abs_diff(a: int, b: int) -> int {
    if a >= b {
        a - b
    } else {
        b - a
    }
}

/// Manhattan distance from the point `(x, y)` to a cell of a grid `width`
/// cells wide: the cell lies in column `cell % width` and row `cell / width`.
pub open spec fn cell_distance(width: usize, x: usize, y: usize, cell: usize) -> int {
    abs_diff(x as int, (cell % width) as int) + abs_diff(y as int, (cell / width) as int)
}

/// The rank of a cell for a query at `(x, y)`: its distance, then its index.
pub open spec fn cell_rank(width: usize, x: usize, y: usize, cell: usize) -> Rank {
    (cell_distance(width, x, y, cell) as usize, cell)
}

/// The rank of a neighbour found by a query.
pub open spec fn neighbor_rank(nb: Neighbor) -> Rank {
    (nb.distance, nb.cell)
}

/// Some neighbour of `r` stands in `cell`.
pub open spec fn listed(r: Seq<Neighbor>, cell: usize) -> bool {
    exists|i: int| 0 <= i < r.len() && (#[trigger] r[i]).cell == cell
}

/// Why a facility map could not be built.
#[derive(Clone, Copy, Debug, PartialEq, Eq, Structural)]
pub enum GenerateError {
    /// More facilities were asked for than the grid has cells.
    CapacityExceeded,
    /// A placement names a cell outside the grid.
    CellOutOfGrid,
    /// Two placements name the same cell.
    CellTaken,
}

/// Every placement names a cell below `n`.
pub open spec fn cells_within(p: Seq<(usize, Facility)>, n: int) -> bool {
    forall|i: int| 0 <= i < p.len() ==> (#[trigger] p[i]).0 < n
}

/// No two placements name the same cell.
pub open spec fn cells_distinct(p: Seq<(usize, Facility)>) -> bool {
    forall|i: int, j: int| 0 <= i < p.len() && 0 <= j < p.len() && i != j ==> (#[trigger] p[i]).0 != (#[trigger] p[j]).0
}

/// Some placement names `cell`.
pub open spec fn occupied(p: Seq<(usize, Facility)>, cell: int) -> bool {
    exists|i: int| 0 <= i < p.len() && (#[trigger] p[i]).0 == cell
}

/// The location table of placements `p` on a grid of `n` cells: each
/// occupied cell holds its facility's identifier, every other cell 0.
pub open spec fn location_of(p: Seq<(usize, Facility)>, n: int, location: Seq<usize>) -> bool {
    &&& location.len() == n
    &&& forall|i: int| 0 <= i < p.len() ==> location[(#[trigger] p[i]).0 as int] == p[i].1.spec_id()
    &&& forall|c: int| 0 <= c < n && !occupied(p, c) ==> #[trigger] location[c] == 0
}

/// The registry of facilities on a grid of `width` by `height` cells, keyed
/// by cell index (`row * width + col`), with the location table that shows
/// each facility's identifier in its cell.
pub struct FacilityMap {
    location: Vec<usize>,
    entries: Vec<(usize, Facility)>,
    width: usize,
    height: usize,
}

impl FacilityMap {
    pub closed spec fn spec_location(&self) -> Seq<usize> {
        self.location@
    }

    pub closed spec fn spec_entries(&self) -> Seq<(usize, Facility)> {
        self.entries@
    }

    pub closed spec fn spec_width(&self) -> usize {
        self.width
    }

    pub closed spec fn spec_height(&self) -> usize {
        self.height
    }

    /// Number of cells of the grid.
    pub open spec fn cell_count(&self) -> int {
        self.spec_width() * self.spec_height()
    }

    /// The registry holds each cell at most once, every cell lies in the
    /// grid, and the location table agrees with the registry.
    pub open spec fn wf(&self) -> bool {
        &&& self.cell_count() <= usize::MAX
        &&& cells_within(self.spec_entries(), self.cell_count())
        &&& cells_distinct(self.spec_entries())
        &&& location_of(self.spec_entries(), self.cell_count(), self.spec_location())
    }

    /// Generates a map of `facility_count` facilities on a grid of `x_bound`
    /// by `y_bound` cells: the cells are the first ones of a random
    /// permutation of all cells, so no two facilities share a cell; each
    /// facility gets an identifier drawn from `1..=x_bound * y_bound`
    /// (identifiers may repeat) and freshly drawn valuations.
    pub fn new(facility_count: usize, x_bound: usize, y_bound: usize, rng: &mut StdRng) -> (r: Result<FacilityMap, GenerateError>)
        requires
            x_bound * y_bound <= usize::MAX,
        ensures
            r is Err <==> facility_count > x_bound * y_bound,
            r matches Err(e) ==> e == GenerateError::CapacityExceeded,
            r matches Ok(m) ==> {
                &&& m.wf()
                &&& m.spec_width() == x_bound
                &&& m.spec_height() == y_bound
                &&& m.spec_entries().len() == facility_count
                &&& forall|i: int| 0 <= i < facility_count ==> {
                    &&& (#[trigger] m.spec_entries()[i]).1.valued()
                    &&& 1 <= m.spec_entries()[i].1.spec_id() <= x_bound * y_bound
                }
            },
    {
        let size = x_bound * y_bound;
        if facility_count > size {
            return Err(GenerateError::CapacityExceeded);
        }
        let mut scramble: Vec<usize> = Vec::new();
        let mut c: usize = 0;
        while c < size
            invariant
                c <= size,
                scramble@ == Seq::new(c as nat, |t: int| t as usize),
            decreases size - c,
        {
            scramble.push(c);
            c = c + 1;
        }
        let ghost identity = scramble@;
        proof {
            assert(identity.no_duplicates());
            identity.lemma_multiset_has_no_duplicates();
        }
        shuffle_cells(&mut scramble, rng);
        proof {
            broadcast use vstd::seq_lib::group_to_multiset_ensures;
            assert forall|v: usize| scramble@.to_multiset().contains(v) implies scramble@.to_multiset().count(v) == 1 by {
                assert(identity.to_multiset().contains(v));
            }
            scramble@.lemma_multiset_has_no_duplicates_conv();
            assert forall|t: int| 0 <= t < scramble@.len() implies #[trigger] scramble@[t] < size by {
                let v = scramble@[t];
                assert(scramble@.contains(v));
                assert(scramble@.to_multiset().count(v) > 0);
                assert(identity.to_multiset().count(v) > 0);
                assert(identity.contains(v));
                let w = choose|w: int| 0 <= w < identity.len() && identity[w] == v;
                assert(identity[w] == w as usize);
            }
        }
        let mut placements: Vec<(usize, Facility)> = Vec::new();
        let mut count: usize = 0;
        while count < facility_count
            invariant
                facility_count <= size,
                size == x_bound * y_bound,
                scramble@.len() == size,
                scramble@.no_duplicates(),
                forall|t: int| 0 <= t < scramble@.len() ==> #[trigger] scramble@[t] < size,
                count <= facility_count,
                placements@.len() == count,
                forall|t: int| 0 <= t < count ==> {
                    &&& (#[trigger] placements@[t]).0 == scramble@[t]
                    &&& placements@[t].1.valued()
                    &&& 1 <= placements@[t].1.spec_id() <= size
                },
            decreases facility_count - count,
        {
            let id = draw_inclusive(rng, 1, size as u64) as usize;
            let facility = Facility::new(id, rng);
            placements.push((scramble[count], facility));
            count = count + 1;
        }
        assert(cells_distinct(placements@)) by {
            assert forall|i: int, j: int| 0 <= i < placements@.len() && 0 <= j < placements@.len() && i != j
                implies (#[trigger] placements@[i]).0 != (#[trigger] placements@[j]).0 by {
                assert(scramble@[i] != scramble@[j]);
            }
        }
        assert(cells_within(placements@, size as int));
        Self::from_placement(x_bound, y_bound, placements)
    }

    /// Number of facilities in the registry.
    pub fn size(&self) -> (r: usize)
        ensures
            r == self.spec_entries().len(),
    {
        self.entries.len()
    }

    pub fn width(&self) -> (r: usize)
        ensures
            r == self.spec_width(),
    {
        self.width
    }

    pub fn height(&self) -> (r: usize)
        ensures
            r == self.spec_height(),
    {
        self.height
    }

    /// The location table, for display: one identifier per cell, 0 where no
    /// facility stands.
    pub fn snapshot(&self) -> (r: &Vec<usize>)
        ensures
            r@ == self.spec_location(),
    {
        &self.location
    }

    /// Every facility with its cell, in no particular order.
    pub fn entries(&self) -> (r: &Vec<(usize, Facility)>)
        ensures
            r@ == self.spec_entries(),
    {
        &self.entries
    }

    /// The facility in `cell`, if any.
    pub fn get(&self, cell: usize) -> (r: Option<Facility>)
        requires
            self.wf(),
        ensures
            r is None <==> !occupied(self.spec_entries(), cell as int),
            r matches Some(f) ==> exists|i: int| 0 <= i < self.spec_entries().len()
                && (#[trigger] self.spec_entries()[i]).0 == cell && self.spec_entries()[i].1 == f,
    {
        let n = self.entries.len();
        let mut i: usize = 0;
        while i < n
            invariant
                n == self.spec_entries().len(),
                i <= n,
                forall|t: int| 0 <= t < i ==> (#[trigger] self.spec_entries()[t]).0 != cell,
            decreases n - i,
        {
            if self.entries[i].0 == cell {
                return Some(self.entries[i].1);
            }
            i = i + 1;
        }
        None
    }

    /// The rank of the facility at position `t` of the registry.
    pub open spec fn entry_rank(&self, x: usize, y: usize, t: int) -> Rank {
        cell_rank(self.spec_width(), x, y, self.spec_entries()[t].0)
    }

    /// `r` answers a query for the `k` facilities nearest to `(x, y)`: it
    /// holds `min(k, size)` facilities of the registry, each with its cell and
    /// distance, in increasing order of distance and then of cell index, and
    /// every facility left out ranks after all of them.
    pub open spec fn answers_query(&self, k: int, x: usize, y: usize, r: Seq<Neighbor>) -> bool {
        let es = self.spec_entries();
        &&& r.len() == (if k < es.len() { k } else { es.len() as int })
        &&& forall|i: int| 0 <= i < r.len() ==> exists|j: int|
            0 <= j < es.len() && (#[trigger] es[j]).0 == (#[trigger] r[i]).cell && es[j].1 == r[i].facility
        &&& forall|i: int| 0 <= i < r.len() ==> (#[trigger] r[i]).distance == cell_distance(self.spec_width(), x, y, r[i].cell)
        &&& forall|i: int, j: int| 0 <= i < j < r.len() ==> rank_lt(neighbor_rank(#[trigger] r[i]), neighbor_rank(#[trigger] r[j]))
        &&& forall|j: int| 0 <= j < es.len() ==> listed(r, (#[trigger] es[j]).0)
            || forall|i: int| 0 <= i < r.len() ==> rank_lt(neighbor_rank(#[trigger] r[i]), cell_rank(self.spec_width(), x, y, es[j].0))
    }

    /// Distinct positions of a well-formed registry have distinct ranks.
    proof fn lemma_ranks_distinct(&self, x: usize, y: usize, a: int, b: int)
        requires
            self.wf(),
            0 <= a < self.spec_entries().len(),
            0 <= b < self.spec_entries().len(),
            a != b,
        ensures
            self.entry_rank(x, y, a) != self.entry_rank(x, y, b),
    {
        assert(self.spec_entries()[a].0 != self.spec_entries()[b].0);
    }

    /// Manhattan distance from `(x, y)` to `cell`.
    fn distance_to(&self, x: usize, y: usize, cell: usize) -> (d: usize)
        requires
            self.wf(),
            x < self.spec_width(),
            y < self.spec_height(),
            cell < self.cell_count(),
        ensures
            d == cell_distance(self.spec_width(), x, y, cell),
    {
        let w = self.width;
        let h = self.height;
        let col = cell % w;
        let row = cell / w;
        proof {
            vstd::arithmetic::div_mod::lemma_fundamental_div_mod(cell as int, w as int);
            assert(row < h) by (nonlinear_arith)
                requires
                    w * row + col == cell,
                    0 <= col,
                    cell < w * h,
                    w > 0,
            ;
            assert(w + h <= w * h + 1) by (nonlinear_arith)
                requires
                    w >= 1,
                    h >= 1,
            ;
        }
        let dx = if x >= col { x - col } else { col - x };
        let dy = if y >= row { y - row } else { row - y };
        dx + dy
    }

    /// The `k` facilities nearest to `(x, y)`, nearest first; facilities at
    /// equal distance come in increasing order of cell index. A bounded
    /// priority queue keeps the `k` best seen so far, evicting the worst
    /// whenever it holds more.
    pub fn knn(&self, k: usize, x: usize, y: usize) -> (r: Vec<Neighbor>)
        requires
            self.wf(),
            x < self.spec_width(),
            y < self.spec_height(),
        ensures
            self.answers_query(k as int, x, y, r@),
    {
        let n = self.entries.len();
        let ghost es = self.spec_entries();
        let mut pq = queue_new();
        let mut j: usize = 0;
        while j < n
            invariant
                self.wf(),
                x < self.spec_width(),
                y < self.spec_height(),
                es == self.spec_entries(),
                n == es.len(),
                j <= n,
                queue_entries(pq).dom().finite(),
                queue_entries(pq).len() == (if j < k { j as int } else { k as int }),
                forall|t: usize| #[trigger] queue_entries(pq).contains_key(t) ==> t < j && queue_entries(pq)[t]
                    == self.entry_rank(x, y, t as int) && queue_entries(pq)[t].0 as int == cell_distance(
                    self.spec_width(),
                    x,
                    y,
                    es[t as int].0,
                ),
                forall|t: usize| t < j && j <= k ==> #[trigger] queue_entries(pq).contains_key(t),
                forall|a: usize, b: usize| a < j && !queue_entries(pq).contains_key(a) && #[trigger] queue_entries(pq).contains_key(b)
                    ==> rank_lt(queue_entries(pq)[b], #[trigger] self.entry_rank(x, y, a as int)),
            decreases n - j,
        {
            let cell = self.entries[j].0;
            let d = self.distance_to(x, y, cell);
            let ghost q0 = queue_entries(pq);
            queue_push(&mut pq, j, (d, cell));
            let ghost q1 = queue_entries(pq);
            assert(!q0.contains_key(j));
            assert(q1.dom() == q0.dom().insert(j));
            if queue_len(&pq) > k {
                let popped = queue_pop(&mut pq);
                let ghost q2 = queue_entries(pq);
                proof {
                    let (m, _) = popped->0;
                    assert(q2.dom() == q1.dom().remove(m));
                    assert forall|a: usize, b: usize| a < j + 1 && !q2.contains_key(a) && #[trigger] q2.contains_key(b)
                        implies rank_lt(q2[b], #[trigger] self.entry_rank(x, y, a as int)) by {
                        assert(q1.contains_key(b) && b != m);
                        self.lemma_ranks_distinct(x, y, b as int, m as int);
                        if a == m {
                            assert(rank_le(q1[b], q1[m]));
                        } else if m == j {
                            assert(q0.contains_key(b));
                            assert(!q0.contains_key(a));
                        } else {
                            assert(q1.contains_key(j));
                            assert(a != j);
                            assert(!q0.contains_key(a));
                            assert(q0.contains_key(m));
                            assert(rank_lt(q0[m], self.entry_rank(x, y, a as int)));
                            assert(rank_le(q1[b], q1[m]));
                        }
                    }
                }
            } else {
                proof {
                    assert forall|a: usize, b: usize| a < j + 1 && !q1.contains_key(a) && #[trigger] q1.contains_key(b)
                        implies rank_lt(q1[b], #[trigger] self.entry_rank(x, y, a as int)) by {
                        assert(j < k);
                        assert(a != j);
                        assert(q0.contains_key(a));
                    }
                }
            }
            j = j + 1;
        }
        let ghost chosen = queue_entries(pq).dom();
        let mut desc: Vec<Neighbor> = Vec::new();
        let ghost mut idx: Seq<usize> = Seq::empty();
        while queue_len(&pq) > 0
            invariant
                self.wf(),
                x < self.spec_width(),
                y < self.spec_height(),
                es == self.spec_entries(),
                n == es.len(),
                chosen.finite(),
                chosen.len() == (if n < k { n as int } else { k as int }),
                forall|t: usize| #[trigger] chosen.contains(t) ==> t < n,
                forall|a: usize, b: usize| a < n && !chosen.contains(a) && #[trigger] chosen.contains(b)
                    ==> rank_lt(self.entry_rank(x, y, b as int), #[trigger] self.entry_rank(x, y, a as int)),
                queue_entries(pq).dom().finite(),
                queue_entries(pq).dom().subset_of(chosen),
                forall|t: usize| #[trigger] queue_entries(pq).contains_key(t) ==> queue_entries(pq)[t]
                    == self.entry_rank(x, y, t as int) && queue_entries(pq)[t].0 as int == cell_distance(
                    self.spec_width(),
                    x,
                    y,
                    es[t as int].0,
                ),
                desc@.len() == idx.len(),
                queue_entries(pq).len() + idx.len() == chosen.len(),
                forall|i: int| 0 <= i < idx.len() ==> {
                    &&& chosen.contains(#[trigger] idx[i])
                    &&& !queue_entries(pq).contains_key(idx[i])
                    &&& desc@[i].cell == es[idx[i] as int].0
                    &&& desc@[i].facility == es[idx[i] as int].1
                    &&& desc@[i].distance as int == cell_distance(self.spec_width(), x, y, es[idx[i] as int].0)
                    &&& neighbor_rank(desc@[i]) == self.entry_rank(x, y, idx[i] as int)
                },
                forall|t: usize| #[trigger] chosen.contains(t) ==> queue_entries(pq).contains_key(t)
                    || exists|i: int| 0 <= i < idx.len() && idx[i] == t,
                forall|i1: int, i2: int| 0 <= i1 < i2 < idx.len() ==> rank_lt(
                    self.entry_rank(x, y, #[trigger] idx[i2] as int),
                    self.entry_rank(x, y, #[trigger] idx[i1] as int),
                ),
                forall|i: int, t: usize| 0 <= i < idx.len() && #[trigger] queue_entries(pq).contains_key(t) ==> rank_lt(
                    self.entry_rank(x, y, t as int),
                    self.entry_rank(x, y, #[trigger] idx[i] as int),
                ),
            decreases queue_entries(pq).len(),
        {
            let ghost q0 = queue_entries(pq);
            let popped = queue_pop(&mut pq);
            if let Some((t, rank)) = popped {
                let ghost q1 = queue_entries(pq);
                assert(q1.dom() == q0.dom().remove(t));
                let (cell, facility) = self.entries[t];
                desc.push(Neighbor { cell, distance: rank.0, facility });
                proof {
                    let old_idx = idx;
                    idx = idx.push(t);
                    assert forall|i: int| 0 <= i < idx.len() implies {
                        &&& chosen.contains(#[trigger] idx[i])
                        &&& !q1.contains_key(idx[i])
                        &&& desc@[i].cell == es[idx[i] as int].0
                        &&& desc@[i].facility == es[idx[i] as int].1
                        &&& desc@[i].distance as int == cell_distance(self.spec_width(), x, y, es[idx[i] as int].0)
                        &&& neighbor_rank(desc@[i]) == self.entry_rank(x, y, idx[i] as int)
                    } by {
                        if i < old_idx.len() {
                            assert(idx[i] == old_idx[i]);
                        } else {
                            assert(idx[i] == t);
                        }
                    }
                    assert forall|i: int, u: usize| 0 <= i < idx.len() && #[trigger] q1.contains_key(u) implies rank_lt(
                        self.entry_rank(x, y, u as int),
                        self.entry_rank(x, y, #[trigger] idx[i] as int),
                    ) by {
                        if i == old_idx.len() {
                            self.lemma_ranks_distinct(x, y, u as int, t as int);
                            assert(rank_le(q0[u], q0[t]));
                        } else {
                            assert(idx[i] == old_idx[i]);
                        }
                    }
                    assert forall|i1: int, i2: int| 0 <= i1 < i2 < idx.len() implies rank_lt(
                        self.entry_rank(x, y, #[trigger] idx[i2] as int),
                        self.entry_rank(x, y, #[trigger] idx[i1] as int),
                    ) by {
                        if i2 == old_idx.len() {
                            assert(q0.contains_key(t));
                            assert(idx[i1] == old_idx[i1]);
                        } else {
                            assert(idx[i1] == old_idx[i1]);
                            assert(idx[i2] == old_idx[i2]);
                        }
                    }
                    assert forall|u: usize| #[trigger] chosen.contains(u) implies q1.contains_key(u)
                        || exists|i: int| 0 <= i < idx.len() && idx[i] == u by {
                        if u == t {
                            assert(idx[old_idx.len() as int] == u);
                        } else if !q0.contains_key(u) {
                            let i = choose|i: int| 0 <= i < old_idx.len() && old_idx[i] == u;
                            assert(idx[i] == u);
                        }
                    }
                }
            }
        }
        let m = desc.len();
        let mut r: Vec<Neighbor> = Vec::new();
        let mut i: usize = 0;
        while i < m
            invariant
                m == desc@.len(),
                i <= m,
                r@.len() == i,
                forall|t: int| 0 <= t < i ==> r@[t] == desc@[m - 1 - t],
            decreases m - i,
        {
            r.push(desc[m - 1 - i]);
            i = i + 1;
        }
        proof {
            assert(queue_entries(pq).dom().len() == 0);
            assert forall|a: int| 0 <= a < r@.len() implies exists|b: int|
                0 <= b < es.len() && (#[trigger] es[b]).0 == (#[trigger] r@[a]).cell && es[b].1 == r@[a].facility by {
                let b = idx[m - 1 - a] as int;
                assert(chosen.contains(idx[m - 1 - a]));
                assert(es[b].0 == r@[a].cell);
            }
            assert forall|a: int| 0 <= a < r@.len() implies (#[trigger] r@[a]).distance == cell_distance(self.spec_width(), x, y, r@[a].cell) by {
                assert(chosen.contains(idx[m - 1 - a]));
            }
            assert forall|a: int, b: int| 0 <= a < b < r@.len() implies rank_lt(neighbor_rank(#[trigger] r@[a]), neighbor_rank(#[trigger] r@[b])) by {
                assert(chosen.contains(idx[m - 1 - a]));
                assert(chosen.contains(idx[m - 1 - b]));
                assert(rank_lt(self.entry_rank(x, y, idx[m - 1 - a] as int), self.entry_rank(x, y, idx[m - 1 - b] as int)));
            }
            assert forall|b: int| 0 <= b < es.len() implies listed(r@, (#[trigger] es[b]).0)
                || forall|a: int| 0 <= a < r@.len() ==> rank_lt(neighbor_rank(#[trigger] r@[a]), cell_rank(self.spec_width(), x, y, es[b].0)) by {
                let bu = b as usize;
                if chosen.contains(bu) {
                    let i = choose|i: int| 0 <= i < idx.len() && idx[i] == bu;
                    assert(r@[m - 1 - i] == desc@[i]);
                    assert(r@[m - 1 - i].cell == es[b].0);
                } else {
                    assert forall|a: int| 0 <= a < r@.len() implies rank_lt(neighbor_rank(#[trigger] r@[a]), cell_rank(self.spec_width(), x, y, es[b].0)) by {
                        let ii = m - 1 - a;
                        assert(r@[a] == desc@[ii]);
                        assert(chosen.contains(idx[ii]));
                        assert(neighbor_rank(desc@[ii]) == self.entry_rank(x, y, idx[ii] as int));
                        assert(rank_lt(self.entry_rank(x, y, idx[ii] as int), self.entry_rank(x, y, bu as int)));
                    }
                }
            }
        }
        r
    }

    /// Builds the map from given placements, each a cell index and the
    /// facility placed there.
    pub fn from_placement(width: usize, height: usize, placements: Vec<(usize, Facility)>) -> (r: Result<FacilityMap, GenerateError>)
        requires
            width * height <= usize::MAX,
        ensures
            (r matches Err(GenerateError::CapacityExceeded)) <==> placements@.len() > width * height,
            (r matches Err(GenerateError::CellOutOfGrid)) <==> placements@.len() <= width * height
                && !cells_within(placements@, width * height),
            (r matches Err(GenerateError::CellTaken)) <==> placements@.len() <= width * height
                && cells_within(placements@, width * height) && !cells_distinct(placements@),
            r matches Ok(m) ==> {
                &&& m.wf()
                &&& m.spec_width() == width
                &&& m.spec_height() == height
                &&& m.spec_entries() == placements@
            },
    {
        let size = width * height;
        let n = placements.len();
        if n > size {
            return Err(GenerateError::CapacityExceeded);
        }
        let mut i: usize = 0;
        while i < n
            invariant
                n == placements@.len(),
                n <= size,
                size == width * height,
                i <= n,
                cells_within(placements@.take(i as int), size as int),
            decreases n - i,
        {
            if placements[i].0 >= size {
                return Err(GenerateError::CellOutOfGrid);
            }
            i = i + 1;
        }
        assert(placements@.take(n as int) == placements@);
        let mut location: Vec<usize> = Vec::new();
        let mut taken: Vec<bool> = Vec::new();
        let mut c: usize = 0;
        while c < size
            invariant
                n == placements@.len(),
                n <= size,
                size == width * height,
                cells_within(placements@, size as int),
                c <= size,
                location@.len() == c,
                taken@.len() == c,
                forall|d: int| 0 <= d < c ==> location@[d] == 0 && !taken@[d],
            decreases size - c,
        {
            location.push(0);
            taken.push(false);
            c = c + 1;
        }
        let mut j: usize = 0;
        while j < n
            invariant
                n == placements@.len(),
                n <= size,
                size == width * height,
                j <= n,
                cells_within(placements@, size as int),
                location@.len() == size,
                taken@.len() == size,
                cells_distinct(placements@.take(j as int)),
                forall|d: int| 0 <= d < size ==> (#[trigger] taken@[d] <==> occupied(placements@.take(j as int), d)),
                location_of(placements@.take(j as int), size as int, location@),
            decreases n - j,
        {
            let cell = placements[j].0;
            let id = placements[j].1.id;
            let ghost before = placements@.take(j as int);
            let ghost after = placements@.take(j + 1);
            assert(after == before.push(placements@[j as int]));
            if taken[cell] {
                let ghost w = choose|t: int| 0 <= t < before.len() && (#[trigger] before[t]).0 == cell;
                assert(placements@[w].0 == placements@[j as int].0);
                return Err(GenerateError::CellTaken);
            }
            taken.set(cell, true);
            location.set(cell, id);
            assert forall|d: int| 0 <= d < size implies (#[trigger] taken@[d] <==> occupied(after, d)) by {
                if d == cell {
                    assert(after[j as int].0 == cell);
                } else if occupied(after, d) {
                    let t = choose|t: int| 0 <= t < after.len() && (#[trigger] after[t]).0 == d;
                    assert(before[t].0 == d);
                }
            }
            assert forall|t: int| 0 <= t < after.len() implies location@[(#[trigger] after[t]).0 as int] == after[t].1.spec_id() by {
                if t < j {
                    assert(occupied(before, cell as int) == false);
                    assert(after[t] == before[t]);
                }
            }
            assert forall|d: int| 0 <= d < size && !occupied(after, d) implies #[trigger] location@[d] == 0 by {
                assert(after[j as int].0 == cell);
                if occupied(before, d) {
                    let t = choose|t: int| 0 <= t < before.len() && (#[trigger] before[t]).0 == d;
                    assert(after[t].0 == d);
                }
            }
            j = j + 1;
        }
        assert(placements@.take(n as int) == placements@);
        Ok(FacilityMap { location, entries: placements, width, height })
    }
}

} // verus!
