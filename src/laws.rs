use crate::facility::{cells_distinct, listed, neighbor_rank, Facility, FacilityMap, Neighbor};
use crate::rank_queue::rank_lt;
use vstd::prelude::*;
use vstd::set_lib::lemma_len_subset;

verus! {

/// The cell indices of a registry, in registry order.
pub open spec fn occupied_cells(m: FacilityMap) -> Seq<usize> {
    m.spec_entries().map_values(|e: (usize, Facility)| e.0)
}

/// The cell indices of the facilities a query returned, in order.
pub open spec fn result_cells(r: Seq<Neighbor>) -> Seq<usize> {
    r.map_values(|nb: Neighbor| nb.cell)
}

/// In a well-formed registry no cell is occupied twice: the set of occupied
/// cells has as many elements as the registry has facilities.
pub proof fn lemma_occupied_cells_unique(m: FacilityMap)
    requires
        m.wf(),
    ensures
        occupied_cells(m).no_duplicates(),
        occupied_cells(m).to_set().len() == m.spec_entries().len(),
{
    let cells = occupied_cells(m);
    assert(cells_distinct(m.spec_entries()));
    assert forall|i: int, j: int| 0 <= i < cells.len() && 0 <= j < cells.len() && i != j implies cells[i] != cells[j] by {
        assert(m.spec_entries()[i].0 != m.spec_entries()[j].0);
    }
    cells.unique_seq_to_set();
}

/// A query for zero facilities returns nothing.
pub proof fn lemma_query_zero_is_empty(m: FacilityMap, x: usize, y: usize, r: Seq<Neighbor>)
    requires
        m.answers_query(0, x, y, r),
    ensures
        r.len() == 0,
{
}

/// A query returns facilities in non-decreasing order of distance, and
/// `min(k, size)` of them.
pub proof fn lemma_query_sorted_by_distance(m: FacilityMap, k: int, x: usize, y: usize, r: Seq<Neighbor>)
    requires
        0 <= k,
        m.answers_query(k, x, y, r),
    ensures
        r.len() == (if k < m.spec_entries().len() { k } else { m.spec_entries().len() as int }),
        forall|i: int, j: int| 0 <= i <= j < r.len() ==> (#[trigger] r[i]).distance <= (#[trigger] r[j]).distance,
{
    assert forall|i: int, j: int| 0 <= i <= j < r.len() implies (#[trigger] r[i]).distance <= (#[trigger] r[j]).distance by {
        if i < j {
            assert(rank_lt(neighbor_rank(r[i]), neighbor_rank(r[j])));
        }
    }
}

/// A query for at least as many facilities as the registry holds returns
/// every facility exactly once, in non-decreasing order of distance.
pub proof fn lemma_query_all_lists_every_facility(m: FacilityMap, k: int, x: usize, y: usize, r: Seq<Neighbor>)
    requires
        m.wf(),
        k >= m.spec_entries().len(),
        m.answers_query(k, x, y, r),
    ensures
        r.len() == m.spec_entries().len(),
        result_cells(r).no_duplicates(),
        forall|j: int| 0 <= j < m.spec_entries().len() ==> listed(r, (#[trigger] m.spec_entries()[j]).0),
        forall|i: int, j: int| 0 <= i <= j < r.len() ==> (#[trigger] r[i]).distance <= (#[trigger] r[j]).distance,
{
    let es = m.spec_entries();
    let rc = result_cells(r);
    let ec = occupied_cells(m);
    lemma_query_sorted_by_distance(m, k, x, y, r);
    assert forall|i: int, j: int| 0 <= i < rc.len() && 0 <= j < rc.len() && i != j implies rc[i] != rc[j] by {
        if i < j {
            assert(rank_lt(neighbor_rank(r[i]), neighbor_rank(r[j])));
        } else {
            assert(rank_lt(neighbor_rank(r[j]), neighbor_rank(r[i])));
        }
    }
    assert forall|j: int| 0 <= j < es.len() implies listed(r, (#[trigger] es[j]).0) by {
        if !listed(r, es[j].0) {
            let missing = es[j].0;
            rc.unique_seq_to_set();
            ec.lemma_cardinality_of_set();
            let rest = ec.to_set().remove(missing);
            assert forall|c: usize| rc.to_set().contains(c) implies rest.contains(c) by {
                let i = choose|i: int| 0 <= i < rc.len() && rc[i] == c;
                assert(r[i].cell == c);
                let t = choose|t: int| 0 <= t < es.len() && (#[trigger] es[t]).0 == r[i].cell && es[t].1 == r[i].facility;
                assert(ec[t] == c);
                assert(ec.contains(c));
                assert(c != missing);
            }
            assert(ec.contains(missing)) by {
                assert(ec[j] == missing);
            }
            lemma_len_subset(rc.to_set(), rest);
        }
    }
}

} // verus!
