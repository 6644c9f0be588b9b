use central_fill::facility::{FRACTION_MAX, MULTIPLIER_MAX};
use central_fill::medication::{medication_from_index, random_medication};
use central_fill::{
    sample_medication, Facility, FacilityMap, GenerateError, MedicationType, Neighbor,
};
use rand::rngs::StdRng;
use rand::SeedableRng;

fn facility(id: usize) -> Facility {
    Facility::from_valuations(id, [1, 2, 3])
}

fn map_of(width: usize, height: usize, cells: &[usize]) -> FacilityMap {
    let placements: Vec<(usize, Facility)> =
        cells.iter().enumerate().map(|(i, c)| (*c, facility(i + 1))).collect();
    FacilityMap::from_placement(width, height, placements).unwrap()
}

fn manhattan(width: usize, x: usize, y: usize, cell: usize) -> usize {
    x.abs_diff(cell % width) + y.abs_diff(cell / width)
}

fn assert_ranked(r: &[Neighbor]) {
    for w in r.windows(2) {
        assert!((w[0].distance, w[0].cell) < (w[1].distance, w[1].cell));
    }
}

#[test]
fn ties_go_to_the_earlier_kind() {
    assert_eq!((MedicationType::A, 5), sample_medication([5, 5, 9]));
    assert_eq!((MedicationType::B, 3), sample_medication([7, 3, 3]));
    assert_eq!((MedicationType::C, 1), sample_medication([7, 3, 1]));
    assert_eq!((MedicationType::A, 4), sample_medication([4, 4, 4]));
}

#[test]
fn price_is_the_smallest_valuation() {
    let f = Facility::from_valuations(12, [50, 20, 30]);
    assert_eq!(12, f.id());
    assert_eq!([50, 20, 30], f.inventory());
    assert_eq!(20, f.price());
    assert_eq!(MedicationType::B, f.medication_type());
}

#[test]
fn drawn_facilities_are_priced_by_their_cheapest_kind() {
    let mut rng = StdRng::seed_from_u64(11);
    for id in 1..50 {
        let f = Facility::new(id, &mut rng);
        let inv = f.inventory();
        assert_eq!(id, f.id());
        assert_eq!(*inv.iter().min().unwrap(), f.price());
        assert!(inv.iter().all(|v| *v <= FRACTION_MAX * MULTIPLIER_MAX));
        assert_eq!((f.medication_type(), f.price()), sample_medication(inv));
    }
}

#[test]
fn medication_index_order() {
    assert_eq!(MedicationType::A, medication_from_index(0));
    assert_eq!(MedicationType::B, medication_from_index(1));
    assert_eq!(MedicationType::C, medication_from_index(2));
    let mut rng = StdRng::seed_from_u64(3);
    let drawn: Vec<MedicationType> = (0..60).map(|_| random_medication(&mut rng)).collect();
    assert!(drawn.contains(&MedicationType::A));
    assert!(drawn.contains(&MedicationType::B));
    assert!(drawn.contains(&MedicationType::C));
}

#[test]
fn generated_map_has_one_facility_per_occupied_cell() {
    for seed in 0..20 {
        let mut rng = StdRng::seed_from_u64(seed);
        let m = FacilityMap::new(25, 7, 5, &mut rng).unwrap();
        assert_eq!(25, m.size());
        assert_eq!((7, 5), (m.width(), m.height()));
        let mut cells: Vec<usize> = m.entries().iter().map(|e| e.0).collect();
        cells.sort();
        cells.dedup();
        assert_eq!(25, cells.len());
        assert!(cells.iter().all(|c| *c < 35));
        let table = m.snapshot();
        assert_eq!(35, table.len());
        for (cell, f) in m.entries() {
            assert_eq!(f.id(), table[*cell]);
            assert!(1 <= f.id() && f.id() <= 35);
            assert_eq!(Some(f.id()), m.get(*cell).map(|g| g.id()));
        }
        assert_eq!(10, table.iter().filter(|v| **v == 0).count());
    }
}

#[test]
fn generated_cells_are_shuffled() {
    let mut seen_other_order = false;
    for seed in 0..20 {
        let mut rng = StdRng::seed_from_u64(seed);
        let m = FacilityMap::new(5, 10, 10, &mut rng).unwrap();
        let cells: Vec<usize> = m.entries().iter().map(|e| e.0).collect();
        if cells != vec![0, 1, 2, 3, 4] {
            seen_other_order = true;
        }
    }
    assert!(seen_other_order);
}

#[test]
fn a_full_grid_occupies_every_cell() {
    let mut rng = StdRng::seed_from_u64(5);
    let m = FacilityMap::new(9, 3, 3, &mut rng).unwrap();
    let mut cells: Vec<usize> = m.entries().iter().map(|e| e.0).collect();
    cells.sort();
    assert_eq!((0..9).collect::<Vec<usize>>(), cells);
    assert!(m.snapshot().iter().all(|v| *v != 0));
}

#[test]
fn an_empty_map_is_allowed() {
    let mut rng = StdRng::seed_from_u64(5);
    let m = FacilityMap::new(0, 3, 3, &mut rng).unwrap();
    assert_eq!(0, m.size());
    assert!(m.knn(3, 1, 1).is_empty());
    let e = FacilityMap::new(0, 0, 0, &mut rng).unwrap();
    assert_eq!(0, e.snapshot().len());
}

#[test]
fn too_many_facilities_exceed_capacity() {
    let mut rng = StdRng::seed_from_u64(1);
    assert_eq!(Some(GenerateError::CapacityExceeded), FacilityMap::new(10, 3, 3, &mut rng).err());
    assert_eq!(Some(GenerateError::CapacityExceeded), FacilityMap::new(1, 0, 4, &mut rng).err());
}

#[test]
fn placement_errors() {
    let too_many = vec![(0, facility(1)), (1, facility(2)), (2, facility(3))];
    assert_eq!(
        Some(GenerateError::CapacityExceeded),
        FacilityMap::from_placement(1, 2, too_many).err()
    );
    let outside = vec![(0, facility(1)), (4, facility(2))];
    assert_eq!(Some(GenerateError::CellOutOfGrid), FacilityMap::from_placement(2, 2, outside).err());
    let twice = vec![(1, facility(1)), (1, facility(2))];
    assert_eq!(Some(GenerateError::CellTaken), FacilityMap::from_placement(2, 2, twice).err());
}

#[test]
fn nearest_of_two_facilities() {
    let m = map_of(3, 3, &[0, 4]);
    let r = m.knn(1, 1, 1);
    assert_eq!(1, r.len());
    assert_eq!(4, r[0].cell);
    assert_eq!(0, r[0].distance);
    assert_eq!(2, r[0].facility.id());
    let both = m.knn(2, 1, 1);
    assert_eq!(vec![(4, 0), (0, 2)], both.iter().map(|n| (n.cell, n.distance)).collect::<Vec<_>>());
}

#[test]
fn zero_neighbours_is_empty() {
    let mut rng = StdRng::seed_from_u64(9);
    let m = FacilityMap::new(12, 5, 5, &mut rng).unwrap();
    for x in 0..5 {
        for y in 0..5 {
            assert!(m.knn(0, x, y).is_empty());
        }
    }
}

#[test]
fn a_large_k_lists_every_facility_once() {
    let mut rng = StdRng::seed_from_u64(21);
    let m = FacilityMap::new(15, 6, 4, &mut rng).unwrap();
    let r = m.knn(100, 2, 3);
    assert_eq!(15, r.len());
    assert_ranked(&r);
    let mut cells: Vec<usize> = r.iter().map(|n| n.cell).collect();
    cells.sort();
    let mut expected: Vec<usize> = m.entries().iter().map(|e| e.0).collect();
    expected.sort();
    assert_eq!(expected, cells);
    for n in &r {
        assert_eq!(manhattan(6, 2, 3, n.cell), n.distance);
    }
}

#[test]
fn knn_returns_the_k_nearest_in_order() {
    for seed in 0..10 {
        let mut rng = StdRng::seed_from_u64(seed);
        let m = FacilityMap::new(20, 8, 6, &mut rng).unwrap();
        let mut all: Vec<(usize, usize)> =
            m.entries().iter().map(|e| (manhattan(8, 5, 2, e.0), e.0)).collect();
        all.sort();
        for k in 0..25 {
            let r = m.knn(k, 5, 2);
            assert_eq!(k.min(20), r.len());
            assert_ranked(&r);
            let got: Vec<(usize, usize)> = r.iter().map(|n| (n.distance, n.cell)).collect();
            assert_eq!(all[..k.min(20)].to_vec(), got);
            for n in &r {
                assert_eq!(m.get(n.cell).map(|f| f.id()), Some(n.facility.id()));
            }
        }
    }
}

#[test]
fn equal_distances_are_ordered_by_cell() {
    let m = map_of(3, 3, &[7, 1, 3, 5]);
    let r = m.knn(4, 1, 1);
    assert_eq!(vec![1, 3, 5, 7], r.iter().map(|n| n.cell).collect::<Vec<_>>());
    assert!(r.iter().all(|n| n.distance == 1));
}

#[test]
fn get_finds_only_occupied_cells() {
    let m = map_of(3, 3, &[0, 4]);
    assert_eq!(Some(1), m.get(0).map(|f| f.id()));
    assert_eq!(Some(2), m.get(4).map(|f| f.id()));
    assert!(m.get(5).is_none());
    assert_eq!(&vec![1, 0, 0, 0, 2, 0, 0, 0, 0], m.snapshot());
}
