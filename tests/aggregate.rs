use asc_hex::aggregate::{coarse_cells, coarse_value, group_by_ancestor, FineMap, Group};
use asc_hex::cells::{is_cell, parent_cell, COARSE_RES, FINE_RES};
use asc_hex::grid::GridError;
use h3o::{CellIndex, Resolution};

const FINE: u64 = 0x8a1fb46622dffff;

fn fine_children_of(coarse: u64) -> Vec<u64> {
    CellIndex::try_from(coarse)
        .unwrap()
        .children(Resolution::Ten)
        .map(u64::from)
        .collect()
}

fn sorted(mut v: Vec<u64>) -> Vec<u64> {
    v.sort();
    v
}

#[test]
fn parent_matches_h3o() {
    assert!(is_cell(FINE));
    assert_eq!(parent_cell(FINE, 5), Some(0x851fb467fffffff));
    let expected = u64::from(CellIndex::try_from(FINE).unwrap().parent(Resolution::Eight).unwrap());
    assert_eq!(parent_cell(FINE, COARSE_RES), Some(expected));
    assert_eq!(expected, 0x881fb46623fffff);
    assert_eq!(parent_cell(FINE, FINE_RES), Some(FINE));
    assert_eq!(parent_cell(FINE, 11), None);
    assert_eq!(parent_cell(0, 8), None);
    assert!(!is_cell(0));
}

#[test]
fn later_write_wins() {
    let mut map = FineMap::new();
    map.insert_cells(&vec![1, 2, 3], 10);
    map.insert_cells(&vec![3, 4], 11);
    assert_eq!(map.len(), 4);
    assert_eq!(map.get(1), Some(10));
    assert_eq!(map.get(3), Some(11));
    assert_eq!(map.get(4), Some(11));
    assert_eq!(map.get(5), None);
    assert_eq!(map.keys, vec![1, 2, 3, 4]);
}

#[test]
fn single_footprint_rolls_up_to_one_cell() {
    let coarse = parent_cell(FINE, COARSE_RES).unwrap();
    let children = fine_children_of(coarse);
    assert_eq!(children.len(), 49);
    let covered: Vec<u64> = children[..3].to_vec();
    let mut map = FineMap::new();
    map.insert_cells(&covered, 0);
    let groups = group_by_ancestor(&map).unwrap();
    assert_eq!(groups.len(), 1);
    assert_eq!(groups[0].cell, coarse);
    assert_eq!(groups[0].children, 49);
    assert_eq!(sorted(groups[0].members.clone()), sorted(covered));
    // value 100 over 3 of 49 fine cells: 300 / 49, truncated
    assert_eq!(coarse_value(100 * 3, groups[0].children), Ok(6));
}

fn group_sets(groups: &[Group]) -> Vec<(u64, Vec<u64>, u64)> {
    let mut v: Vec<(u64, Vec<u64>, u64)> = groups
        .iter()
        .map(|g| (g.cell, sorted(g.members.clone()), g.children))
        .collect();
    v.sort();
    v
}

#[test]
fn grouping_ignores_key_order() {
    let a = parent_cell(FINE, COARSE_RES).unwrap();
    let b = u64::from(
        CellIndex::try_from(FINE)
            .unwrap()
            .parent(Resolution::Seven)
            .unwrap()
            .children(Resolution::Eight)
            .map(u64::from)
            .find(|c| *c != a)
            .unwrap(),
    );
    let mut cells: Vec<u64> = fine_children_of(a)[..5].to_vec();
    cells.extend(fine_children_of(b)[..4].iter().copied());

    let mut forward = FineMap::new();
    forward.insert_cells(&cells, 1);
    let mut backward = FineMap::new();
    let reversed: Vec<u64> = cells.iter().rev().copied().collect();
    backward.insert_cells(&reversed, 1);

    let g1 = group_by_ancestor(&forward).unwrap();
    let g2 = group_by_ancestor(&backward).unwrap();
    assert_eq!(g1.len(), 2);
    assert_eq!(group_sets(&g1), group_sets(&g2));
    let keys: Vec<u64> = group_sets(&g1).iter().map(|g| g.0).collect();
    assert_eq!(keys, sorted(vec![a, b]));
}

#[test]
fn empty_map_gives_no_groups() {
    let map = FineMap::new();
    assert_eq!(group_by_ancestor(&map).unwrap().len(), 0);
}

#[test]
fn invalid_or_coarse_cells_fail() {
    let mut map = FineMap::new();
    map.insert_cells(&vec![FINE, 0], 0);
    assert_eq!(group_by_ancestor(&map).err(), Some(GridError::Tessellation));

    let coarse7 = u64::from(CellIndex::try_from(FINE).unwrap().parent(Resolution::Seven).unwrap());
    let mut map = FineMap::new();
    map.insert_cells(&vec![coarse7], 0);
    assert_eq!(group_by_ancestor(&map).err(), Some(GridError::Tessellation));
}

#[test]
fn pentagon_has_fewer_children() {
    let pent8 = CellIndex::base_cells()
        .find(|c| c.is_pentagon())
        .unwrap()
        .center_child(Resolution::Eight)
        .unwrap();
    let fine: Vec<u64> = pent8.children(Resolution::Ten).map(u64::from).take(2).collect();
    let mut map = FineMap::new();
    map.insert_cells(&fine, 0);
    let groups = group_by_ancestor(&map).unwrap();
    assert_eq!(groups.len(), 1);
    assert_eq!(groups[0].cell, u64::from(pent8));
    assert_eq!(groups[0].children, 41);
}

#[test]
fn coarse_value_narrowing() {
    assert_eq!(coarse_value(65535 * 49, 49), Ok(65535));
    assert_eq!(coarse_value(65536 * 49, 49), Err(GridError::Narrowing));
    assert_eq!(coarse_value(48, 49), Ok(0));
    assert_eq!(coarse_value(10, 0), Err(GridError::Tessellation));
}

#[test]
fn coarse_cells_all_or_nothing() {
    let groups = vec![
        Group { cell: 7, members: vec![1], children: 49 },
        Group { cell: 8, members: vec![2], children: 41 },
    ];
    assert_eq!(
        coarse_cells(&groups, &vec![490, 100]),
        Ok(vec![(7, 10), (8, 2)])
    );
    assert_eq!(
        coarse_cells(&groups, &vec![490, 41 * 70000]),
        Err(GridError::Narrowing)
    );
    let broken = vec![
        Group { cell: 7, members: vec![1], children: 0 },
        Group { cell: 8, members: vec![2], children: 41 },
    ];
    assert_eq!(
        coarse_cells(&broken, &vec![1, 41 * 70000]),
        Err(GridError::Tessellation)
    );
    assert_eq!(coarse_cells(&Vec::new(), &Vec::new()), Ok(Vec::new()));
}
