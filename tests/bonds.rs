use rustquantic::bonds::{classify_pair, determine_bonds, PairClass};
use rustquantic::error::CoreError;
use rustquantic::geometry::{squared_distance, Position};
use rustquantic::reference::{split_key, ReferenceTable};
use rustquantic::structure::PdbFilePy;

fn table(rows: &[(&str, u32, u32)]) -> ReferenceTable {
    let entries: Vec<(String, u32, u32)> = rows.iter().map(|(k, lo, hi)| (k.to_string(), *lo, *hi)).collect();
    ReferenceTable::from_entries(&entries).expect("valid table")
}

fn types(names: &[&str]) -> Vec<String> {
    names.iter().map(|s| s.to_string()).collect()
}

#[test]
fn carbon_pair_inside_range_is_confirmed() {
    let t = table(&[("C-C", 12000, 16000)]);
    let pos = vec![Position::new(0, 0, 0), Position::new(15000, 0, 0)];
    let r = determine_bonds(&t, &pos, &types(&["C", "C"]));
    assert_eq!(r.confirmed, vec![(0, 1)]);
    assert!(r.near.is_empty());
    assert!(r.missing.is_empty());
}

#[test]
fn unknown_types_are_missing_once() {
    let t = table(&[("C-C", 12000, 16000)]);
    let pos = vec![Position::new(0, 0, 0), Position::new(15000, 0, 0)];
    let r = determine_bonds(&t, &pos, &types(&["X", "Y"]));
    assert!(r.confirmed.is_empty());
    assert!(r.near.is_empty());
    assert_eq!(r.missing, vec![("X".to_string(), "Y".to_string())]);
}

#[test]
fn missing_type_pair_is_deduplicated_in_both_orders() {
    let t = table(&[("C-C", 12000, 16000)]);
    let pos = vec![Position::new(0, 0, 0), Position::new(100000, 0, 0), Position::new(0, 100000, 0)];
    let r = determine_bonds(&t, &pos, &types(&["X", "Y", "X"]));
    assert_eq!(r.missing, vec![("X".to_string(), "Y".to_string()), ("X".to_string(), "X".to_string())]);
}

#[test]
fn nitrogen_pair_near_average_is_near() {
    // average (1.85 + 1.95) / 2 = 1.9; distance 2.0 lies outside the range, 0.1 from it
    let t = table(&[("N-N", 18500, 19500)]);
    let pos = vec![Position::new(0, 0, 0), Position::new(0, 20000, 0)];
    let r = determine_bonds(&t, &pos, &types(&["N", "N"]));
    assert!(r.confirmed.is_empty());
    assert_eq!(r.near, vec![(0, 1)]);
    assert!(r.missing.is_empty());
}

#[test]
fn nitrogen_pair_inside_range_is_confirmed_not_near() {
    let t = table(&[("N-N", 18000, 20000)]);
    let pos = vec![Position::new(0, 0, 0), Position::new(0, 20000, 0)];
    let r = determine_bonds(&t, &pos, &types(&["N", "N"]));
    assert_eq!(r.confirmed, vec![(0, 1)]);
    assert!(r.near.is_empty());
}

#[test]
fn far_pair_with_reference_data_is_dropped() {
    let t = table(&[("C-C", 12000, 16000)]);
    let pos = vec![Position::new(0, 0, 0), Position::new(50000, 0, 0)];
    let r = determine_bonds(&t, &pos, &types(&["C", "C"]));
    assert!(r.confirmed.is_empty());
    assert!(r.near.is_empty());
    assert!(r.missing.is_empty());
}

#[test]
fn tolerance_boundary_is_inclusive() {
    // average 1.4; 1.6 is exactly 0.2 away, 1.6001 is not
    let t = table(&[("C-C", 13000, 15000)]);
    let a = Position::new(0, 0, 0);
    let c = types(&["C", "C"]);
    assert_eq!(classify_pair(&t, &a, &Position::new(16000, 0, 0), &c[0], &c[1]), PairClass::Near);
    assert_eq!(classify_pair(&t, &a, &Position::new(16001, 0, 0), &c[0], &c[1]), PairClass::Unmatched);
    assert_eq!(classify_pair(&t, &a, &Position::new(12000, 0, 0), &c[0], &c[1]), PairClass::Near);
    assert_eq!(classify_pair(&t, &a, &Position::new(11999, 0, 0), &c[0], &c[1]), PairClass::Unmatched);
    assert_eq!(classify_pair(&t, &a, &Position::new(15000, 0, 0), &c[0], &c[1]), PairClass::Confirmed);
}

#[test]
fn lookup_works_in_either_order() {
    let t = table(&[("C-O", 11000, 15000)]);
    let c = "C".to_string();
    let o = "O".to_string();
    assert_eq!(t.lookup_range(&c, &o), Some((11000, 15000)));
    assert_eq!(t.lookup_range(&o, &c), Some((11000, 15000)));
    assert_eq!(t.lookup_average_twice(&o, &c), Some(26000));
    assert_eq!(t.lookup_range(&c, &c), None);
    let a = Position::new(0, 0, 0);
    let b = Position::new(0, 0, 12000);
    assert_eq!(classify_pair(&t, &a, &b, &c, &o), classify_pair(&t, &a, &b, &o, &c));
    assert_eq!(classify_pair(&t, &a, &b, &c, &o), PairClass::Confirmed);
}

#[test]
fn confirmed_and_near_never_share_a_pair() {
    let t = table(&[("C-C", 12000, 16000), ("C-O", 11000, 13000)]);
    let pos = vec![
        Position::new(0, 0, 0),
        Position::new(15000, 0, 0),
        Position::new(0, 14000, 0),
        Position::new(30000, 0, 0),
    ];
    let r = determine_bonds(&t, &pos, &types(&["C", "C", "O", "C"]));
    assert_eq!(r.confirmed, vec![(0, 1), (1, 3)]);
    assert_eq!(r.near, vec![(0, 2)]);
    for p in &r.confirmed {
        assert!(!r.near.contains(p));
    }
}

#[test]
fn fewer_than_two_atoms_give_nothing() {
    let t = table(&[("C-C", 12000, 16000)]);
    let r = determine_bonds(&t, &vec![Position::new(1, 2, 3)], &types(&["C"]));
    assert!(r.confirmed.is_empty() && r.near.is_empty() && r.missing.is_empty());
    let r = determine_bonds(&t, &vec![], &vec![]);
    assert!(r.confirmed.is_empty() && r.near.is_empty() && r.missing.is_empty());
}

#[test]
fn squared_distance_is_exact() {
    let a = Position::new(-3, 4, 10);
    let b = Position::new(0, 0, 10);
    assert_eq!(squared_distance(&a, &b), 25);
    let far = squared_distance(&Position::new(i32::MIN, i32::MIN, i32::MIN), &Position::new(i32::MAX, i32::MAX, i32::MAX));
    assert_eq!(far, 3 * (u32::MAX as u128) * (u32::MAX as u128));
}

#[test]
fn keys_split_at_first_dash() {
    assert_eq!(split_key("Na-Cl"), Some(("Na".to_string(), "Cl".to_string())));
    assert_eq!(split_key("C-"), None);
    assert_eq!(split_key("-C"), None);
    assert_eq!(split_key("CC"), None);
    assert_eq!(split_key("A-B-C"), Some(("A".to_string(), "B-C".to_string())));
}

#[test]
fn table_rejects_bad_keys_and_duplicate_pairs() {
    let bad = vec![("CC".to_string(), 1, 2)];
    assert_eq!(ReferenceTable::from_entries(&bad).err(), Some(CoreError::ReferenceDataUnavailable));
    let dup = vec![("C-O".to_string(), 1, 2), ("O-C".to_string(), 3, 4)];
    assert_eq!(ReferenceTable::from_entries(&dup).err(), Some(CoreError::ReferenceDataUnavailable));
    let ok = vec![("C-O".to_string(), 1, 2), ("C-C".to_string(), 3, 4)];
    assert!(ReferenceTable::from_entries(&ok).is_ok());
}

#[test]
fn structure_classifies_its_own_atoms() {
    let t = table(&[("C-C", 12000, 16000)]);
    let mut s = PdbFilePy::new(
        vec![Position::new(0, 0, 0), Position::new(15000, 0, 0)],
        types(&["C", "C"]),
        vec![],
    );
    let r = s.determine_bonds(&t);
    assert_eq!(r.confirmed, vec![(0, 1)]);
    s.set_bonds(r.confirmed.clone());
    assert_eq!(s.bonds, vec![(0, 1)]);
    assert_eq!(s.atom_types, types(&["C", "C"]));
}
