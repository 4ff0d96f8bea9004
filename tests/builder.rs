use rustquantic::builder::{add_ions, axis_bounds, find_possible_ion_locations, half_way, solvate_box, solvate_box_with};
use rustquantic::geometry::{squared_distance, Position};
use rustquantic::reference::ReferenceTable;

fn table(rows: &[(&str, u32, u32)]) -> ReferenceTable {
    let entries: Vec<(String, u32, u32)> = rows.iter().map(|(k, lo, hi)| (k.to_string(), *lo, *hi)).collect();
    ReferenceTable::from_entries(&entries).expect("valid table")
}

#[test]
fn midpoints_round_down() {
    assert_eq!(half_way(3, 4), 3);
    assert_eq!(half_way(-3, -4), -4);
    assert_eq!(half_way(-3, 4), 0);
    assert_eq!(half_way(-1, -2), -2);
    assert_eq!(half_way(i32::MAX, i32::MAX), i32::MAX);
    assert_eq!(half_way(i32::MIN, i32::MIN), i32::MIN);
}

#[test]
fn ion_sites_between_near_pairs_in_both_orders() {
    let t = table(&[("C-C", 12000, 16000)]);
    let coords = vec![Position::new(0, 0, 0), Position::new(15000, 0, 0), Position::new(90000, 0, 0)];
    let types: Vec<String> = vec!["C".into(), "C".into(), "C".into()];
    let sites = find_possible_ion_locations(&t, &coords, &types);
    assert_eq!(sites, vec![Position::new(7500, 0, 0), Position::new(7500, 0, 0)]);
}

#[test]
fn no_ion_sites_without_reference_data() {
    let t = table(&[("C-C", 12000, 16000)]);
    let coords = vec![Position::new(0, 0, 0), Position::new(15000, 0, 0)];
    let types: Vec<String> = vec!["X".into(), "Y".into()];
    assert!(find_possible_ion_locations(&t, &coords, &types).is_empty());
}

#[test]
fn bounds_per_axis() {
    let coords = vec![Position::new(5, -2, 9), Position::new(-1, 7, 9), Position::new(3, 0, 8)];
    assert_eq!(axis_bounds(&coords, 0), (-1, 5));
    assert_eq!(axis_bounds(&coords, 1), (-2, 7));
    assert_eq!(axis_bounds(&coords, 2), (8, 9));
}

#[test]
fn ions_land_inside_the_bounding_box() {
    let mut coords = vec![Position::new(0, 0, 0), Position::new(10000, 20000, 5)];
    let mut types: Vec<String> = vec!["C".into(), "O".into()];
    add_ions(&mut coords, &mut types, "Na", 50);
    assert_eq!(coords.len(), 52);
    assert_eq!(types.len(), 52);
    assert_eq!(types[0], "C");
    for k in 2..52 {
        let p = coords[k];
        assert!(0 <= p.x && p.x < 10000);
        assert!(0 <= p.y && p.y < 20000);
        assert!(0 <= p.z && p.z < 5);
        assert_eq!(types[k], "Na");
    }
}

#[test]
fn ions_of_a_single_atom_sit_on_it() {
    let mut coords = vec![Position::new(7, 8, 9)];
    let mut types: Vec<String> = vec!["C".into()];
    add_ions(&mut coords, &mut types, "Cl", 2);
    assert_eq!(coords, vec![Position::new(7, 8, 9); 3]);
    assert_eq!(types, vec!["C".to_string(), "Cl".to_string(), "Cl".to_string()]);
}

#[test]
fn solvent_keeps_its_gap() {
    let mut coords = vec![Position::new(0, 0, 0)];
    let mut types: Vec<String> = vec!["C".into()];
    solvate_box(&mut coords, &mut types, 30000);
    let added = coords.len() - 1;
    assert!(added > 0);
    assert_eq!(added % 3, 0);
    assert_eq!(types.len(), coords.len());
    for w in 0..added / 3 {
        let start = 1 + 3 * w;
        assert_eq!(types[start], "O");
        assert_eq!(types[start + 1], "H1");
        assert_eq!(types[start + 2], "H2");
        for a in 0..3 {
            for i in 0..start {
                assert!(squared_distance(&coords[i], &coords[start + a]) >= 400_000_000);
            }
        }
    }
}

#[test]
fn no_solvent_in_an_empty_box() {
    // start and end of the lattice coincide on every axis
    let mut coords = vec![Position::new(0, 0, 0)];
    let mut types: Vec<String> = vec!["C".into()];
    solvate_box(&mut coords, &mut types, 0);
    assert_eq!(coords.len(), 1);
}

#[test]
fn solvent_lattice_without_displacement() {
    let mut coords = vec![Position::new(0, 0, 0)];
    let mut types: Vec<String> = vec!["C".into()];
    solvate_box_with(&mut coords, &mut types, 30000, &vec![0; 72]);
    // eight lattice points at -3 and 0 on each axis; the one at the origin overlaps
    assert_eq!(coords.len(), 1 + 7 * 3);
    assert_eq!(coords[1], Position::new(-30000, -30000, -30000));
    assert_eq!(coords[2], Position::new(-20428, -30000, -30000));
    assert_eq!(coords[3], Position::new(-32400, -20734, -30000));
    assert_eq!(coords[19], Position::new(0, 0, -30000));
    assert_eq!(&types[1..4], &["O".to_string(), "H1".to_string(), "H2".to_string()]);
}

#[test]
fn solvent_uses_displacements_in_order() {
    let mut coords = vec![Position::new(0, 0, 0)];
    let mut types: Vec<String> = vec!["C".into()];
    let jitter: Vec<i32> = (0..9).map(|i| i as i32 * 10 - 40).collect();
    solvate_box_with(&mut coords, &mut types, 30000, &jitter);
    assert_eq!(coords[1], Position::new(-30040, -30030, -30020));
    assert_eq!(coords[2], Position::new(-20438, -30000, -29990));
    assert_eq!(coords[3], Position::new(-32380, -20704, -29960));
    assert_eq!(coords[4], Position::new(-30000, -30000, 0));
}

#[test]
fn ion_sites_ignore_extra_types() {
    let t = table(&[("C-C", 12000, 16000)]);
    let coords = vec![Position::new(0, 0, 0), Position::new(15000, 0, 0)];
    let types: Vec<String> = vec!["C".into(), "C".into(), "O".into()];
    let sites = find_possible_ion_locations(&t, &coords, &types);
    assert_eq!(sites, vec![Position::new(7500, 0, 0), Position::new(7500, 0, 0)]);
}
