use rustquantic::error::CoreError;
use rustquantic::geometry::Position;
use rustquantic::pdb::{parse_atom_line, parse_conect_line, parse_pdb_lines};
use rustquantic::text::{find_char, parse_digits, parse_fixed, parse_index, split_tokens, trim_str};

fn atom(kind: &str, serial: usize, x: f64, y: f64, z: f64, element: &str) -> String {
    let head = format!("{:<6}{:>5}  C   MOL A   1", kind, serial);
    format!("{:<30}{:>8.3}{:>8.3}{:>8.3}{:<22}{:>2}", head, x, y, z, "  1.00  0.00", element)
}

#[test]
fn reads_atoms_and_connections() {
    let lines = vec![
        "HEADER    TEST".to_string(),
        atom("ATOM", 1, 1.5, -2.25, 0.0, "C"),
        atom("HETATM", 2, 10.125, 0.5, -3.0, "Na"),
        atom("ATOM", 3, 0.0, 0.0, 1.0, "O"),
        "CONECT    1    2    3".to_string(),
        "CONECT    3    1".to_string(),
        "END".to_string(),
    ];
    let s = parse_pdb_lines(&lines).expect("well-formed file");
    assert_eq!(
        s.coords,
        vec![Position::new(15000, -22500, 0), Position::new(101250, 5000, -30000), Position::new(0, 0, 10000)]
    );
    assert_eq!(s.atom_types, vec!["C".to_string(), "Na".to_string(), "O".to_string()]);
    assert_eq!(s.bonds, vec![(0, 1), (0, 2), (2, 0)]);
}

#[test]
fn malformed_records_reject_the_file() {
    let short = vec!["ATOM      1  C".to_string()];
    assert_eq!(parse_pdb_lines(&short).err(), Some(CoreError::MalformedInput));
    let zero = vec!["CONECT    0    1".to_string()];
    assert_eq!(parse_pdb_lines(&zero).err(), Some(CoreError::MalformedInput));
    let lonely = vec!["CONECT".to_string()];
    assert_eq!(parse_pdb_lines(&lonely).err(), Some(CoreError::MalformedInput));
    let mut bad = atom("ATOM", 1, 1.0, 2.0, 3.0, "C");
    bad.replace_range(30..38, "   abcde");
    assert_eq!(parse_pdb_lines(&vec![bad]).err(), Some(CoreError::MalformedInput));
}

#[test]
fn other_lines_are_skipped() {
    let s = parse_pdb_lines(&vec!["REMARK nothing".to_string(), String::new()]).unwrap();
    assert!(s.coords.is_empty() && s.atom_types.is_empty() && s.bonds.is_empty());
}

#[test]
fn atom_and_connect_lines() {
    let (p, t) = parse_atom_line(&atom("ATOM", 7, -0.001, 2.0, 3.5, "Cl")).unwrap();
    assert_eq!(p, Position::new(-10, 20000, 35000));
    assert_eq!(t, "Cl");
    assert_eq!(parse_conect_line("CONECT 4 5 6 7"), Some(vec![(3, 4), (3, 5), (3, 6)]));
    assert_eq!(parse_conect_line("CONECT 4"), Some(vec![]));
    assert_eq!(parse_conect_line("CONECT 4 x"), None);
}

#[test]
fn fixed_point_decimals() {
    assert_eq!(parse_fixed("  -12.345"), Some(-123450));
    assert_eq!(parse_fixed("1.5"), Some(15000));
    assert_eq!(parse_fixed("5."), Some(50000));
    assert_eq!(parse_fixed(".5"), Some(5000));
    assert_eq!(parse_fixed("7"), Some(70000));
    assert_eq!(parse_fixed("1.23456"), Some(12346));
    assert_eq!(parse_fixed("+1.500"), Some(15000));
    assert_eq!(parse_fixed("1e2"), Some(1_000_000));
    assert_eq!(parse_fixed("1.5E-3"), Some(15));
    assert_eq!(parse_fixed("-2.5e+1"), Some(-250000));
    assert_eq!(parse_fixed("0.00005"), Some(1));
    assert_eq!(parse_fixed("0.000049999"), Some(0));
    assert_eq!(parse_fixed("-0.00005"), Some(-1));
    assert_eq!(parse_fixed("0e999999999999999999999999999999999999"), Some(0));
    assert_eq!(parse_fixed("7e-999999999999999999999999999999999999"), Some(0));
    assert_eq!(parse_fixed("7e999999999999999999999999999999999999"), None);
    assert_eq!(parse_fixed("1e"), None);
    assert_eq!(parse_fixed("e5"), None);
    assert_eq!(parse_fixed("+-1"), None);
    assert_eq!(parse_fixed("\u{c}1.0\u{a0}"), Some(10000));
    assert_eq!(parse_fixed("abc"), None);
    assert_eq!(parse_fixed(""), None);
    assert_eq!(parse_fixed("."), None);
    assert_eq!(parse_fixed("-"), None);
    assert_eq!(parse_fixed("1.2.3"), None);
    assert_eq!(parse_fixed("214748.3647"), Some(i32::MAX));
    assert_eq!(parse_fixed("214748.3648"), None);
    assert_eq!(parse_fixed("-214748.3648"), Some(i32::MIN));
    assert_eq!(parse_fixed("99999999999999999999"), None);
}

#[test]
fn text_helpers() {
    assert_eq!(trim_str(" \t ab c \r\n"), "ab c");
    assert_eq!(trim_str("   "), "");
    assert_eq!(split_tokens("  a bb\tc "), vec!["a".to_string(), "bb".to_string(), "c".to_string()]);
    assert!(split_tokens("   ").is_empty());
    assert_eq!(parse_index("1"), Some(0));
    assert_eq!(parse_index("42"), Some(41));
    assert_eq!(parse_index("0"), None);
    assert_eq!(parse_index("+3"), Some(2));
    assert_eq!(parse_index("281474976710657"), Some(281474976710656));
    assert_eq!(parse_index(&(usize::MAX as u128 + 1).to_string()), Some(usize::MAX));
    assert_eq!(parse_index(&(usize::MAX as u128 + 2).to_string()), None);
    assert_eq!(split_tokens("a\u{3000}b\u{b}c"), vec!["a".to_string(), "b".to_string(), "c".to_string()]);
    assert_eq!(parse_index(""), None);
    assert_eq!(parse_digits("0123"), Some(123));
    assert_eq!(parse_digits("99999999999999999999"), Some(99999999999999999999));
    assert_eq!(parse_digits("12a"), None);
    assert_eq!(find_char("ab.c.", '.'), Some(2));
    assert_eq!(find_char("abc", '.'), None);
}

#[test]
fn signs_exponents_and_long_fractions_in_records() {
    let mut line = atom("ATOM", 1, 0.0, 0.0, 0.0, "C");
    line.replace_range(30..38, "  +1.500");
    line.replace_range(38..46, "   1.5e1");
    line.replace_range(46..54, "1.234567");
    let s = parse_pdb_lines(&vec![line, "CONECT +1 +1".to_string()]).unwrap();
    assert_eq!(s.coords, vec![Position::new(15000, 150000, 12346)]);
    assert_eq!(s.bonds, vec![(0, 0)]);
}

#[test]
fn large_serials_round_trip() {
    let big = 1usize << 50;
    let line = format!("CONECT {:>5} {:>5}", big + 1, 2);
    assert_eq!(parse_pdb_lines(&vec![line]).unwrap().bonds, vec![(big, 1)]);
}
