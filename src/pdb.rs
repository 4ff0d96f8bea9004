//! The structure-file grammar: `ATOM` / `HETATM` records give positions and element
//! types, `CONECT` records give bonds; every other line is skipped.
use vstd::prelude::*;

use crate::error::CoreError;
use crate::geometry::Position;
use crate::structure::PdbFilePy;
use crate::text::{fixed_of, index_of, parse_fixed, parse_index, split_tokens, tokens, trim, trim_str};

verus! {

pub open spec fn starts_with(s: Seq<char>, p: Seq<char>) -> bool {
    p.len() <= s.len() && s.subrange(0, p.len() as int) == p
}

pub open spec fn is_atom_record(l: Seq<char>) -> bool {
    starts_with(l, "ATOM"@) || starts_with(l, "HETATM"@)
}

pub open spec fn is_conect_record(l: Seq<char>) -> bool {
    starts_with(l, "CONECT"@)
}

/// The position (columns 31-54, three fields of eight) and element symbol (columns
/// 77-78) of an atom record.
pub open spec fn atom_of_line(l: Seq<char>) -> Option<(Position, Seq<char>)> {
    if l.len() < 78 {
        None
    } else {
        match (
            fixed_of(trim(l.subrange(30, 38))),
            fixed_of(trim(l.subrange(38, 46))),
            fixed_of(trim(l.subrange(46, 54))),
        ) {
            (Some(x), Some(y), Some(z)) => Some((Position { x, y, z }, trim(l.subrange(76, 78)))),
            _ => None,
        }
    }
}

/// The bonds of a connect record: from the atom of its second token to the atom of
/// each later token.
pub open spec fn bonds_of_line(l: Seq<char>) -> Option<Seq<(usize, usize)>> {
    let t = tokens(l);
    if t.len() < 2 || index_of(t[1]) is None || exists|k: int| 2 <= k < t.len() && (#[trigger] index_of(t[k])) is None {
        None
    } else {
        Some(Seq::new((t.len() - 2) as nat, |k: int| (index_of(t[1])->0, index_of(t[k + 2])->0)))
    }
}

/// Positions, element symbols and bonds read from `ls`, line by line; `None` if an atom
/// or connect record is malformed.
pub open spec fn parse_records(ls: Seq<Seq<char>>) -> Option<(Seq<Position>, Seq<Seq<char>>, Seq<(usize, usize)>)>
    decreases ls.len(),
{
    if ls.len() == 0 {
        Some((Seq::empty(), Seq::empty(), Seq::empty()))
    } else {
        match parse_records(ls.drop_last()) {
            None => None,
            Some(rec) => {
                let l = ls.last();
                if is_atom_record(l) {
                    match atom_of_line(l) {
                        Some(a) => Some((rec.0.push(a.0), rec.1.push(a.1), rec.2)),
                        None => None,
                    }
                } else if is_conect_record(l) {
                    match bonds_of_line(l) {
                        Some(b) => Some((rec.0, rec.1, rec.2 + b)),
                        None => None,
                    }
                } else {
                    Some(rec)
                }
            },
        }
    }
}

pub open spec fn line_views(lines: Seq<String>) -> Seq<Seq<char>> {
    lines.map_values(|l: String| l@)
}

/// `p` holds the records `rec`.
pub open spec fn holds_records(p: PdbFilePy, rec: (Seq<Position>, Seq<Seq<char>>, Seq<(usize, usize)>)) -> bool {
    &&& p.coords@ == rec.0
    &&& p.atom_types@.len() == rec.1.len()
    &&& forall|k: int| 0 <= k < rec.1.len() ==> (#[trigger] p.atom_types@[k])@ == rec.1[k]
    &&& p.bonds@ == rec.2
}

fn has_prefix(s: &str, p: &str) -> (r: bool)
    ensures
        r == starts_with(s@, p@),
{
    let n = s.unicode_len();
    let m = p.unicode_len();
    if m > n {
        return false;
    }
    let head = String::from_str(s.substring_char(0, m));
    head == String::from_str(p)
}

/// Reads the position and element symbol of an atom record.
pub fn parse_atom_line(l: &str) -> (r: Option<(Position, String)>)
    ensures
        match r {
            Some(a) => atom_of_line(l@) == Some((a.0, a.1@)),
            None => atom_of_line(l@) is None,
        },
{
    if l.unicode_len() < 78 {
        return None;
    }
    let x = parse_fixed(l.substring_char(30, 38));
    let y = parse_fixed(l.substring_char(38, 46));
    let z = parse_fixed(l.substring_char(46, 54));
    match (x, y, z) {
        (Some(x), Some(y), Some(z)) => {
            let ty = String::from_str(trim_str(l.substring_char(76, 78)));
            Some((Position { x, y, z }, ty))
        },
        _ => None,
    }
}

/// Reads the bonds of a connect record.
pub fn parse_conect_line(l: &str) -> (r: Option<Vec<(usize, usize)>>)
    ensures
        match r {
            Some(b) => bonds_of_line(l@) == Some(b@),
            None => bonds_of_line(l@) is None,
        },
{
    let t = split_tokens(l);
    let ghost tv = tokens(l@);
    if t.len() < 2 {
        return None;
    }
    let from = match parse_index(t[1].as_str()) {
        Some(f) => f,
        None => {
            return None;
        },
    };
    let mut out: Vec<(usize, usize)> = Vec::new();
    let mut k: usize = 2;
    while k < t.len()
        invariant
            tv == tokens(l@),
            t@.len() == tv.len(),
            forall|j: int| 0 <= j < t@.len() ==> (#[trigger] t@[j])@ == tv[j],
            2 <= k <= t@.len(),
            index_of(tv[1]) == Some(from),
            out@.len() == k - 2,
            forall|j: int| 2 <= j < k ==> (#[trigger] index_of(tv[j])) is Some,
            forall|j: int| 0 <= j < out@.len() ==> #[trigger] out@[j] == (from, index_of(tv[j + 2])->0),
        decreases t@.len() - k,
    {
        match parse_index(t[k].as_str()) {
            Some(to) => {
                out.push((from, to));
            },
            None => {
                assert(index_of(tv[k as int]) is None);
                return None;
            },
        }
        k = k + 1;
    }
    assert(out@ =~= Seq::new((tv.len() - 2) as nat, |j: int| (index_of(tv[1])->0, index_of(tv[j + 2])->0)));
    Some(out)
}

/// Reads a structure from the lines of a structure file. Atom records add a position
/// and an element symbol; connect records add bonds; other lines are skipped. A
/// malformed atom or connect record makes the whole file `MalformedInput`.
pub fn parse_pdb_lines(lines: &Vec<String>) -> (r: Result<PdbFilePy, CoreError>)
    ensures
        match parse_records(line_views(lines@)) {
            Some(rec) => r is Ok && holds_records(r->Ok_0, rec),
            None => r == Err::<PdbFilePy, CoreError>(CoreError::MalformedInput),
        },
{
    let ghost views = line_views(lines@);
    let mut coords: Vec<Position> = Vec::new();
    let mut atom_types: Vec<String> = Vec::new();
    let mut bonds: Vec<(usize, usize)> = Vec::new();
    let mut i: usize = 0;
    assert(views.subrange(0, 0).len() == 0);
    while i < lines.len()
        invariant
            i <= lines@.len(),
            views == line_views(lines@),
            views.len() == lines@.len(),
            parse_records(views.subrange(0, i as int)) == Some(
                (coords@, atom_types@.map_values(|t: String| t@), bonds@),
            ),
        decreases lines@.len() - i,
    {
        let l = lines[i].as_str();
        let ghost prefix = views.subrange(0, i + 1);
        proof {
            assert(prefix.drop_last() =~= views.subrange(0, i as int));
            assert(prefix.last() == l@);
        }
        let ghost t0 = atom_types@;
        if has_prefix(l, "ATOM") || has_prefix(l, "HETATM") {
            match parse_atom_line(l) {
                Some((p, ty)) => {
                    coords.push(p);
                    atom_types.push(ty);
                    assert(atom_types@.map_values(|t: String| t@) =~= t0.map_values(|t: String| t@).push(ty@));
                },
                None => {
                    proof {
                        lemma_malformed_prefix(views, i as int);
                    }
                    return Err(CoreError::MalformedInput);
                },
            }
        } else if has_prefix(l, "CONECT") {
            match parse_conect_line(l) {
                Some(b) => {
                    let mut b = b;
                    bonds.append(&mut b);
                },
                None => {
                    proof {
                        lemma_malformed_prefix(views, i as int);
                    }
                    return Err(CoreError::MalformedInput);
                },
            }
        }
        i = i + 1;
    }
    assert(views.subrange(0, lines@.len() as int) =~= views);
    let p = PdbFilePy { coords, atom_types, bonds };
    proof {
        assert forall|k: int| 0 <= k < p.atom_types@.len()
            implies (#[trigger] p.atom_types@[k])@ == p.atom_types@.map_values(|t: String| t@)[k] by {}
    }
    Ok(p)
}

/// A malformed line makes every longer run of lines malformed too.
proof fn lemma_malformed_prefix(ls: Seq<Seq<char>>, i: int)
    requires
        0 <= i < ls.len(),
        parse_records(ls.subrange(0, i + 1)) is None,
    ensures
        parse_records(ls) is None,
    decreases ls.len() - i,
{
    if i + 1 == ls.len() {
        assert(ls.subrange(0, i + 1) =~= ls);
    } else {
        let next = ls.subrange(0, i + 2);
        assert(next.drop_last() =~= ls.subrange(0, i + 1));
        lemma_malformed_prefix(ls, i + 1);
    }
}

} // verus!
