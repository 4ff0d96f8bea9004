//! Classification of atom pairs into confirmed bonds, near bonds and missing
//! reference pairs.
use vstd::prelude::*;

use crate::geometry::{dist_sq, squared_distance, Position};
use crate::reference::{same_symbols, ReferenceTable};

verus! {

/// The tolerance around an average bond length, in fixed-point steps (0.2 units).
pub const NEAR_TOLERANCE: u64 = 2000;

/// The outcome of classifying one atom pair.
#[derive(Clone, Copy, Debug, PartialEq, Eq)]
pub enum PairClass {
    /// The distance lies within the reference range of the pair.
    Confirmed,
    /// Outside the range, but within the tolerance of the pair's average.
    Near,
    /// The reference table has nothing for the pair's element types.
    Missing,
    /// The pair has reference data, and the distance matches neither test.
    Unmatched,
}

/// `lo <= d <= hi` for the distance `d` whose square is `d2` (with `lo`, `hi` non-negative).
pub open spec fn within_range(d2: int, lo: int, hi: int) -> bool {
    lo * lo <= d2 && d2 <= hi * hi
}

/// `|d - avg2 / 2| <= NEAR_TOLERANCE` for the distance `d` whose square is `d2`,
/// written without a square root: `avg2 - 2t <= 2d <= avg2 + 2t`.
pub open spec fn near_average(d2: int, avg2: int) -> bool {
    let t = 2 * NEAR_TOLERANCE;
    &&& (avg2 - t <= 0 || (avg2 - t) * (avg2 - t) <= 4 * d2)
    &&& 4 * d2 <= (avg2 + t) * (avg2 + t)
}

/// How a pair of atoms of types `a` and `b`, at squared distance `d2`, is classified.
pub open spec fn classify(table: ReferenceTable, d2: int, a: Seq<char>, b: Seq<char>) -> PairClass {
    let in_range = match table.range_of(a, b) {
        Some((lo, hi)) => within_range(d2, lo as int, hi as int),
        None => false,
    };
    if in_range {
        PairClass::Confirmed
    } else {
        match table.average_twice_of(a, b) {
            Some(avg2) => if near_average(d2, avg2) {
                PairClass::Near
            } else {
                PairClass::Unmatched
            },
            None => PairClass::Missing,
        }
    }
}

/// The class of atoms `i` and `j` of a structure.
pub open spec fn pair_class(
    table: ReferenceTable,
    pos: Seq<Position>,
    types: Seq<String>,
    i: int,
    j: int,
) -> PairClass {
    classify(table, dist_sq(pos[i], pos[j]), types[i]@, types[j]@)
}

/// Lexicographic order on index pairs.
pub open spec fn lex_lt(p: (usize, usize), q: (usize, usize)) -> bool {
    p.0 < q.0 || (p.0 == q.0 && p.1 < q.1)
}

/// `s` lists exactly the pairs `i < j` of class `c`, in lexicographic order.
pub open spec fn lists_class(
    s: Seq<(usize, usize)>,
    table: ReferenceTable,
    pos: Seq<Position>,
    types: Seq<String>,
    c: PairClass,
) -> bool {
    &&& forall|k: int|
        0 <= k < s.len() ==> {
            &&& (#[trigger] s[k]).0 < s[k].1 < pos.len()
            &&& pair_class(table, pos, types, s[k].0 as int, s[k].1 as int) == c
        }
    &&& forall|p: int, q: int|
        0 <= p < q < pos.len() && #[trigger] pair_class(table, pos, types, p, q) == c
            ==> exists|k: int| 0 <= k < s.len() && #[trigger] s[k] == (p as usize, q as usize)
    &&& forall|k: int, l: int| 0 <= k < l < s.len() ==> lex_lt(#[trigger] s[k], #[trigger] s[l])
}

/// `e` holds the types of some pair `i < j` of the `Missing` class.
pub open spec fn is_missing_pair(
    e: (String, String),
    table: ReferenceTable,
    pos: Seq<Position>,
    types: Seq<String>,
) -> bool {
    exists|p: int, q: int|
        0 <= p < q < pos.len() && #[trigger] pair_class(table, pos, types, p, q) == PairClass::Missing
            && e.0@ == types[p]@ && e.1@ == types[q]@
}

/// `m` holds each unordered type pair of the `Missing` class once, and nothing else.
pub open spec fn lists_missing(
    m: Seq<(String, String)>,
    table: ReferenceTable,
    pos: Seq<Position>,
    types: Seq<String>,
) -> bool {
    &&& forall|k: int| 0 <= k < m.len() ==> is_missing_pair(#[trigger] m[k], table, pos, types)
    &&& forall|p: int, q: int|
        0 <= p < q < pos.len() && #[trigger] pair_class(table, pos, types, p, q) == PairClass::Missing
            ==> exists|k: int|
            0 <= k < m.len() && same_symbols(((#[trigger] m[k]).0@, m[k].1@), (types[p]@, types[q]@))
    &&& forall|k: int, l: int|
        0 <= k < m.len() && 0 <= l < m.len() && k != l
            ==> !same_symbols(((#[trigger] m[k]).0@, m[k].1@), ((#[trigger] m[l]).0@, m[l].1@))
}

/// The result of classifying every pair of a structure.
#[derive(Debug)]
pub struct BondSets {
    pub confirmed: Vec<(usize, usize)>,
    pub near: Vec<(usize, usize)>,
    pub missing: Vec<(String, String)>,
}

/// What `determine_bonds` returns for a structure.
pub open spec fn bonds_of(
    r: BondSets,
    table: ReferenceTable,
    pos: Seq<Position>,
    types: Seq<String>,
) -> bool {
    &&& lists_class(r.confirmed@, table, pos, types, PairClass::Confirmed)
    &&& lists_class(r.near@, table, pos, types, PairClass::Near)
    &&& lists_missing(r.missing@, table, pos, types)
}

/// Tests `near_average` on a squared distance between two positions.
pub fn is_near_average(d2: u128, avg2: u64) -> (r: bool)
    requires
        d2 < 0x3_0000_0000_0000_0000,
        avg2 < 0x2_0000_0000,
    ensures
        r == near_average(d2 as int, avg2 as int),
{
    let t: u128 = 2 * NEAR_TOLERANCE as u128;
    let s: u128 = avg2 as u128;
    let four_d2: u128 = 4 * d2;
    let low_ok = if s <= t {
        true
    } else {
        let l: u128 = s - t;
        assert(l * l < 0x1_0000_0000_0000_0000_0000) by (nonlinear_arith)
            requires
                l < 0x10_0000_0000,
        ;
        l * l <= four_d2
    };
    let h: u128 = s + t;
    assert(h * h < 0x1_0000_0000_0000_0000_0000) by (nonlinear_arith)
        requires
            h < 0x10_0000_0000,
    ;
    low_ok && four_d2 <= h * h
}

/// Classifies two atoms of types `a` and `b` at positions `p` and `q`.
pub fn classify_pair(table: &ReferenceTable, p: &Position, q: &Position, a: &String, b: &String) -> (r: PairClass)
    requires
        table.wf(),
    ensures
        r == classify(*table, dist_sq(*p, *q), a@, b@),
{
    let d2 = squared_distance(p, q);
    let range = table.lookup_range(a, b);
    match range {
        Some((lo, hi)) => {
            let lo_w: u128 = lo as u128;
            let hi_w: u128 = hi as u128;
            assert(lo_w * lo_w < 0x1_0000_0000_0000_0000 && hi_w * hi_w < 0x1_0000_0000_0000_0000)
                by (nonlinear_arith)
                requires
                    lo_w < 0x1_0000_0000,
                    hi_w < 0x1_0000_0000,
            ;
            let lo2: u128 = lo_w * lo_w;
            let hi2: u128 = hi_w * hi_w;
            if lo2 <= d2 && d2 <= hi2 {
                return PairClass::Confirmed;
            }
        },
        None => {},
    }
    match table.lookup_average_twice(a, b) {
        Some(avg2) => if is_near_average(d2, avg2) {
            PairClass::Near
        } else {
            PairClass::Unmatched
        },
        None => PairClass::Missing,
    }
}

/// Whether `m` already holds the unordered type pair {a, b}.
fn holds_symbols(m: &Vec<(String, String)>, a: &String, b: &String) -> (r: bool)
    ensures
        r == exists|k: int| 0 <= k < m@.len() && same_symbols(((#[trigger] m@[k]).0@, m@[k].1@), (a@, b@)),
{
    let mut k: usize = 0;
    while k < m.len()
        invariant
            k <= m@.len(),
            forall|l: int| 0 <= l < k ==> !same_symbols(((#[trigger] m@[l]).0@, m@[l].1@), (a@, b@)),
        decreases m@.len() - k,
    {
        let e = &m[k];
        if (e.0 == *a && e.1 == *b) || (e.0 == *b && e.1 == *a) {
            return true;
        }
        k = k + 1;
    }
    false
}

/// Pair `(p, q)` comes before the boundary `(bi, bj)` in lexicographic order.
spec fn before(p: int, q: int, bi: int, bj: int) -> bool {
    p < bi || (p == bi && q < bj)
}

/// `lists_class`, restricted to the pairs before the boundary `(bi, bj)`.
spec fn lists_class_before(
    s: Seq<(usize, usize)>,
    table: ReferenceTable,
    pos: Seq<Position>,
    types: Seq<String>,
    c: PairClass,
    bi: int,
    bj: int,
) -> bool {
    &&& forall|k: int|
        0 <= k < s.len() ==> {
            &&& (#[trigger] s[k]).0 < s[k].1 < pos.len()
            &&& pair_class(table, pos, types, s[k].0 as int, s[k].1 as int) == c
            &&& before(s[k].0 as int, s[k].1 as int, bi, bj)
        }
    &&& forall|p: int, q: int|
        0 <= p < q < pos.len() && before(p, q, bi, bj) && #[trigger] pair_class(table, pos, types, p, q) == c
            ==> exists|k: int| 0 <= k < s.len() && #[trigger] s[k] == (p as usize, q as usize)
    &&& forall|k: int, l: int| 0 <= k < l < s.len() ==> lex_lt(#[trigger] s[k], #[trigger] s[l])
}

/// `lists_missing`, restricted to the pairs before the boundary `(bi, bj)`.
spec fn lists_missing_before(
    m: Seq<(String, String)>,
    table: ReferenceTable,
    pos: Seq<Position>,
    types: Seq<String>,
    bi: int,
    bj: int,
) -> bool {
    &&& forall|k: int| 0 <= k < m.len() ==> is_missing_pair(#[trigger] m[k], table, pos, types)
    &&& forall|p: int, q: int|
        0 <= p < q < pos.len() && before(p, q, bi, bj)
            && #[trigger] pair_class(table, pos, types, p, q) == PairClass::Missing
            ==> exists|k: int|
            0 <= k < m.len() && same_symbols(((#[trigger] m[k]).0@, m[k].1@), (types[p]@, types[q]@))
    &&& forall|k: int, l: int|
        0 <= k < m.len() && 0 <= l < m.len() && k != l
            ==> !same_symbols(((#[trigger] m[k]).0@, m[k].1@), ((#[trigger] m[l]).0@, m[l].1@))
}

/// Recording pair `(i, j)` in a class list moves the boundary one pair on.
proof fn lemma_record_class(
    s: Seq<(usize, usize)>,
    s2: Seq<(usize, usize)>,
    table: ReferenceTable,
    pos: Seq<Position>,
    types: Seq<String>,
    c: PairClass,
    i: usize,
    j: usize,
)
    requires
        lists_class_before(s, table, pos, types, c, i as int, j as int),
        i < j < pos.len(),
        s2 == (if pair_class(table, pos, types, i as int, j as int) == c {
            s.push((i, j))
        } else {
            s
        }),
    ensures
        lists_class_before(s2, table, pos, types, c, i as int, j + 1),
{
    assert forall|p: int, q: int|
        0 <= p < q < pos.len() && before(p, q, i as int, j + 1)
            && #[trigger] pair_class(table, pos, types, p, q) == c
        implies exists|k: int| 0 <= k < s2.len() && #[trigger] s2[k] == (p as usize, q as usize) by {
        if p == i && q == j {
            assert(s2[s.len() as int] == (p as usize, q as usize));
        } else {
            let k = choose|k: int| 0 <= k < s.len() && #[trigger] s[k] == (p as usize, q as usize);
            assert(s2[k] == s[k]);
        }
    }
    assert forall|k: int, l: int| 0 <= k < l < s2.len() implies lex_lt(#[trigger] s2[k], #[trigger] s2[l]) by {
        if l == s.len() {
            assert(s2[k] == s[k]);
        } else {
            assert(s2[k] == s[k] && s2[l] == s[l]);
        }
    }
    assert forall|k: int| 0 <= k < s2.len() implies {
        &&& (#[trigger] s2[k]).0 < s2[k].1 < pos.len()
        &&& pair_class(table, pos, types, s2[k].0 as int, s2[k].1 as int) == c
        &&& before(s2[k].0 as int, s2[k].1 as int, i as int, j + 1)
    } by {
        if k < s.len() {
            assert(s2[k] == s[k]);
        }
    }
}

/// Recording the types of pair `(i, j)`, unless they are there already, moves the
/// boundary one pair on.
proof fn lemma_record_missing(
    m: Seq<(String, String)>,
    m2: Seq<(String, String)>,
    table: ReferenceTable,
    pos: Seq<Position>,
    types: Seq<String>,
    i: usize,
    j: usize,
)
    requires
        lists_missing_before(m, table, pos, types, i as int, j as int),
        i < j < pos.len(),
        pos.len() == types.len(),
        m2 == (if pair_class(table, pos, types, i as int, j as int) == PairClass::Missing && !exists|k: int|
            0 <= k < m.len() && same_symbols(((#[trigger] m[k]).0@, m[k].1@), (types[i as int]@, types[j as int]@)) {
            m.push((types[i as int], types[j as int]))
        } else {
            m
        }),
    ensures
        lists_missing_before(m2, table, pos, types, i as int, j + 1),
{
    let a = types[i as int]@;
    let b = types[j as int]@;
    assert forall|k: int| 0 <= k < m2.len() implies is_missing_pair(#[trigger] m2[k], table, pos, types) by {
        if k < m.len() {
            assert(m2[k] == m[k]);
        } else {
            assert(pair_class(table, pos, types, i as int, j as int) == PairClass::Missing);
        }
    }
    assert forall|p: int, q: int|
        0 <= p < q < pos.len() && before(p, q, i as int, j + 1)
            && #[trigger] pair_class(table, pos, types, p, q) == PairClass::Missing
        implies exists|k: int|
            0 <= k < m2.len() && same_symbols(((#[trigger] m2[k]).0@, m2[k].1@), (types[p]@, types[q]@)) by {
        if p == i && q == j {
            if m2.len() > m.len() {
                assert(same_symbols((m2[m.len() as int].0@, m2[m.len() as int].1@), (a, b)));
            } else {
                let k = choose|k: int| 0 <= k < m.len() && same_symbols(((#[trigger] m[k]).0@, m[k].1@), (a, b));
                assert(m2[k] == m[k]);
            }
        } else {
            let k = choose|k: int|
                0 <= k < m.len() && same_symbols(((#[trigger] m[k]).0@, m[k].1@), (types[p]@, types[q]@));
            assert(m2[k] == m[k]);
        }
    }
    assert forall|k: int, l: int|
        0 <= k < m2.len() && 0 <= l < m2.len() && k != l
        implies !same_symbols(((#[trigger] m2[k]).0@, m2[k].1@), ((#[trigger] m2[l]).0@, m2[l].1@)) by {
        if k < m.len() && l < m.len() {
            assert(m2[k] == m[k] && m2[l] == m[l]);
        } else if k < m.len() {
            assert(m2[k] == m[k]);
        } else {
            assert(m2[l] == m[l]);
        }
    }
}

/// Once a row is done, the boundary may move to the start of the next row.
proof fn lemma_next_row(
    s: Seq<(usize, usize)>,
    near: Seq<(usize, usize)>,
    m: Seq<(String, String)>,
    table: ReferenceTable,
    pos: Seq<Position>,
    types: Seq<String>,
    i: int,
)
    requires
        0 <= i < pos.len(),
        lists_class_before(s, table, pos, types, PairClass::Confirmed, i, pos.len() as int),
        lists_class_before(near, table, pos, types, PairClass::Near, i, pos.len() as int),
        lists_missing_before(m, table, pos, types, i, pos.len() as int),
    ensures
        lists_class_before(s, table, pos, types, PairClass::Confirmed, i + 1, i + 2),
        lists_class_before(near, table, pos, types, PairClass::Near, i + 1, i + 2),
        lists_missing_before(m, table, pos, types, i + 1, i + 2),
{
    assert forall|p: int, q: int|
        0 <= p < q < pos.len() && before(p, q, i + 1, i + 2)
        implies before(p, q, i, pos.len() as int) by {}
}

/// Past the last row, the restricted lists are the full ones.
proof fn lemma_all_rows(
    r: BondSets,
    table: ReferenceTable,
    pos: Seq<Position>,
    types: Seq<String>,
)
    requires
        lists_class_before(r.confirmed@, table, pos, types, PairClass::Confirmed, pos.len() as int, pos.len() as int + 1),
        lists_class_before(r.near@, table, pos, types, PairClass::Near, pos.len() as int, pos.len() as int + 1),
        lists_missing_before(r.missing@, table, pos, types, pos.len() as int, pos.len() as int + 1),
    ensures
        bonds_of(r, table, pos, types),
{
    assert forall|p: int, q: int| 0 <= p < q < pos.len()
        implies #[trigger] before(p, q, pos.len() as int, pos.len() as int + 1) by {}
}

/// Classifies every pair `i < j` of a structure: pairs within their reference range are
/// confirmed bonds; pairs outside it but within `NEAR_TOLERANCE` of the average are near
/// bonds; pairs whose element types have no reference data add their type pair, once, to
/// the missing list; the remaining pairs are dropped. Both index lists come in
/// lexicographic order.
pub fn determine_bonds(table: &ReferenceTable, positions: &Vec<Position>, atom_types: &Vec<String>) -> (r:
    BondSets)
    requires
        table.wf(),
        positions@.len() == atom_types@.len(),
    ensures
        bonds_of(r, *table, positions@, atom_types@),
{
    let n = positions.len();
    let ghost pos = positions@;
    let ghost types = atom_types@;
    let mut confirmed: Vec<(usize, usize)> = Vec::new();
    let mut near: Vec<(usize, usize)> = Vec::new();
    let mut missing: Vec<(String, String)> = Vec::new();
    let mut i: usize = 0;
    while i < n
        invariant
            n == pos.len(),
            pos == positions@,
            types == atom_types@,
            pos.len() == types.len(),
            table.wf(),
            i <= n,
            lists_class_before(confirmed@, *table, pos, types, PairClass::Confirmed, i as int, i + 1),
            lists_class_before(near@, *table, pos, types, PairClass::Near, i as int, i + 1),
            lists_missing_before(missing@, *table, pos, types, i as int, i + 1),
        decreases n - i,
    {
        let mut j: usize = i + 1;
        while j < n
            invariant
                n == pos.len(),
                pos == positions@,
                types == atom_types@,
                pos.len() == types.len(),
                table.wf(),
                i < n,
                i < j <= n,
                lists_class_before(confirmed@, *table, pos, types, PairClass::Confirmed, i as int, j as int),
                lists_class_before(near@, *table, pos, types, PairClass::Near, i as int, j as int),
                lists_missing_before(missing@, *table, pos, types, i as int, j as int),
            decreases n - j,
        {
            let c = classify_pair(table, &positions[i], &positions[j], &atom_types[i], &atom_types[j]);
            let ghost old_confirmed = confirmed@;
            let ghost old_near = near@;
            let ghost old_missing = missing@;
            match c {
                PairClass::Confirmed => confirmed.push((i, j)),
                PairClass::Near => near.push((i, j)),
                PairClass::Missing => {
                    if !holds_symbols(&missing, &atom_types[i], &atom_types[j]) {
                        missing.push((atom_types[i].clone(), atom_types[j].clone()));
                    }
                },
                PairClass::Unmatched => {},
            }
            proof {
                lemma_record_class(old_confirmed, confirmed@, *table, pos, types, PairClass::Confirmed, i, j);
                lemma_record_class(old_near, near@, *table, pos, types, PairClass::Near, i, j);
                lemma_record_missing(old_missing, missing@, *table, pos, types, i, j);
            }
            j = j + 1;
        }
        proof {
            lemma_next_row(confirmed@, near@, missing@, *table, pos, types, i as int);
        }
        i = i + 1;
    }
    let r = BondSets { confirmed, near, missing };
    proof {
        lemma_all_rows(r, *table, pos, types);
    }
    r
}

/// Classification does not depend on the order of the two element types: a pair of
/// types (a, b) at a given distance has the same class as (b, a) at that distance.
pub proof fn lemma_classification_symmetric(table: ReferenceTable, d2: int, a: Seq<char>, b: Seq<char>)
    requires
        table.wf(),
    ensures
        classify(table, d2, a, b) == classify(table, d2, b, a),
{
    table.lemma_range_symmetric(a, b);
}

/// No pair is both a confirmed and a near bond, and neither list holds a pair twice.
pub proof fn lemma_confirmed_and_near_disjoint(
    table: ReferenceTable,
    pos: Seq<Position>,
    types: Seq<String>,
    r: BondSets,
)
    requires
        bonds_of(r, table, pos, types),
    ensures
        forall|k: int, l: int|
            0 <= k < r.confirmed@.len() && 0 <= l < r.near@.len() ==> #[trigger] r.confirmed@[k]
                != #[trigger] r.near@[l],
        forall|k: int, l: int|
            0 <= k < r.confirmed@.len() && 0 <= l < r.confirmed@.len() && k != l ==> #[trigger] r.confirmed@[k]
                != #[trigger] r.confirmed@[l],
        forall|k: int, l: int|
            0 <= k < r.near@.len() && 0 <= l < r.near@.len() && k != l ==> #[trigger] r.near@[k]
                != #[trigger] r.near@[l],
{
    assert forall|k: int, l: int|
        0 <= k < r.confirmed@.len() && 0 <= l < r.confirmed@.len() && k != l implies #[trigger] r.confirmed@[k]
            != #[trigger] r.confirmed@[l] by {
        if k < l {
            assert(lex_lt(r.confirmed@[k], r.confirmed@[l]));
        } else {
            assert(lex_lt(r.confirmed@[l], r.confirmed@[k]));
        }
    }
    assert forall|k: int, l: int|
        0 <= k < r.near@.len() && 0 <= l < r.near@.len() && k != l implies #[trigger] r.near@[k]
            != #[trigger] r.near@[l] by {
        if k < l {
            assert(lex_lt(r.near@[k], r.near@[l]));
        } else {
            assert(lex_lt(r.near@[l], r.near@[k]));
        }
    }
}

} // verus!
