//! Structure builders: candidate ion sites, random ion placement and solvent boxes.
use vstd::prelude::*;

use rand::Rng;

use crate::bonds::{is_near_average, near_average};
use crate::geometry::{dist_sq, squared_distance, Position};
use crate::reference::ReferenceTable;

verus! {

/// Relies on `rand::Rng::gen_range` over `rand::thread_rng()`: a value drawn from the
/// half-open range `lo..hi`, which must not be empty (`gen_range` panics on an empty one).
#[verifier::external_body]
fn random_in(lo: i32, hi: i32) -> (r: i32)
    requires
        lo < hi,
    ensures
        lo <= r < hi,
{
    rand::thread_rng().gen_range(lo..hi)
}

/// The midpoint of two coordinates, rounded down to a fixed-point step.
pub open spec fn mid(a: int, b: int) -> int {
    (a + b) / 2
}

pub open spec fn midpoint(p: Position, q: Position) -> Position {
    Position { x: mid(p.x as int, q.x as int) as i32, y: mid(p.y as int, q.y as int) as i32, z: mid(p.z as int, q.z as int) as i32 }
}

/// Computes `mid(a, b)`.
pub fn half_way(a: i32, b: i32) -> (r: i32)
    ensures
        r == mid(a as int, b as int),
{
    let s: i64 = a as i64 + b as i64;
    if s >= 0 {
        (s / 2) as i32
    } else {
        let t: i64 = (-s + 1) / 2;
        (-t) as i32
    }
}

/// Atoms `i` and `j` (distinct) sit within `NEAR_TOLERANCE` of the average bond length
/// of their element types, so an ion may sit between them.
pub open spec fn is_ion_site(table: ReferenceTable, pos: Seq<Position>, types: Seq<String>, i: int, j: int) -> bool {
    i != j && match table.average_twice_of(types[i]@, types[j]@) {
        Some(avg2) => near_average(dist_sq(pos[i], pos[j]), avg2),
        None => false,
    }
}

/// The sites of row `i` for partners `0..j`, in partner order.
pub open spec fn row_sites(table: ReferenceTable, pos: Seq<Position>, types: Seq<String>, i: int, j: int) -> Seq<
    Position,
>
    decreases j,
{
    if j <= 0 {
        Seq::empty()
    } else {
        let prev = row_sites(table, pos, types, i, j - 1);
        if is_ion_site(table, pos, types, i, j - 1) {
            prev.push(midpoint(pos[i], pos[j - 1]))
        } else {
            prev
        }
    }
}

/// The sites of rows `0..i`, row by row.
pub open spec fn ion_sites(table: ReferenceTable, pos: Seq<Position>, types: Seq<String>, i: int) -> Seq<Position>
    decreases i,
{
    if i <= 0 {
        Seq::empty()
    } else {
        ion_sites(table, pos, types, i - 1) + row_sites(table, pos, types, i - 1, pos.len() as int)
    }
}

/// Candidate ion locations: the midpoint of every ordered pair of distinct atoms whose
/// distance is within `NEAR_TOLERANCE` of the average bond length of their types, in
/// row-major pair order (a pair that qualifies gives its midpoint twice, once per order).
/// Types past the last position are not read.
pub fn find_possible_ion_locations(table: &ReferenceTable, coords: &Vec<Position>, atom_types: &Vec<String>) -> (r:
    Vec<Position>)
    requires
        table.wf(),
        coords@.len() <= atom_types@.len(),
    ensures
        r@ == ion_sites(*table, coords@, atom_types@, coords@.len() as int),
{
    let n = coords.len();
    let mut r: Vec<Position> = Vec::new();
    let mut i: usize = 0;
    while i < n
        invariant
            n == coords@.len(),
            coords@.len() <= atom_types@.len(),
            table.wf(),
            i <= n,
            r@ == ion_sites(*table, coords@, atom_types@, i as int),
        decreases n - i,
    {
        let ghost before = r@;
        let mut j: usize = 0;
        assert(before + row_sites(*table, coords@, atom_types@, i as int, 0) =~= before);
        while j < n
            invariant
                n == coords@.len(),
                coords@.len() <= atom_types@.len(),
                table.wf(),
                i < n,
                j <= n,
                before == ion_sites(*table, coords@, atom_types@, i as int),
                r@ == before + row_sites(*table, coords@, atom_types@, i as int, j as int),
            decreases n - j,
        {
            let ghost prev = r@;
            if i != j {
                match table.lookup_average_twice(&atom_types[i], &atom_types[j]) {
                    Some(avg2) => {
                        let d2 = squared_distance(&coords[i], &coords[j]);
                        if is_near_average(d2, avg2) {
                            let p = &coords[i];
                            let q = &coords[j];
                            let m = Position { x: half_way(p.x, q.x), y: half_way(p.y, q.y), z: half_way(p.z, q.z) };
                            r.push(m);
                            assert(r@ =~= before + row_sites(*table, coords@, atom_types@, i as int, j + 1));
                        }
                    },
                    None => {},
                }
            }
            j = j + 1;
        }
        i = i + 1;
    }
    r
}

/// Selects one coordinate: 0 is x, 1 is y, anything else z.
pub open spec fn axis(p: Position, a: int) -> int {
    if a == 0 {
        p.x as int
    } else if a == 1 {
        p.y as int
    } else {
        p.z as int
    }
}

pub open spec fn seq_min(s: Seq<Position>, a: int) -> int
    decreases s.len(),
{
    if s.len() <= 1 {
        axis(s[0], a)
    } else {
        let m = seq_min(s.drop_last(), a);
        if axis(s.last(), a) < m {
            axis(s.last(), a)
        } else {
            m
        }
    }
}

pub open spec fn seq_max(s: Seq<Position>, a: int) -> int
    decreases s.len(),
{
    if s.len() <= 1 {
        axis(s[0], a)
    } else {
        let m = seq_max(s.drop_last(), a);
        if axis(s.last(), a) > m {
            axis(s.last(), a)
        } else {
            m
        }
    }
}

fn axis_of(p: &Position, a: u8) -> (r: i32)
    ensures
        r == axis(*p, a as int),
{
    if a == 0 {
        p.x
    } else if a == 1 {
        p.y
    } else {
        p.z
    }
}

/// The smallest and largest coordinate along one axis.
pub fn axis_bounds(coords: &Vec<Position>, a: u8) -> (r: (i32, i32))
    requires
        coords@.len() > 0,
    ensures
        r.0 == seq_min(coords@, a as int),
        r.1 == seq_max(coords@, a as int),
{
    let mut lo = axis_of(&coords[0], a);
    let mut hi = lo;
    let mut i: usize = 1;
    while i < coords.len()
        invariant
            1 <= i <= coords@.len(),
            lo == seq_min(coords@.subrange(0, i as int), a as int),
            hi == seq_max(coords@.subrange(0, i as int), a as int),
        decreases coords@.len() - i,
    {
        let v = axis_of(&coords[i], a);
        proof {
            let t = coords@.subrange(0, i + 1);
            assert(t.drop_last() =~= coords@.subrange(0, i as int));
            assert(t.last() == coords@[i as int]);
        }
        if v < lo {
            lo = v;
        }
        if v > hi {
            hi = v;
        }
        i = i + 1;
    }
    assert(coords@.subrange(0, coords@.len() as int) =~= coords@);
    (lo, hi)
}

/// A value drawn from `lo..hi`, or `lo` itself when the span is empty.
pub open spec fn in_span(v: int, lo: int, hi: int) -> bool {
    if lo < hi {
        lo <= v < hi
    } else {
        v == lo
    }
}

/// `p` lies in the bounding box of `s` (upper bounds excluded where the box has width).
pub open spec fn in_bounding_box(p: Position, s: Seq<Position>) -> bool {
    &&& in_span(p.x as int, seq_min(s, 0), seq_max(s, 0))
    &&& in_span(p.y as int, seq_min(s, 1), seq_max(s, 1))
    &&& in_span(p.z as int, seq_min(s, 2), seq_max(s, 2))
}

fn draw_in_span(lo: i32, hi: i32) -> (r: i32)
    ensures
        in_span(r as int, lo as int, hi as int),
{
    if lo < hi {
        random_in(lo, hi)
    } else {
        lo
    }
}

/// Appends `number` ions of element `ion`, each at a random position inside the
/// bounding box of the existing atoms.
pub fn add_ions(coords: &mut Vec<Position>, atom_types: &mut Vec<String>, ion: &str, number: usize)
    requires
        old(coords)@.len() > 0,
    ensures
        final(coords)@.len() == old(coords)@.len() + number,
        final(coords)@.subrange(0, old(coords)@.len() as int) == old(coords)@,
        forall|k: int|
            old(coords)@.len() <= k < final(coords)@.len() ==> in_bounding_box(
                #[trigger] final(coords)@[k],
                old(coords)@,
            ),
        final(atom_types)@.len() == old(atom_types)@.len() + number,
        final(atom_types)@.subrange(0, old(atom_types)@.len() as int) == old(atom_types)@,
        forall|k: int|
            old(atom_types)@.len() <= k < final(atom_types)@.len() ==> (#[trigger] final(atom_types)@[k])@ == ion@,
{
    let (min_x, max_x) = axis_bounds(coords, 0);
    let (min_y, max_y) = axis_bounds(coords, 1);
    let (min_z, max_z) = axis_bounds(coords, 2);
    let ghost c0 = coords@;
    let ghost t0 = atom_types@;
    let mut added: usize = 0;
    while added < number
        invariant
            added <= number,
            coords@.len() == c0.len() + added,
            coords@.subrange(0, c0.len() as int) == c0,
            c0.len() > 0,
            min_x == seq_min(c0, 0),
            max_x == seq_max(c0, 0),
            min_y == seq_min(c0, 1),
            max_y == seq_max(c0, 1),
            min_z == seq_min(c0, 2),
            max_z == seq_max(c0, 2),
            forall|k: int| c0.len() <= k < coords@.len() ==> in_bounding_box(#[trigger] coords@[k], c0),
            atom_types@.len() == t0.len() + added,
            atom_types@.subrange(0, t0.len() as int) == t0,
            forall|k: int| t0.len() <= k < atom_types@.len() ==> (#[trigger] atom_types@[k])@ == ion@,
        decreases number - added,
    {
        let x = draw_in_span(min_x, max_x);
        let y = draw_in_span(min_y, max_y);
        let z = draw_in_span(min_z, max_z);
        let ghost cp = coords@;
        let ghost tp = atom_types@;
        coords.push(Position { x, y, z });
        atom_types.push(String::from_str(ion));
        proof {
            assert(coords@.subrange(0, c0.len() as int) =~= cp.subrange(0, c0.len() as int));
            assert(atom_types@.subrange(0, t0.len() as int) =~= tp.subrange(0, t0.len() as int));
            assert forall|k: int| c0.len() <= k < coords@.len() implies in_bounding_box(#[trigger] coords@[k], c0) by {
                if k < cp.len() {
                    assert(coords@[k] == cp[k]);
                }
            }
            assert forall|k: int| t0.len() <= k < atom_types@.len() implies (#[trigger] atom_types@[k])@ == ion@ by {
                if k < tp.len() {
                    assert(atom_types@[k] == tp[k]);
                }
            }
        }
        added = added + 1;
    }
}

/// The squared minimum gap between an added water atom and any earlier atom: (2.0 units)².
pub const SOLVENT_GAP_SQ: u128 = 400_000_000;

/// Lattice spacing of the solvent box, in whole distance units.
pub const WATER_SPACING: i64 = 3;

/// Largest random displacement of a water atom along each axis (0.1 units, exclusive).
pub const WATER_JITTER: i32 = 1000;

/// Whole distance units in `v` fixed-point steps, truncated toward zero.
pub open spec fn trunc_units(v: int) -> int {
    if v >= 0 {
        v / 10000
    } else {
        -((-v) / 10000)
    }
}

fn units_of(v: i64) -> (r: i64)
    requires
        -0x100_0000_0000 < v < 0x100_0000_0000,
    ensures
        r == trunc_units(v as int),
        -0x1_0000_0000 < r < 0x1_0000_0000,
{
    if v >= 0 {
        v / 10000
    } else {
        let m: i64 = -v;
        -(m / 10000)
    }
}

/// `p` keeps the solvent gap to every atom of `s`.
pub open spec fn clear_of(s: Seq<Position>, p: Position) -> bool {
    forall|i: int| 0 <= i < s.len() ==> dist_sq(#[trigger] s[i], p) >= SOLVENT_GAP_SQ
}

fn keeps_gap(coords: &Vec<Position>, p: &Position) -> (r: bool)
    ensures
        r == clear_of(coords@, *p),
{
    let mut i: usize = 0;
    while i < coords.len()
        invariant
            i <= coords@.len(),
            forall|j: int| 0 <= j < i ==> dist_sq(#[trigger] coords@[j], *p) >= SOLVENT_GAP_SQ,
        decreases coords@.len() - i,
    {
        if squared_distance(&coords[i], p) < SOLVENT_GAP_SQ {
            return false;
        }
        i = i + 1;
    }
    true
}

/// The element name of atom `a` of a water molecule: `O`, `H1`, `H2`.
pub open spec fn water_name(a: int) -> Seq<char> {
    if a == 0 {
        "O"@
    } else if a == 1 {
        "H1"@
    } else {
        "H2"@
    }
}

/// The element names of a list of atom types.
pub open spec fn names(t: Seq<String>) -> Seq<Seq<char>> {
    t.map_values(|s: String| s@)
}

/// The displacement drawn at index `i`; 0 past the end of the draws.
pub open spec fn jitter_at(j: Seq<i32>, i: int) -> int {
    if 0 <= i < j.len() {
        j[i] as int
    } else {
        0
    }
}

/// Every drawn displacement lies in `-WATER_JITTER..WATER_JITTER`.
pub open spec fn jitter_ok(j: Seq<i32>) -> bool {
    forall|i: int| 0 <= i < j.len() ==> -WATER_JITTER <= #[trigger] j[i] < WATER_JITTER
}

/// The offset, in fixed-point steps, of atom `a` of a water molecule from its lattice
/// point along `axis`: oxygen at the point, the hydrogens at the fixed geometry.
pub open spec fn water_offset(a: int, axis: int) -> int {
    if a == 1 && axis == 0 {
        9572
    } else if a == 2 && axis == 0 {
        -2400
    } else if a == 2 && axis == 1 {
        9266
    } else {
        0
    }
}

/// Coordinate `axis` of atom `a` of the molecule tried at lattice point `(x, y, z)`
/// (whole units), displaced by draw `k + 3a + axis`.
pub open spec fn water_coord(x: int, y: int, z: int, a: int, axis: int, j: Seq<i32>, k: int) -> int {
    let base = if axis == 0 {
        x
    } else if axis == 1 {
        y
    } else {
        z
    };
    base * 10000 + water_offset(a, axis) + jitter_at(j, k + 3 * a + axis)
}

pub open spec fn fits_i32(v: int) -> bool {
    i32::MIN <= v <= i32::MAX
}

pub open spec fn atom_fits(x: int, y: int, z: int, a: int, j: Seq<i32>, k: int) -> bool {
    fits_i32(water_coord(x, y, z, a, 0, j, k)) && fits_i32(water_coord(x, y, z, a, 1, j, k)) && fits_i32(
        water_coord(x, y, z, a, 2, j, k),
    )
}

pub open spec fn water_pos(x: int, y: int, z: int, a: int, j: Seq<i32>, k: int) -> Position {
    Position {
        x: water_coord(x, y, z, a, 0, j, k) as i32,
        y: water_coord(x, y, z, a, 1, j, k) as i32,
        z: water_coord(x, y, z, a, 2, j, k) as i32,
    }
}

/// The atoms and names after trying one molecule at `(x, y, z)` with draws from `k`:
/// it is appended exactly when all its coordinates fit and each of its atoms keeps the
/// solvent gap to every atom present.
pub open spec fn place(
    s: (Seq<Position>, Seq<Seq<char>>),
    x: int,
    y: int,
    z: int,
    j: Seq<i32>,
    k: int,
) -> (Seq<Position>, Seq<Seq<char>>) {
    let o = water_pos(x, y, z, 0, j, k);
    let h1 = water_pos(x, y, z, 1, j, k);
    let h2 = water_pos(x, y, z, 2, j, k);
    if atom_fits(x, y, z, 0, j, k) && atom_fits(x, y, z, 1, j, k) && atom_fits(x, y, z, 2, j, k) && clear_of(s.0, o)
        && clear_of(s.0, h1) && clear_of(s.0, h2) {
        (s.0 + seq![o, h1, h2], s.1 + seq![water_name(0), water_name(1), water_name(2)])
    } else {
        s
    }
}

/// The lattice points `z, z + 3, ...` below `ze` of the line at `(x, y)`, in order; the
/// draws used so far come back with the result.
pub open spec fn sweep_z(
    s: (Seq<Position>, Seq<Seq<char>>),
    x: int,
    y: int,
    z: int,
    ze: int,
    j: Seq<i32>,
    k: int,
) -> ((Seq<Position>, Seq<Seq<char>>), int)
    decreases ze + WATER_SPACING - z,
{
    if z >= ze {
        (s, k)
    } else {
        sweep_z(place(s, x, y, z, j, k), x, y, z + WATER_SPACING, ze, j, k + 9)
    }
}

/// The lines `y, y + 3, ...` below `ye` of the plane at `x`, in order.
pub open spec fn sweep_y(
    s: (Seq<Position>, Seq<Seq<char>>),
    x: int,
    y: int,
    ye: int,
    zs: int,
    ze: int,
    j: Seq<i32>,
    k: int,
) -> ((Seq<Position>, Seq<Seq<char>>), int)
    decreases ye + WATER_SPACING - y,
{
    if y >= ye {
        (s, k)
    } else {
        let r = sweep_z(s, x, y, zs, ze, j, k);
        sweep_y(r.0, x, y + WATER_SPACING, ye, zs, ze, j, r.1)
    }
}

/// The planes `x, x + 3, ...` below `xe`, in order.
pub open spec fn sweep_x(
    s: (Seq<Position>, Seq<Seq<char>>),
    x: int,
    xe: int,
    ys: int,
    ye: int,
    zs: int,
    ze: int,
    j: Seq<i32>,
    k: int,
) -> ((Seq<Position>, Seq<Seq<char>>), int)
    decreases xe + WATER_SPACING - x,
{
    if x >= xe {
        (s, k)
    } else {
        let r = sweep_y(s, x, ys, ye, zs, ze, j, k);
        sweep_x(r.0, x + WATER_SPACING, xe, ys, ye, zs, ze, j, r.1)
    }
}

/// The first lattice coordinate along an axis: `box_size` below the smallest
/// coordinate, truncated to whole units.
pub open spec fn lattice_start(c: Seq<Position>, axis: int, box_size: int) -> int {
    trunc_units(seq_min(c, axis) - box_size)
}

/// The end (exclusive) of the lattice along an axis.
pub open spec fn lattice_end(c: Seq<Position>, axis: int, box_size: int) -> int {
    trunc_units(seq_max(c, axis) + box_size)
}

/// The atoms and names of structure `(c, t)` after solvation with the draws `j`: every
/// lattice point, x-major then y then z, is tried in turn with the next nine draws.
pub open spec fn solvated(c: Seq<Position>, t: Seq<Seq<char>>, box_size: int, j: Seq<i32>) -> (
    Seq<Position>,
    Seq<Seq<char>>,
) {
    sweep_x(
        (c, t),
        lattice_start(c, 0, box_size),
        lattice_end(c, 0, box_size),
        lattice_start(c, 1, box_size),
        lattice_end(c, 1, box_size),
        lattice_start(c, 2, box_size),
        lattice_end(c, 2, box_size),
        j,
        0,
    ).0
}

/// Draw indices are clamped here: every index past the draws reads the same 0.
pub const DRAW_CLAMP: u128 = 0x10_0000_0000_0000_0000_0000_0000;

pub open spec fn clamp_draw(k: int) -> int {
    if k < DRAW_CLAMP {
        k
    } else {
        DRAW_CLAMP as int
    }
}

fn jitter_value(j: &Vec<i32>, i: u128) -> (r: i32)
    ensures
        r == jitter_at(j@, i as int),
{
    if i < j.len() as u128 {
        j[i as usize]
    } else {
        0
    }
}

/// One coordinate of a water atom: `units * 10000 + offset + jitter`.
fn water_value(units: i64, offset: i64, jitter: i32) -> (r: i64)
    requires
        -0x1_0000_0000 < units < 0x1_0000_0000,
        -20000 < offset < 20000,
    ensures
        r == units * 10000 + offset + jitter,
{
    units * 10000 + offset + jitter as i64
}

fn fits(v: i64) -> (r: bool)
    ensures
        r == fits_i32(v as int),
{
    v >= i32::MIN as i64 && v <= i32::MAX as i64
}

/// Reading draws from a clamped index gives the same molecule.
proof fn lemma_place_clamped(s: (Seq<Position>, Seq<Seq<char>>), x: int, y: int, z: int, j: Seq<i32>, k: int)
    requires
        k >= 0,
        j.len() < DRAW_CLAMP,
    ensures
        place(s, x, y, z, j, clamp_draw(k)) == place(s, x, y, z, j, k),
{
    if k >= DRAW_CLAMP {
        assert forall|a: int, ax: int| 0 <= a < 3 && 0 <= ax < 3 implies water_coord(x, y, z, a, ax, j, clamp_draw(k))
            == #[trigger] water_coord(x, y, z, a, ax, j, k) by {
            assert(jitter_at(j, clamp_draw(k) + 3 * a + ax) == jitter_at(j, k + 3 * a + ax));
        }
    }
}

/// Tries one water molecule at lattice point `(x, y, z)` with the draws from `k`.
fn place_water_with(
    coords: &mut Vec<Position>,
    atom_types: &mut Vec<String>,
    x: i64,
    y: i64,
    z: i64,
    j: &Vec<i32>,
    k: u128,
)
    requires
        -0x1_0000_0000 < x < 0x1_0000_0000,
        -0x1_0000_0000 < y < 0x1_0000_0000,
        -0x1_0000_0000 < z < 0x1_0000_0000,
        k <= DRAW_CLAMP,
    ensures
        (final(coords)@, names(final(atom_types)@)) == place(
            (old(coords)@, names(old(atom_types)@)),
            x as int,
            y as int,
            z as int,
            j@,
            k as int,
        ),
{
    let ox = water_value(x, 0, jitter_value(j, k));
    let oy = water_value(y, 0, jitter_value(j, k + 1));
    let oz = water_value(z, 0, jitter_value(j, k + 2));
    let h1x = water_value(x, 9572, jitter_value(j, k + 3));
    let h1y = water_value(y, 0, jitter_value(j, k + 4));
    let h1z = water_value(z, 0, jitter_value(j, k + 5));
    let h2x = water_value(x, -2400, jitter_value(j, k + 6));
    let h2y = water_value(y, 9266, jitter_value(j, k + 7));
    let h2z = water_value(z, 0, jitter_value(j, k + 8));
    if !(fits(ox) && fits(oy) && fits(oz) && fits(h1x) && fits(h1y) && fits(h1z) && fits(h2x) && fits(h2y) && fits(
        h2z,
    )) {
        return;
    }
    let o = Position { x: ox as i32, y: oy as i32, z: oz as i32 };
    let h1 = Position { x: h1x as i32, y: h1y as i32, z: h1z as i32 };
    let h2 = Position { x: h2x as i32, y: h2y as i32, z: h2z as i32 };
    proof {
        let (xi, yi, zi, ki) = (x as int, y as int, z as int, k as int);
        assert(o == water_pos(xi, yi, zi, 0, j@, ki));
        assert(h1 == water_pos(xi, yi, zi, 1, j@, ki));
        assert(h2 == water_pos(xi, yi, zi, 2, j@, ki));
    }
    if !(keeps_gap(coords, &o) && keeps_gap(coords, &h1) && keeps_gap(coords, &h2)) {
        return;
    }
    let ghost c0 = coords@;
    let ghost t0 = atom_types@;
    coords.push(o);
    coords.push(h1);
    coords.push(h2);
    atom_types.push(String::from_str("O"));
    atom_types.push(String::from_str("H1"));
    atom_types.push(String::from_str("H2"));
    proof {
        reveal_strlit("O");
        assert(coords@ =~= c0 + seq![o, h1, h2]);
        assert(names(atom_types@) =~= names(t0) + seq![water_name(0), water_name(1), water_name(2)]);
    }
}

/// Fills a box around the structure with water, using the displacements `jitter`:
/// the lattice points, `WATER_SPACING` units apart, run from `box_size` below the
/// smallest to `box_size` above the largest coordinate (truncated to whole units) on
/// each axis; at each, x-major then y then z, a molecule is tried with the next nine
/// displacements (0 once they run out), and appended where it fits and keeps the
/// solvent gap to every atom present.
pub fn solvate_box_with(coords: &mut Vec<Position>, atom_types: &mut Vec<String>, box_size: i32, jitter: &Vec<i32>)
    requires
        old(coords)@.len() > 0,
    ensures
        (final(coords)@, names(final(atom_types)@)) == solvated(
            old(coords)@,
            names(old(atom_types)@),
            box_size as int,
            jitter@,
        ),
{
    let ghost c0 = coords@;
    let ghost j = jitter@;
    let jl = jitter.len();
    let (min_x, max_x) = axis_bounds(coords, 0);
    let (min_y, max_y) = axis_bounds(coords, 1);
    let (min_z, max_z) = axis_bounds(coords, 2);
    let x_start = units_of(min_x as i64 - box_size as i64);
    let x_end = units_of(max_x as i64 + box_size as i64);
    let y_start = units_of(min_y as i64 - box_size as i64);
    let y_end = units_of(max_y as i64 + box_size as i64);
    let z_start = units_of(min_z as i64 - box_size as i64);
    let z_end = units_of(max_z as i64 + box_size as i64);
    let ghost target = sweep_x(
        (coords@, names(atom_types@)),
        x_start as int,
        x_end as int,
        y_start as int,
        y_end as int,
        z_start as int,
        z_end as int,
        j,
        0,
    );
    let ghost mut kg: int = 0;
    let mut k: u128 = 0;
    let mut x = x_start;
    while x < x_end
        invariant
            jl == j.len(),
            j == jitter@,
            -0x1_0000_0000 < x_start <= x,
            x == x_start || x < x_end + WATER_SPACING,
            -0x1_0000_0000 < x_end < 0x1_0000_0000,
            -0x1_0000_0000 < y_start < 0x1_0000_0000,
            -0x1_0000_0000 < y_end < 0x1_0000_0000,
            -0x1_0000_0000 < z_start < 0x1_0000_0000,
            -0x1_0000_0000 < z_end < 0x1_0000_0000,
            kg >= 0,
            k == clamp_draw(kg),
            sweep_x(
                (coords@, names(atom_types@)),
                x as int,
                x_end as int,
                y_start as int,
                y_end as int,
                z_start as int,
                z_end as int,
                j,
                kg,
            ) == target,
        decreases x_end + WATER_SPACING - x,
    {
        let mut y = y_start;
        while y < y_end
            invariant
                jl == j.len(),
                j == jitter@,
                -0x1_0000_0000 < x < 0x1_0000_0000,
                x < x_end,
                -0x1_0000_0000 < y_start <= y,
                y == y_start || y < y_end + WATER_SPACING,
                -0x1_0000_0000 < y_end < 0x1_0000_0000,
                -0x1_0000_0000 < z_start < 0x1_0000_0000,
                -0x1_0000_0000 < z_end < 0x1_0000_0000,
                kg >= 0,
                k == clamp_draw(kg),
                sweep_x(
                    sweep_y(
                        (coords@, names(atom_types@)),
                        x as int,
                        y as int,
                        y_end as int,
                        z_start as int,
                        z_end as int,
                        j,
                        kg,
                    ).0,
                    x + WATER_SPACING,
                    x_end as int,
                    y_start as int,
                    y_end as int,
                    z_start as int,
                    z_end as int,
                    j,
                    sweep_y(
                        (coords@, names(atom_types@)),
                        x as int,
                        y as int,
                        y_end as int,
                        z_start as int,
                        z_end as int,
                        j,
                        kg,
                    ).1,
                ) == target,
            decreases y_end + WATER_SPACING - y,
        {
            let mut z = z_start;
            while z < z_end
                invariant
                    jl == j.len(),
                    j == jitter@,
                    -0x1_0000_0000 < x < 0x1_0000_0000,
                    -0x1_0000_0000 < y < 0x1_0000_0000,
                    y < y_end,
                    -0x1_0000_0000 < z_start <= z,
                    z == z_start || z < z_end + WATER_SPACING,
                    -0x1_0000_0000 < z_end < 0x1_0000_0000,
                    kg >= 0,
                    k == clamp_draw(kg),
                    ({
                        let rz = sweep_z((coords@, names(atom_types@)), x as int, y as int, z as int, z_end as int, j, kg);
                        let ry = sweep_y(rz.0, x as int, y + WATER_SPACING, y_end as int, z_start as int, z_end as int, j, rz.1);
                        sweep_x(ry.0, x + WATER_SPACING, x_end as int, y_start as int, y_end as int, z_start as int, z_end as int, j, ry.1) == target
                    }),
                decreases z_end + WATER_SPACING - z,
            {
                proof {
                    lemma_place_clamped((coords@, names(atom_types@)), x as int, y as int, z as int, j, kg);
                }
                place_water_with(coords, atom_types, x, y, z, jitter, k);
                k = if k >= DRAW_CLAMP - 9 {
                    DRAW_CLAMP
                } else {
                    k + 9
                };
                proof {
                    kg = kg + 9;
                }
                z = z + WATER_SPACING;
            }
            y = y + WATER_SPACING;
        }
        x = x + WATER_SPACING;
    }
}

/// The number of lattice points along one axis between `lo` and `hi`.
fn axis_points(lo: i32, hi: i32, box_size: i32) -> (r: u128)
    ensures
        r < 0x1_0000_0000,
{
    let start = units_of(lo as i64 - box_size as i64);
    let end = units_of(hi as i64 + box_size as i64);
    if end > start {
        ((end - start + 2) / 3) as u128
    } else {
        0
    }
}

/// The number of displacements that a solvation of `coords` reads: nine per lattice
/// point.
fn draws_needed(coords: &Vec<Position>, box_size: i32) -> (r: u128)
    requires
        coords@.len() > 0,
{
    let (min_x, max_x) = axis_bounds(coords, 0);
    let (min_y, max_y) = axis_bounds(coords, 1);
    let (min_z, max_z) = axis_bounds(coords, 2);
    let nx = axis_points(min_x, max_x, box_size);
    let ny = axis_points(min_y, max_y, box_size);
    let nz = axis_points(min_z, max_z, box_size);
    assert(nx * ny < 0x1_0000_0000_0000_0000) by (nonlinear_arith)
        requires
            nx < 0x1_0000_0000,
            ny < 0x1_0000_0000,
    ;
    let nxy = nx * ny;
    assert(nxy * nz < 0x1_0000_0000_0000_0000_0000_0000) by (nonlinear_arith)
        requires
            nxy < 0x1_0000_0000_0000_0000,
            nz < 0x1_0000_0000,
    ;
    9 * (nxy * nz)
}

/// Fills a box around the structure with water, as `solvate_box_with` does, with
/// displacements drawn at random from `-WATER_JITTER..WATER_JITTER`.
pub fn solvate_box(coords: &mut Vec<Position>, atom_types: &mut Vec<String>, box_size: i32)
    requires
        old(coords)@.len() > 0,
    ensures
        exists|j: Seq<i32>|
            jitter_ok(j) && (final(coords)@, names(final(atom_types)@)) == solvated(
                old(coords)@,
                names(old(atom_types)@),
                box_size as int,
                j,
            ),
{
    let count = draws_needed(coords, box_size);
    let mut jitter: Vec<i32> = Vec::new();
    let mut i: u128 = 0;
    while i < count
        invariant
            i <= count,
            jitter_ok(jitter@),
        decreases count - i,
    {
        jitter.push(random_in(-WATER_JITTER, WATER_JITTER));
        i = i + 1;
    }
    solvate_box_with(coords, atom_types, box_size, &jitter);
}

} // verus!
