//! The reference table of bond-distance ranges per element pair.
use vstd::prelude::*;

use crate::error::CoreError;
use crate::text::{find_char, is_first};

verus! {

/// One row of the reference table: the accepted bond-length range of an element pair,
/// in fixed-point steps.
#[derive(Debug)]
pub struct PairRange {
    pub first: String,
    pub second: String,
    pub min: u32,
    pub max: u32,
}

/// Whether a row is about the unordered element pair {a, b}.
pub open spec fn names_pair(e: PairRange, a: Seq<char>, b: Seq<char>) -> bool {
    (e.first@ == a && e.second@ == b) || (e.first@ == b && e.second@ == a)
}

/// Two rows about the same unordered element pair.
pub open spec fn same_pair(e: PairRange, f: PairRange) -> bool {
    names_pair(f, e.first@, e.second@)
}

/// No unordered element pair is stored twice.
pub open spec fn rows_unique(rows: Seq<PairRange>) -> bool {
    forall|i: int, j: int| 0 <= i < rows.len() && 0 <= j < rows.len() && i != j
        ==> !same_pair(#[trigger] rows[i], #[trigger] rows[j])
}

/// The range stored for {a, b}, whichever order the row names them in.
pub open spec fn range_in(rows: Seq<PairRange>, a: Seq<char>, b: Seq<char>) -> Option<(u32, u32)> {
    if exists|i: int| 0 <= i < rows.len() && names_pair(#[trigger] rows[i], a, b) {
        let i = choose|i: int| 0 <= i < rows.len() && names_pair(#[trigger] rows[i], a, b);
        Some((rows[i].min, rows[i].max))
    } else {
        None
    }
}

/// The average bond length of {a, b}, doubled so that it stays an integer:
/// `min + max` of the stored range.
pub open spec fn average_twice_in(rows: Seq<PairRange>, a: Seq<char>, b: Seq<char>) -> Option<int> {
    match range_in(rows, a, b) {
        Some(r) => Some(r.0 + r.1),
        None => None,
    }
}

/// The two element symbols of a key `A-B`, split at its first `-`; both must be non-empty.
pub open spec fn split_pair_key(k: Seq<char>) -> Option<(Seq<char>, Seq<char>)> {
    if exists|i: int| is_first(k, '-', i) {
        let i = choose|i: int| is_first(k, '-', i);
        if 0 < i && i + 1 < k.len() {
            Some((k.subrange(0, i), k.subrange(i + 1, k.len() as int)))
        } else {
            None
        }
    } else {
        None
    }
}

/// Every key splits, and no two keys name the same unordered pair.
pub open spec fn keys_valid(keys: Seq<(String, u32, u32)>) -> bool {
    &&& forall|i: int| 0 <= i < keys.len() ==> (#[trigger] split_pair_key(keys[i].0@)) is Some
    &&& forall|i: int, j: int|
        0 <= i < keys.len() && 0 <= j < keys.len() && i != j
            ==> !same_symbols(
                #[trigger] split_pair_key(keys[i].0@)->0,
                #[trigger] split_pair_key(keys[j].0@)->0,
            )
}

/// Two symbol pairs that are equal as unordered pairs.
pub open spec fn same_symbols(p: (Seq<char>, Seq<char>), q: (Seq<char>, Seq<char>)) -> bool {
    (p.0 == q.0 && p.1 == q.1) || (p.0 == q.1 && p.1 == q.0)
}

/// The reference bond-distance table. Built once, then only read.
pub struct ReferenceTable {
    rows: Vec<PairRange>,
}

impl View for ReferenceTable {
    type V = Seq<PairRange>;

    closed spec fn view(&self) -> Seq<PairRange> {
        self.rows@
    }
}

/// Splits a key `A-B` at its first `-` into its two element symbols.
pub fn split_key(k: &str) -> (r: Option<(String, String)>)
    ensures
        match r {
            Some(p) => split_pair_key(k@) == Some((p.0@, p.1@)),
            None => split_pair_key(k@) is None,
        },
{
    match find_char(k, '-') {
        Some(i) => {
            let n = k.unicode_len();
            proof {
                let c = choose|c: int| is_first(k@, '-', c);
                assert(c == i as int) by {
                    if c < i as int {
                        assert(k@[c] != '-');
                    } else if c > i as int {
                        assert(k@[i as int] != '-');
                    }
                }
            }
            if 0 < i && i + 1 < n {
                let a = String::from_str(k.substring_char(0, i));
                let b = String::from_str(k.substring_char(i + 1, n));
                Some((a, b))
            } else {
                None
            }
        },
        None => None,
    }
}

impl ReferenceTable {
    pub closed spec fn wf(&self) -> bool {
        rows_unique(self.rows@)
    }

    /// The range stored for {a, b}.
    pub open spec fn range_of(&self, a: Seq<char>, b: Seq<char>) -> Option<(u32, u32)> {
        range_in(self@, a, b)
    }

    /// Twice the average bond length of {a, b}.
    pub open spec fn average_twice_of(&self, a: Seq<char>, b: Seq<char>) -> Option<int> {
        average_twice_in(self@, a, b)
    }

    /// Builds the table from `(key, min, max)` rows, where each key reads `A-B`.
    /// Fails if a key does not split into two symbols, or if two keys name the same
    /// unordered pair (the table stores each physical pair once).
    pub fn from_entries(entries: &Vec<(String, u32, u32)>) -> (r: Result<ReferenceTable, CoreError>)
        ensures
            r is Ok <==> keys_valid(entries@),
            match r {
                Ok(t) => {
                    &&& t.wf()
                    &&& t@.len() == entries@.len()
                    &&& forall|i: int|
                        0 <= i < entries@.len() ==> {
                            &&& split_pair_key(entries@[i].0@) == Some(((#[trigger] t@[i]).first@, t@[i].second@))
                            &&& t@[i].min == entries@[i].1
                            &&& t@[i].max == entries@[i].2
                        }
                },
                Err(e) => e == CoreError::ReferenceDataUnavailable,
            },
    {
        let mut table = ReferenceTable { rows: Vec::new() };
        let mut i: usize = 0;
        while i < entries.len()
            invariant
                i <= entries@.len(),
                table.rows@.len() == i,
                table.wf(),
                forall|j: int|
                    0 <= j < i ==> {
                        &&& split_pair_key(entries@[j].0@) == Some(((#[trigger] table.rows@[j]).first@, table.rows@[j].second@))
                        &&& table.rows@[j].min == entries@[j].1
                        &&& table.rows@[j].max == entries@[j].2
                    },
            decreases entries@.len() - i,
        {
            let (key, min, max) = &entries[i];
            match split_key(key.as_str()) {
                Some((a, b)) => {
                    match table.position_of(&a, &b) {
                        Some(j) => {
                            proof {
                                let _ = split_pair_key(entries@[j as int].0@);
                                assert(same_symbols(
                                    split_pair_key(entries@[j as int].0@)->0,
                                    split_pair_key(entries@[i as int].0@)->0,
                                ));
                            }
                            return Err(CoreError::ReferenceDataUnavailable);
                        },
                        None => {},
                    }
                    let ghost old_rows = table@;
                    assert(old_rows == table.rows@);
                    table.rows.push(PairRange { first: a, second: b, min: *min, max: *max });
                    proof {
                        assert forall|p: int, q: int|
                            0 <= p < table.rows@.len() && 0 <= q < table.rows@.len() && p != q
                            implies !same_pair(#[trigger] table.rows@[p], #[trigger] table.rows@[q]) by {
                            if p == i as int {
                                assert(!names_pair(old_rows[q], a@, b@));
                            } else if q == i as int {
                                assert(!names_pair(old_rows[p], a@, b@));
                            } else {
                                assert(!same_pair(old_rows[p], old_rows[q]));
                            }
                        }
                    }
                },
                None => {
                    return Err(CoreError::ReferenceDataUnavailable);
                },
            }
            i = i + 1;
        }
        proof {
            assert forall|p: int, q: int|
                0 <= p < entries@.len() && 0 <= q < entries@.len() && p != q
                implies !same_symbols(
                    #[trigger] split_pair_key(entries@[p].0@)->0,
                    #[trigger] split_pair_key(entries@[q].0@)->0,
                ) by {
                assert(!same_pair(table.rows@[p], table.rows@[q]));
            }
            assert forall|p: int| 0 <= p < entries@.len()
                implies (#[trigger] split_pair_key(entries@[p].0@)) is Some by {
                let _ = table.rows@[p];
            }
        }
        Ok(table)
    }

    /// A lookup finds the same range whichever order the two symbols are given in.
    pub proof fn lemma_range_symmetric(&self, a: Seq<char>, b: Seq<char>)
        requires
            self.wf(),
        ensures
            self.range_of(a, b) == self.range_of(b, a),
            self.average_twice_of(a, b) == self.average_twice_of(b, a),
    {
        let rows = self@;
        if exists|i: int| 0 <= i < rows.len() && names_pair(#[trigger] rows[i], a, b) {
            let i = choose|i: int| 0 <= i < rows.len() && names_pair(#[trigger] rows[i], a, b);
            let j = choose|j: int| 0 <= j < rows.len() && names_pair(#[trigger] rows[j], b, a);
            assert(names_pair(rows[i], b, a));
            if i != j {
                assert(!same_pair(rows[i], rows[j]));
            }
        } else {
            assert forall|j: int| 0 <= j < rows.len() implies !names_pair(#[trigger] rows[j], b, a) by {
                if names_pair(rows[j], b, a) {
                    assert(names_pair(rows[j], a, b));
                }
            }
        }
    }

    /// The index of the row for {a, b}, if there is one.
    fn position_of(&self, a: &String, b: &String) -> (r: Option<usize>)
        requires
            self.wf(),
        ensures
            match r {
                Some(i) => i < self@.len() && names_pair(self@[i as int], a@, b@),
                None => forall|i: int| 0 <= i < self@.len() ==> !names_pair(#[trigger] self@[i], a@, b@),
            },
    {
        let mut i: usize = 0;
        while i < self.rows.len()
            invariant
                i <= self.rows@.len(),
                forall|j: int| 0 <= j < i ==> !names_pair(#[trigger] self.rows@[j], a@, b@),
            decreases self.rows@.len() - i,
        {
            let e = &self.rows[i];
            if (e.first == *a && e.second == *b) || (e.first == *b && e.second == *a) {
                return Some(i);
            }
            i = i + 1;
        }
        None
    }

    /// Looks up the bond-length range of {a, b}, in either symbol order.
    pub fn lookup_range(&self, a: &String, b: &String) -> (r: Option<(u32, u32)>)
        requires
            self.wf(),
        ensures
            r == self.range_of(a@, b@),
    {
        match self.position_of(a, b) {
            Some(i) => {
                proof {
                    let rows = self@;
                    let c = choose|c: int| 0 <= c < rows.len() && names_pair(#[trigger] rows[c], a@, b@);
                    if c != i as int {
                        assert(!same_pair(rows[c], rows[i as int]));
                    }
                }
                Some((self.rows[i].min, self.rows[i].max))
            },
            None => None,
        }
    }

    /// Looks up twice the average bond length of {a, b}: `min + max` of its range.
    pub fn lookup_average_twice(&self, a: &String, b: &String) -> (r: Option<u64>)
        requires
            self.wf(),
        ensures
            match r {
                Some(s) => self.average_twice_of(a@, b@) == Some(s as int) && s < 0x2_0000_0000,
                None => self.average_twice_of(a@, b@) is None,
            },
    {
        match self.lookup_range(a, b) {
            Some((lo, hi)) => Some(lo as u64 + hi as u64),
            None => None,
        }
    }
}

} // verus!
