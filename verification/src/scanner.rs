//! The build-tree scanner's accumulation state: the manifest location table,
//! mapping each registrant's manifest directory (the first line of its
//! sentinel record) to the collector names the record lists.  The table is
//! merged first-write-wins per manifest directory: a duplicate sighting of a
//! manifest — a stale or duplicated build-output directory — keeps the first
//! record and is no error.

use vstd::prelude::*;

use crate::record::{parse_record, spec_parse_record};
use crate::text::{str_eq, str_views};

verus! {

/// One sighting of a build-output directory: the directory's name and the
/// content of its sentinel file, if that file exists.
pub struct ScanEntry {
    /// The build-output directory's own name (its last path component).
    pub dir_name: String,
    /// The full content of `out/<sentinel file>` under it, or `None` when no
    /// sentinel exists there.
    pub sentinel: Option<String>,
}

/// One row of the location table.
pub struct LocationEntry {
    /// The registrant's manifest directory, exactly as its record's first
    /// line holds it.
    pub manifest_path: String,
    /// The collector names the record lists, in order, repetitions kept.
    pub collectors: Vec<String>,
}

/// The manifest location table accumulated over scanner passes.
pub struct LocationTable {
    pub entries: Vec<LocationEntry>,
}

/// A sentinel file exists but its content has no first line.
#[derive(Debug)]
pub struct MalformedRecord {
    /// The name of the build-output directory whose sentinel is malformed.
    pub dir_name: String,
}

/// The mathematical value of one table row.
pub open spec fn entry_view(e: LocationEntry) -> (Seq<char>, Seq<Seq<char>>) {
    (e.manifest_path@, str_views(e.collectors@))
}

/// The mathematical value of one sighting.
pub open spec fn scan_entry_view(e: ScanEntry) -> (Seq<char>, Option<Seq<char>>) {
    (
        e.dir_name@,
        match e.sentinel {
            Some(c) => Some(c@),
            None => None,
        },
    )
}

/// The mathematical values of a sequence of sightings.
pub open spec fn scan_views(v: Seq<ScanEntry>) -> Seq<(Seq<char>, Option<Seq<char>>)> {
    v.map_values(|e: ScanEntry| scan_entry_view(e))
}

impl View for LocationTable {
    type V = Seq<(Seq<char>, Seq<Seq<char>>)>;

    open spec fn view(&self) -> Seq<(Seq<char>, Seq<Seq<char>>)> {
        self.entries@.map_values(|e: LocationEntry| entry_view(e))
    }
}

/// Whether the table already has a row for `path`.
pub open spec fn spec_has_path(tbl: Seq<(Seq<char>, Seq<Seq<char>>)>, path: Seq<char>) -> bool {
    exists|i: int| 0 <= i < tbl.len() && tbl[i].0 == path
}

/// A table is well formed when no manifest directory has two rows.
pub open spec fn table_wf(tbl: Seq<(Seq<char>, Seq<Seq<char>>)>) -> bool {
    forall|i: int, j: int| 0 <= i < j < tbl.len() ==> tbl[i].0 != tbl[j].0
}

/// First write wins: a row for a directory already present is kept as it is.
pub open spec fn spec_insert_first_wins(
    tbl: Seq<(Seq<char>, Seq<Seq<char>>)>,
    path: Seq<char>,
    collectors: Seq<Seq<char>>,
) -> Seq<(Seq<char>, Seq<Seq<char>>)> {
    if spec_has_path(tbl, path) {
        tbl
    } else {
        tbl.push((path, collectors))
    }
}

/// A sighting whose sentinel exists but does not parse.
pub open spec fn sighting_malformed(ev: (Seq<char>, Option<Seq<char>>)) -> bool {
    match ev.1 {
        Some(content) => spec_parse_record(content) is None,
        None => false,
    }
}

/// The table after merging a pass's sightings, in order, first write wins.
/// A sighting without a sentinel contributes nothing; a malformed one is
/// skipped here and reported by the merging pass instead.
pub open spec fn spec_merge(
    tbl: Seq<(Seq<char>, Seq<Seq<char>>)>,
    entries: Seq<(Seq<char>, Option<Seq<char>>)>,
) -> Seq<(Seq<char>, Seq<Seq<char>>)>
    decreases entries.len(),
{
    if entries.len() == 0 {
        tbl
    } else {
        let prev = spec_merge(tbl, entries.drop_last());
        match entries.last().1 {
            None => prev,
            Some(content) => match spec_parse_record(content) {
                None => prev,
                Some((dir, cs)) => spec_insert_first_wins(prev, dir, cs),
            },
        }
    }
}

impl LocationTable {
    /// The empty table.
    pub fn new() -> (r: LocationTable)
        ensures
            r@ == Seq::<(Seq<char>, Seq<Seq<char>>)>::empty(),
    {
        let r = LocationTable { entries: Vec::new() };
        proof {
            assert(r@ =~= Seq::<(Seq<char>, Seq<Seq<char>>)>::empty());
        }
        r
    }

    /// Whether a row for `path` exists.
    pub fn has_path(&self, path: &str) -> (r: bool)
        ensures
            r == spec_has_path(self@, path@),
    {
        let n = self.entries.len();
        let mut i: usize = 0;
        while i < n
            invariant
                i <= n,
                n == self.entries@.len(),
                forall|j: int| 0 <= j < i ==> self@[j].0 != path@,
            decreases n - i,
        {
            if str_eq(self.entries[i].manifest_path.as_str(), path) {
                proof {
                    assert(self@[i as int].0 == path@);
                }
                return true;
            }
            i = i + 1;
        }
        false
    }

    /// Insert a row unless its manifest directory already has one.
    pub fn insert_first_wins(&mut self, path: String, collectors: Vec<String>)
        ensures
            final(self)@ == spec_insert_first_wins(old(self)@, path@, str_views(collectors@)),
    {
        if !self.has_path(path.as_str()) {
            let ghost before = self@;
            let ghost pv = path@;
            let ghost cv = str_views(collectors@);
            self.entries.push(LocationEntry { manifest_path: path, collectors });
            proof {
                assert(self@ =~= before.push((pv, cv)));
            }
        }
    }

    /// Merge one scanner pass into the table: for every sighted directory
    /// with a sentinel, parse the record and enter its manifest directory
    /// against its collector list, first write wins.  A sentinel that fails
    /// to parse aborts the pass with the first offending directory; the
    /// table then keeps the rows merged before it.
    pub fn merge_pass(&mut self, entries: &Vec<ScanEntry>) -> (r: Result<(), MalformedRecord>)
        ensures
            match r {
                Ok(()) => {
                    &&& final(self)@ == spec_merge(old(self)@, scan_views(entries@))
                    &&& forall|i: int|
                        0 <= i < entries@.len() ==> !sighting_malformed(scan_views(entries@)[i])
                },
                Err(m) => {
                    &&& exists|i: int|
                        {
                            &&& 0 <= i < entries@.len()
                            &&& #[trigger] sighting_malformed(scan_views(entries@)[i])
                            &&& m.dir_name@ == scan_views(entries@)[i].0
                            &&& forall|j: int|
                                0 <= j < i ==> !sighting_malformed(scan_views(entries@)[j])
                        }
                },
            },
            table_wf(old(self)@) ==> table_wf(final(self)@),
    {
        let ghost orig = self@;
        let n = entries.len();
        let mut i: usize = 0;
        while i < n
            invariant
                i <= n,
                n == entries@.len(),
                orig == old(self)@,
                self@ == spec_merge(orig, scan_views(entries@).take(i as int)),
                forall|j: int| 0 <= j < i ==> !sighting_malformed(scan_views(entries@)[j]),
                table_wf(orig) ==> table_wf(self@),
            decreases n - i,
        {
            proof {
                assert(scan_views(entries@).take(i as int + 1) =~= scan_views(entries@).take(
                    i as int,
                ).push(scan_entry_view(entries@[i as int])));
                assert(scan_views(entries@).take(i as int + 1).drop_last() =~= scan_views(
                    entries@,
                ).take(i as int));
            }
            match &entries[i].sentinel {
                None => {},
                Some(content) => {
                    match parse_record(content.as_str()) {
                        None => {
                            proof {
                                assert(sighting_malformed(scan_views(entries@)[i as int]));
                            }
                            return Err(MalformedRecord { dir_name: entries[i].dir_name.clone() });
                        },
                        Some(rec) => {
                            self.insert_first_wins(rec.manifest_dir, rec.collectors);
                        },
                    }
                },
            }
            i = i + 1;
        }
        proof {
            assert(scan_views(entries@).take(n as int) =~= scan_views(entries@));
        }
        Ok(())
    }
}

} // verus!
