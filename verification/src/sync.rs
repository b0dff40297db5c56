//! The synchronization loop's decisions.  The collector polls the shared
//! build-output tree; the loop's correctness invariant is the fixed point:
//! it may stop only when no known-pending registrant remains unaccounted
//! for.  Two termination signals are supported.  The quiescence variant
//! rescans the whole tree after a pause and stops once a pass lists no path
//! it has not already seen.  The probe variant stops unless some sighted
//! directory is still expected to produce a sentinel: it is not yet
//! accounted for, its name-derived package is pending, and it has no
//! sentinel.  The caller runs the loop itself, since each iteration is a
//! filesystem walk and a pause.

use vstd::prelude::*;

use crate::probe::{package_of_dir_name, spec_package_of};
use crate::text::{lemma_push_contains, names_contain, str_views};

verus! {

/// The paths a quiescence-variant collector has listed so far.
pub struct SeenPaths {
    pub paths: Vec<String>,
}

/// Whether `p` has been listed in an earlier pass.
pub open spec fn spec_seen(s: SeenPaths, p: Seq<char>) -> bool {
    str_views(s.paths@).contains(p)
}

impl SeenPaths {
    /// No path seen yet.
    pub fn new() -> (r: SeenPaths)
        ensures
            forall|p: Seq<char>| !spec_seen(r, p),
    {
        let r = SeenPaths { paths: Vec::new() };
        proof {
            assert(forall|p: Seq<char>| !str_views(r.paths@).contains(p));
        }
        r
    }

    /// Record one full listing of the build-output tree.  Returns whether
    /// the listing held any path not seen before — the signal to keep
    /// polling.
    pub fn note_pass(&mut self, listed: &Vec<String>) -> (fresh: bool)
        ensures
            fresh == (exists|j: int|
                0 <= j < listed@.len() && !spec_seen(*old(self), str_views(listed@)[j])),
            forall|p: Seq<char>|
                #[trigger] spec_seen(*final(self), p) == (spec_seen(*old(self), p) || str_views(
                    listed@,
                ).contains(p)),
    {
        let mut fresh = false;
        let n = listed.len();
        let mut j: usize = 0;
        while j < n
            invariant
                j <= n,
                n == listed@.len(),
                fresh == (exists|jj: int|
                    0 <= jj < j && !spec_seen(*old(self), str_views(listed@)[jj])),
                forall|p: Seq<char>|
                    #[trigger] spec_seen(*self, p) == (spec_seen(*old(self), p) || str_views(
                        listed@,
                    ).take(j as int).contains(p)),
            decreases n - j,
        {
            let ghost prev = *self;
            let ghost item = str_views(listed@)[j as int];
            proof {
                assert(str_views(listed@).take(j as int + 1) =~= str_views(listed@).take(
                    j as int,
                ).push(item));
            }
            let known = names_contain(&self.paths, listed[j].as_str());
            proof {
                assert(known == spec_seen(prev, item));
            }
            if !known {
                proof {
                    // not seen at entry to this pass either, else the
                    // invariant would make it seen now
                    assert(!spec_seen(*old(self), item));
                }
                let ghost before = str_views(self.paths@);
                self.paths.push(listed[j].clone());
                proof {
                    assert(str_views(self.paths@) =~= before.push(item));
                    assert(str_views(self.paths@)[before.len() as int] == item);
                    assert(spec_seen(*self, item));
                    assert forall|p: Seq<char>|
                        #[trigger] spec_seen(*self, p) == (spec_seen(prev, p) || p == item) by {
                        if str_views(self.paths@).contains(p) {
                            let w = choose|w: int|
                                0 <= w < str_views(self.paths@).len() && str_views(self.paths@)[w]
                                    == p;
                            if w < before.len() {
                                assert(before[w] == p);
                                assert(spec_seen(prev, p));
                            } else {
                                assert(p == item);
                            }
                        }
                        if spec_seen(prev, p) {
                            let w = choose|w: int| 0 <= w < before.len() && before[w] == p;
                            assert(str_views(self.paths@)[w] == p);
                        }
                    }
                }
                proof {
                    assert forall|p: Seq<char>|
                        #[trigger] spec_seen(*self, p) == (spec_seen(*old(self), p) || str_views(
                            listed@,
                        ).take(j as int + 1).contains(p)) by {
                        lemma_push_contains(str_views(listed@).take(j as int), item, p);
                        assert(spec_seen(prev, p) == (spec_seen(*old(self), p) || str_views(
                            listed@,
                        ).take(j as int).contains(p)));
                    }
                }
                fresh = true;
            } else {
                proof {
                    if !spec_seen(*old(self), item) {
                        // seen now but not at entry: an earlier iteration of
                        // this pass added it, so that iteration was fresh
                        assert(str_views(listed@).take(j as int).contains(item));
                        let w = choose|w: int|
                            0 <= w < j && str_views(listed@).take(j as int)[w] == item;
                        assert(str_views(listed@)[w] == item);
                        assert(!spec_seen(*old(self), str_views(listed@)[w]));
                    }
                    assert forall|p: Seq<char>|
                        #[trigger] spec_seen(*self, p) == (spec_seen(*old(self), p) || str_views(
                            listed@,
                        ).take(j as int + 1).contains(p)) by {
                        lemma_push_contains(str_views(listed@).take(j as int), item, p);
                        assert(spec_seen(prev, p) == (spec_seen(*old(self), p) || str_views(
                            listed@,
                        ).take(j as int).contains(p)));
                    }
                }
            }
            j = j + 1;
        }
        proof {
            assert(str_views(listed@).take(n as int) =~= str_views(listed@));
        }
        fresh
    }
}

/// One sighted build-output directory and whether its sentinel exists.
pub struct DirStatus {
    pub dir_name: String,
    pub has_sentinel: bool,
}

/// The mathematical value of one sighting.
pub open spec fn dir_status_view(d: DirStatus) -> (Seq<char>, bool) {
    (d.dir_name@, d.has_sentinel)
}

/// The mathematical values of a sequence of sightings.
pub open spec fn dir_status_views(v: Seq<DirStatus>) -> Seq<(Seq<char>, bool)> {
    v.map_values(|d: DirStatus| dir_status_view(d))
}

/// A directory that keeps the loop scanning: not accounted for, its
/// name-derived package known to be pending, and no sentinel yet.
pub open spec fn spec_dir_blocks(
    dv: (Seq<char>, bool),
    pending: Seq<Seq<char>>,
    accounted: Seq<Seq<char>>,
) -> bool {
    &&& !accounted.contains(dv.0)
    &&& match spec_package_of(dv.0) {
        Some(p) => pending.contains(p),
        None => false,
    }
    &&& !dv.1
}

/// The fixed point: no sighted directory still blocks.
pub open spec fn spec_sync_done(
    dirs: Seq<(Seq<char>, bool)>,
    pending: Seq<Seq<char>>,
    accounted: Seq<Seq<char>>,
) -> bool {
    forall|i: int| 0 <= i < dirs.len() ==> !spec_dir_blocks(dirs[i], pending, accounted)
}

/// The loop's two states.
pub enum SyncState {
    /// Keep polling: some known registrant has not written yet.
    Scanning,
    /// The fixed point is reached; the accumulated table is the answer.
    Done,
}

/// Decide whether the probe-variant loop may stop after a scan: it stays in
/// `Scanning` exactly as long as some directory blocks the fixed point.
pub fn sync_step(
    dirs: &Vec<DirStatus>,
    pending: &Vec<String>,
    accounted: &Vec<String>,
) -> (r: SyncState)
    ensures
        r is Done == spec_sync_done(
            dir_status_views(dirs@),
            str_views(pending@),
            str_views(accounted@),
        ),
{
    let n = dirs.len();
    let mut i: usize = 0;
    while i < n
        invariant
            i <= n,
            n == dirs@.len(),
            forall|k: int|
                0 <= k < i ==> !spec_dir_blocks(
                    dir_status_views(dirs@)[k],
                    str_views(pending@),
                    str_views(accounted@),
                ),
        decreases n - i,
    {
        let ghost dv = dir_status_views(dirs@)[i as int];
        if !dirs[i].has_sentinel && !names_contain(accounted, dirs[i].dir_name.as_str()) {
            match package_of_dir_name(dirs[i].dir_name.as_str()) {
                Some(pkg) => {
                    if names_contain(pending, pkg.as_str()) {
                        proof {
                            assert(spec_dir_blocks(
                                dv,
                                str_views(pending@),
                                str_views(accounted@),
                            ));
                        }
                        return SyncState::Scanning;
                    }
                },
                None => {},
            }
        }
        proof {
            assert(!spec_dir_blocks(dv, str_views(pending@), str_views(accounted@)));
        }
        i = i + 1;
    }
    SyncState::Done
}

} // verus!
