//! Build-script metadata discovery.
//!
//! Downstream packages announce themselves to an upstream collector by
//! writing an append-only sentinel record into their own build-output
//! directory.  The collector, running as an independent process, polls the
//! shared build-output tree, decides when every known registrant has been
//! accounted for, and resolves each registration against the registrant's
//! manifest.  This crate holds the protocol's logic: the record format, the
//! location-table merge, the synchronization decisions, the prober
//! heuristics, the orchestrator-flag recovery, and the manifest resolution.
//! Filesystem and environment access stay with the caller, which feeds the
//! observed values in and carries the decisions out.

use vstd::prelude::*;

pub mod flags;
pub mod manifest;
pub mod probe;
pub mod record;
pub mod resolve;
pub mod scanner;
pub mod sync;
pub mod text;

use crate::text::{ends_with_str, spec_ends_with, str_views};

verus! {

/// Information resolved from one registrant.
#[derive(Debug)]
pub struct Package {
    /// The name the registrant's manifest declares.
    pub name: String,
    /// The registrant's manifest directory, as its record's first line
    /// holds it.
    pub manifest: String,
    /// The metadata value the manifest addresses to the collector.
    pub metadata: toml::Value,
    /// The registrant's source-file paths, when the collector asked for
    /// them, else `None`.
    pub rs_paths: Option<Vec<String>>,
}

/// Everything resolved from the downstream registrants.
#[derive(Debug)]
pub struct Downstream {
    pub packages: Vec<Package>,
}

impl Default for Downstream {
    /// No registrants resolved.
    fn default() -> (r: Downstream)
        ensures
            r.packages@.len() == 0,
    {
        Downstream { packages: Vec::new() }
    }
}

/// A path naming a Rust source file: the `.rs` suffix with a nonempty
/// file-name stem before it, so a file literally named `.rs` does not
/// count.
pub open spec fn spec_is_rs_path(p: Seq<char>) -> bool {
    &&& spec_ends_with(p, ".rs"@)
    &&& p.len() >= 4
    &&& p[p.len() - 4] != '/'
    &&& p[p.len() - 4] != '\\'
}

/// The source-file paths among `paths`, in order.
pub open spec fn spec_rs_only(paths: Seq<Seq<char>>) -> Seq<Seq<char>>
    decreases paths.len(),
{
    if paths.len() == 0 {
        Seq::empty()
    } else {
        let prev = spec_rs_only(paths.drop_last());
        if spec_is_rs_path(paths.last()) {
            prev.push(paths.last())
        } else {
            prev
        }
    }
}

/// Append to `rs_paths` every listed path that names a Rust source file.
/// The caller lists a registrant's source directories; this keeps exactly
/// the `.rs` files.
pub fn scan_rs_paths(paths: &Vec<String>, rs_paths: &mut Vec<String>)
    ensures
        str_views(final(rs_paths)@) == str_views(old(rs_paths)@) + spec_rs_only(
            str_views(paths@),
        ),
{
    let n = paths.len();
    let mut i: usize = 0;
    proof {
        assert(str_views(paths@).take(0) =~= Seq::<Seq<char>>::empty());
        assert(str_views(rs_paths@) =~= str_views(old(rs_paths)@) + spec_rs_only(
            str_views(paths@).take(0),
        ));
    }
    while i < n
        invariant
            i <= n,
            n == paths@.len(),
            str_views(rs_paths@) == str_views(old(rs_paths)@) + spec_rs_only(
                str_views(paths@).take(i as int),
            ),
        decreases n - i,
    {
        proof {
            assert(str_views(paths@).take(i as int + 1) =~= str_views(paths@).take(i as int).push(
                str_views(paths@)[i as int],
            ));
            assert(str_views(paths@).take(i as int + 1).drop_last() =~= str_views(paths@).take(
                i as int,
            ));
        }
        let path = paths[i].as_str();
        let is_rs = if ends_with_str(path, ".rs") {
            let plen = path.unicode_len();
            if plen >= 4 {
                let c = path.get_char(plen - 4);
                c != '/' && c != '\\'
            } else {
                false
            }
        } else {
            false
        };
        if is_rs {
            let ghost before = str_views(rs_paths@);
            rs_paths.push(paths[i].clone());
            proof {
                assert(str_views(rs_paths@) =~= before.push(str_views(paths@)[i as int]));
                assert(str_views(rs_paths@) =~= str_views(old(rs_paths)@) + spec_rs_only(
                    str_views(paths@).take(i as int + 1),
                ));
            }
        }
        i = i + 1;
    }
    proof {
        assert(str_views(paths@).take(n as int) =~= str_views(paths@));
    }
}

/// Options accepted by the collector's resolution pass.
pub struct Opts {
    /// Emit a cache-invalidation hint for each registrant manifest, so the
    /// collector's build script re-runs when a manifest changes.
    pub watch_manifest: bool,
    /// Emit a cache-invalidation hint for each registrant source file.
    pub watch_rs_files: bool,
    /// Return the registrant source-file paths in the resolved packages.
    pub dump_rs_paths: bool,
}

impl Default for Opts {
    /// Watch manifests only: no source-file watching, no source-path dump.
    fn default() -> (r: Opts)
        ensures
            r.watch_manifest,
            !r.watch_rs_files,
            !r.dump_rs_paths,
    {
        Opts { watch_manifest: true, watch_rs_files: false, dump_rs_paths: false }
    }
}

} // verus!
