//! The dependency-file prober.  Directory listings can become visible before
//! a registrant's sentinel is flushed, so the collector identifies future
//! registrants positively instead: a build-output directory whose compiled
//! build-script artifact depends on a source file that names the collector
//! as a quoted literal and invokes this crate's registration routine is
//! taken as a registrant that will eventually write a sentinel.  This is a
//! documented best-effort heuristic gating continued polling, not a
//! correctness-critical predicate.

use vstd::prelude::*;

use crate::text::{
    contains_substr, ends_with_str, has_substr, nonempty_segments, spec_ends_with,
    spec_starts_with, spec_lines, split_lines, split_on, split_on_char, starts_with_str, str_views,
};

verus! {

/// The package owning a build-output directory, derived from the directory
/// name by stripping the trailing `-<fingerprint>` at the last hyphen;
/// `None` when the name has no hyphen.
pub open spec fn spec_package_of(name: Seq<char>) -> Option<Seq<char>>
    decreases name.len(),
{
    if name.len() == 0 {
        None
    } else if name.last() == '-' {
        Some(name.drop_last())
    } else {
        spec_package_of(name.drop_last())
    }
}

/// Strip the trailing `-<fingerprint>` from a build-output directory name.
pub fn package_of_dir_name(name: &str) -> (r: Option<String>)
    ensures
        match r {
            Some(p) => spec_package_of(name@) == Some(p@),
            None => spec_package_of(name@) is None,
        },
{
    let n = name.unicode_len();
    let mut i: usize = n;
    proof {
        assert(name@.take(n as int) =~= name@);
    }
    while i > 0
        invariant
            i <= n,
            n == name@.len(),
            spec_package_of(name@) == spec_package_of(name@.take(i as int)),
        decreases i,
    {
        let c = name.get_char(i - 1);
        proof {
            assert(name@.take(i as int).last() == name@[i as int - 1]);
            assert(name@.take(i as int).drop_last() =~= name@.take(i as int - 1));
        }
        if c == '-' {
            let prefix = name.substring_char(0, i - 1);
            proof {
                assert(name@.take(i as int - 1) =~= name@.subrange(0, i as int - 1));
            }
            return Some(prefix.to_owned());
        }
        i = i - 1;
    }
    proof {
        assert(name@.take(0) =~= Seq::<char>::empty());
    }
    None
}

/// `collector` wrapped in double quotes, the shape of a string literal in a
/// registrant's build-script source.
pub open spec fn spec_quoted(collector: Seq<char>) -> Seq<char> {
    seq!['"'] + collector + seq!['"']
}

/// The probe's textual evidence: the source holds the collector's name as a
/// quoted literal and mentions this crate's registration routine.
pub open spec fn spec_source_signals(text: Seq<char>, collector: Seq<char>) -> bool {
    has_substr(text, spec_quoted(collector)) && has_substr(text, "inwelling"@)
}

/// Decide `spec_source_signals` on one dependency-listed source text.
pub fn source_signals_registration(text: &str, collector: &str) -> (r: bool)
    ensures
        r == spec_source_signals(text@, collector@),
{
    proof {
        reveal_strlit("\"");
        assert("\""@ =~= seq!['"']);
    }
    let mut needle: String = String::from_str("\"");
    needle.append(collector);
    needle.append("\"");
    proof {
        assert(needle@ =~= spec_quoted(collector@));
    }
    let quoted = contains_substr(text, needle.as_str());
    if !quoted {
        return false;
    }
    contains_substr(text, "inwelling")
}

/// One probed build-output directory: its name and the text of every source
/// file its build-script artifact's dependency listing references.
pub struct ProbedDir {
    pub dir_name: String,
    pub dep_sources: Vec<String>,
}

/// The mathematical value of one probed directory.
pub open spec fn probed_view(d: ProbedDir) -> (Seq<char>, Seq<Seq<char>>) {
    (d.dir_name@, str_views(d.dep_sources@))
}

/// The mathematical values of a sequence of probed directories.
pub open spec fn probed_views(v: Seq<ProbedDir>) -> Seq<(Seq<char>, Seq<Seq<char>>)> {
    v.map_values(|d: ProbedDir| probed_view(d))
}

/// Some dependency-listed source of this directory signals registration.
pub open spec fn spec_dir_signals(dv: (Seq<char>, Seq<Seq<char>>), collector: Seq<char>) -> bool {
    exists|j: int| 0 <= j < dv.1.len() && spec_source_signals(dv.1[j], collector)
}

/// The packages known to intend registration, in sighting order: the
/// package of every signalling directory whose name yields one.
pub open spec fn spec_pending_packages(
    dirs: Seq<(Seq<char>, Seq<Seq<char>>)>,
    collector: Seq<char>,
) -> Seq<Seq<char>>
    decreases dirs.len(),
{
    if dirs.len() == 0 {
        Seq::empty()
    } else {
        let prev = spec_pending_packages(dirs.drop_last(), collector);
        if spec_dir_signals(dirs.last(), collector) {
            match spec_package_of(dirs.last().0) {
                Some(p) => prev.push(p),
                None => prev,
            }
        } else {
            prev
        }
    }
}

/// The directories accounted for, in sighting order: the name of every
/// signalling directory whose name yields a package.
pub open spec fn spec_accounted_dirs(
    dirs: Seq<(Seq<char>, Seq<Seq<char>>)>,
    collector: Seq<char>,
) -> Seq<Seq<char>>
    decreases dirs.len(),
{
    if dirs.len() == 0 {
        Seq::empty()
    } else {
        let prev = spec_accounted_dirs(dirs.drop_last(), collector);
        if spec_dir_signals(dirs.last(), collector) && spec_package_of(dirs.last().0) is Some {
            prev.push(dirs.last().0)
        } else {
            prev
        }
    }
}

fn any_source_signals(sources: &Vec<String>, collector: &str) -> (r: bool)
    ensures
        r == (exists|j: int|
            0 <= j < sources@.len() && spec_source_signals(str_views(sources@)[j], collector@)),
{
    let mut j: usize = 0;
    while j < sources.len()
        invariant
            j <= sources@.len(),
            forall|jj: int|
                0 <= jj < j ==> !spec_source_signals(str_views(sources@)[jj], collector@),
        decreases sources@.len() - j,
    {
        if source_signals_registration(sources[j].as_str(), collector) {
            proof {
                assert(spec_source_signals(str_views(sources@)[j as int], collector@));
            }
            return true;
        }
        j = j + 1;
    }
    false
}

/// Run the prober over every sighted build-output directory, producing the
/// pending-package set and the accounted-for directory set.
pub fn probe_pending(dirs: &Vec<ProbedDir>, collector: &str) -> (r: (Vec<String>, Vec<String>))
    ensures
        str_views(r.0@) == spec_pending_packages(probed_views(dirs@), collector@),
        str_views(r.1@) == spec_accounted_dirs(probed_views(dirs@), collector@),
{
    let mut pending: Vec<String> = Vec::new();
    let mut accounted: Vec<String> = Vec::new();
    let n = dirs.len();
    let mut i: usize = 0;
    proof {
        assert(probed_views(dirs@).take(0) =~= Seq::<(Seq<char>, Seq<Seq<char>>)>::empty());
        assert(str_views(pending@) =~= Seq::<Seq<char>>::empty());
        assert(str_views(accounted@) =~= Seq::<Seq<char>>::empty());
    }
    while i < n
        invariant
            i <= n,
            n == dirs@.len(),
            str_views(pending@) == spec_pending_packages(
                probed_views(dirs@).take(i as int),
                collector@,
            ),
            str_views(accounted@) == spec_accounted_dirs(
                probed_views(dirs@).take(i as int),
                collector@,
            ),
        decreases n - i,
    {
        proof {
            assert(probed_views(dirs@).take(i as int + 1) =~= probed_views(dirs@).take(
                i as int,
            ).push(probed_view(dirs@[i as int])));
            assert(probed_views(dirs@).take(i as int + 1).drop_last() =~= probed_views(
                dirs@,
            ).take(i as int));
        }
        let ghost dv = probed_view(dirs@[i as int]);
        proof {
            assert(probed_views(dirs@).take(i as int + 1).last() == dv);
            assert(dv.1 == str_views(dirs@[i as int].dep_sources@));
        }
        let sig = any_source_signals(&dirs[i].dep_sources, collector);
        proof {
            assert(sig == spec_dir_signals(dv, collector@));
        }
        if sig {
            match package_of_dir_name(dirs[i].dir_name.as_str()) {
                Some(pkg) => {
                    proof {
                        assert(spec_package_of(dv.0) == Some(pkg@));
                    }
                    let ghost pv = pkg@;
                    let ghost before_p = str_views(pending@);
                    let ghost before_a = str_views(accounted@);
                    pending.push(pkg);
                    accounted.push(dirs[i].dir_name.clone());
                    proof {
                        assert(str_views(pending@) =~= before_p.push(pv));
                        assert(str_views(accounted@) =~= before_a.push(dirs@[i as int].dir_name@));
                    }
                },
                None => {
                    proof {
                        assert(spec_package_of(dv.0) is None);
                    }
                },
            }
        }
        i = i + 1;
    }
    proof {
        assert(probed_views(dirs@).take(n as int) =~= probed_views(dirs@));
    }
    (pending, accounted)
}

/// A compiler dependency listing's name: the fixed build-script artifact
/// prefix with the listing extension.
pub open spec fn spec_is_dep_listing_name(name: Seq<char>) -> bool {
    (spec_starts_with(name, "build_script_build"@) || spec_starts_with(
        name,
        "build-script-build"@,
    )) && spec_ends_with(name, ".d"@)
}

/// Whether a file name is a build-script artifact's dependency listing.
pub fn is_dep_listing_name(name: &str) -> (r: bool)
    ensures
        r == spec_is_dep_listing_name(name@),
{
    (starts_with_str(name, "build_script_build") || starts_with_str(name, "build-script-build"))
        && ends_with_str(name, ".d")
}

/// The remainder of a line after its first `": "` marker, if any: a
/// dependency listing maps an artifact to its sources as
/// `artifact: source source ...`, and the marker is sought as the two-char
/// sequence so that a drive-letter colon inside the artifact path does not
/// split the line.
pub open spec fn spec_after_marker(line: Seq<char>) -> Option<Seq<char>>
    decreases line.len(),
{
    if line.len() < 2 {
        None
    } else if line[0] == ':' && line[1] == ' ' {
        Some(line.skip(2))
    } else {
        spec_after_marker(line.drop_first())
    }
}

/// The source paths one listing line references.
pub open spec fn spec_line_dep_sources(line: Seq<char>) -> Seq<Seq<char>> {
    match spec_after_marker(line) {
        None => Seq::empty(),
        Some(suffix) => nonempty_segments(split_on(suffix, ' ')),
    }
}

/// The source paths a sequence of listing lines references, in order.
pub open spec fn spec_lines_dep_sources(ls: Seq<Seq<char>>) -> Seq<Seq<char>>
    decreases ls.len(),
{
    if ls.len() == 0 {
        Seq::empty()
    } else {
        spec_lines_dep_sources(ls.drop_last()) + spec_line_dep_sources(ls.last())
    }
}

/// The source paths a whole dependency listing references.
pub open spec fn spec_dep_sources(text: Seq<char>) -> Seq<Seq<char>> {
    spec_lines_dep_sources(spec_lines(text))
}

fn after_marker(line: &str) -> (r: Option<String>)
    ensures
        match r {
            Some(suffix) => spec_after_marker(line@) == Some(suffix@),
            None => spec_after_marker(line@) is None,
        },
{
    let n = line.unicode_len();
    let mut i: usize = 0;
    proof {
        assert(line@.skip(0) =~= line@);
    }
    while i < n && i + 1 < n
        invariant
            i <= n,
            n == line@.len(),
            spec_after_marker(line@) == spec_after_marker(line@.skip(i as int)),
        decreases n - i,
    {
        proof {
            assert(line@.skip(i as int)[0] == line@[i as int]);
            assert(line@.skip(i as int)[1] == line@[i as int + 1]);
            assert(line@.skip(i as int).drop_first() =~= line@.skip(i as int + 1));
        }
        if line.get_char(i) == ':' && line.get_char(i + 1) == ' ' {
            let suffix = line.substring_char(i + 2, n);
            proof {
                assert(line@.skip(i as int).skip(2) =~= line@.subrange(i as int + 2, n as int));
            }
            return Some(suffix.to_owned());
        }
        i = i + 1;
    }
    proof {
        assert(line@.skip(i as int).len() < 2);
    }
    None
}

fn keep_nonempty(segs: &Vec<String>) -> (r: Vec<String>)
    ensures
        str_views(r@) == nonempty_segments(str_views(segs@)),
{
    let mut out: Vec<String> = Vec::new();
    let n = segs.len();
    let mut i: usize = 0;
    proof {
        assert(str_views(segs@).take(0) =~= Seq::<Seq<char>>::empty());
        assert(str_views(out@) =~= nonempty_segments(str_views(segs@).take(0)));
    }
    while i < n
        invariant
            i <= n,
            n == segs@.len(),
            str_views(out@) == nonempty_segments(str_views(segs@).take(i as int)),
        decreases n - i,
    {
        proof {
            assert(str_views(segs@).take(i as int + 1) =~= str_views(segs@).take(i as int).push(
                str_views(segs@)[i as int],
            ));
            assert(str_views(segs@).take(i as int + 1).drop_last() =~= str_views(segs@).take(
                i as int,
            ));
        }
        if !segs[i].as_str().is_empty() {
            let ghost before = str_views(out@);
            out.push(segs[i].clone());
            proof {
                assert(str_views(out@) =~= before.push(str_views(segs@)[i as int]));
            }
        }
        i = i + 1;
    }
    proof {
        assert(str_views(segs@).take(n as int) =~= str_views(segs@));
    }
    out
}

/// Read the source paths out of a compiler dependency listing: for each
/// line carrying the `": "` marker, the whitespace-separated paths after
/// it.
pub fn dep_listing_sources(text: &str) -> (r: Vec<String>)
    ensures
        str_views(r@) == spec_dep_sources(text@),
{
    let lines = split_lines(text);
    let ghost lv = str_views(lines@);
    let mut out: Vec<String> = Vec::new();
    let n = lines.len();
    let mut i: usize = 0;
    proof {
        assert(lv.take(0) =~= Seq::<Seq<char>>::empty());
        assert(str_views(out@) =~= spec_lines_dep_sources(lv.take(0)));
    }
    while i < n
        invariant
            i <= n,
            n == lines@.len(),
            lv == str_views(lines@),
            str_views(out@) == spec_lines_dep_sources(lv.take(i as int)),
        decreases n - i,
    {
        proof {
            assert(lv.take(i as int + 1) =~= lv.take(i as int).push(lv[i as int]));
            assert(lv.take(i as int + 1).drop_last() =~= lv.take(i as int));
            assert(lv.take(i as int + 1).last() == lv[i as int]);
        }
        match after_marker(lines[i].as_str()) {
            None => {
                proof {
                    assert(spec_line_dep_sources(lv[i as int]) =~= Seq::<Seq<char>>::empty());
                    assert(str_views(out@) =~= spec_lines_dep_sources(lv.take(i as int + 1)));
                }
            },
            Some(suffix) => {
                let segs = split_on_char(suffix.as_str(), ' ');
                let mut tokens = keep_nonempty(&segs);
                let ghost tv = str_views(tokens@);
                let ghost before = str_views(out@);
                out.append(&mut tokens);
                proof {
                    assert(str_views(out@) =~= before + tv);
                    assert(spec_line_dep_sources(lv[i as int]) == tv);
                }
            },
        }
        i = i + 1;
    }
    proof {
        assert(lv.take(n as int) =~= lv);
    }
    out
}

} // verus!
