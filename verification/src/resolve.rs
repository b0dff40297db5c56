//! The manifest resolver.  Given the discovered registrations — each
//! manifest's location, the collectors its record lists, and the facts read
//! from the manifest itself — the resolver produces the final ordered set
//! of discovered packages: one entry per registered manifest that addresses
//! a metadata section to the collector and whose feature gate, if any, is
//! satisfied.

use vstd::prelude::*;

use crate::flags::opt_view;
use crate::manifest::{
    extract_manifest, toml_collector_keys_of, toml_gate_of, toml_gate_wellformed,
    toml_package_name_of, toml_parse_ok, ManifestData, ManifestError, SectionInfo,
};
use crate::text::{lemma_push_contains, names_contain, str_eq, str_views};
use crate::{Downstream, Opts, Package};

verus! {

/// The mathematical value of one collector entry.
#[verifier::ext_equal]
pub struct SectionV {
    pub collector: Seq<char>,
    pub gate: Option<Seq<char>>,
    pub metadata: toml::Value,
}

/// The mathematical value of one `SectionInfo`.
pub open spec fn section_view(s: SectionInfo) -> SectionV {
    SectionV { collector: s.collector@, gate: opt_view(s.feature_gate), metadata: s.metadata }
}

/// The mathematical values of a sequence of collector entries.
pub open spec fn sections_views(v: Seq<SectionInfo>) -> Seq<SectionV> {
    v.map_values(|s: SectionInfo| section_view(s))
}

/// One registered manifest handed to the resolver.
pub struct ResolveEntry {
    /// The manifest's location, as the location table keys it.
    pub manifest_path: String,
    /// The collector names the manifest's record lists.
    pub collectors: Vec<String>,
    /// The facts read from the manifest.
    pub data: ManifestData,
    /// The registrant's source-file paths, as listed by the caller.
    pub rs_paths: Vec<String>,
}

/// The mathematical value of one resolver input.
#[verifier::ext_equal]
pub struct EntryV {
    pub path: Seq<char>,
    pub collectors: Seq<Seq<char>>,
    pub name: Seq<char>,
    pub sections: Seq<SectionV>,
    pub rs_paths: Seq<Seq<char>>,
}

/// The mathematical value of one `ResolveEntry`.
pub open spec fn entry_view(e: ResolveEntry) -> EntryV {
    EntryV {
        path: e.manifest_path@,
        collectors: str_views(e.collectors@),
        name: e.data.package_name@,
        sections: sections_views(e.data.sections@),
        rs_paths: str_views(e.rs_paths@),
    }
}

/// The mathematical values of the resolver's inputs.
pub open spec fn entry_views(v: Seq<ResolveEntry>) -> Seq<EntryV> {
    v.map_values(|e: ResolveEntry| entry_view(e))
}

/// The mathematical value of one resolved package.
#[verifier::ext_equal]
pub struct PackageV {
    pub name: Seq<char>,
    pub manifest: Seq<char>,
    pub metadata: toml::Value,
    pub rs_paths: Option<Seq<Seq<char>>>,
}

/// The mathematical value of one `Package`.
pub open spec fn package_view(p: Package) -> PackageV {
    PackageV {
        name: p.name@,
        manifest: p.manifest@,
        metadata: p.metadata,
        rs_paths: match p.rs_paths {
            Some(v) => Some(str_views(v@)),
            None => None,
        },
    }
}

/// The mathematical value of a resolution result.
pub open spec fn down_view(d: Downstream) -> Seq<PackageV> {
    d.packages@.map_values(|p: Package| package_view(p))
}

/// The features resolved as enabled for one registrant.
pub struct RegistrantFeatures {
    /// The registrant's package name.
    pub package: String,
    /// The features enabled for it.
    pub features: Vec<String>,
}

/// The mathematical value of one registrant's feature set.
pub open spec fn feats_view(f: RegistrantFeatures) -> (Seq<char>, Seq<Seq<char>>) {
    (f.package@, str_views(f.features@))
}

/// The mathematical values of the feature environment.
pub open spec fn feats_views(v: Seq<RegistrantFeatures>) -> Seq<(Seq<char>, Seq<Seq<char>>)> {
    v.map_values(|f: RegistrantFeatures| feats_view(f))
}

/// The first collector entry addressed to `c`, if any.
pub open spec fn spec_section_for(sections: Seq<SectionV>, c: Seq<char>) -> Option<SectionV>
    decreases sections.len(),
{
    if sections.len() == 0 {
        None
    } else if sections[0].collector == c {
        Some(sections[0])
    } else {
        spec_section_for(sections.drop_first(), c)
    }
}

/// The features enabled for `pkg`: the first environment row naming it, or
/// none at all.
pub open spec fn spec_features_of(
    env: Seq<(Seq<char>, Seq<Seq<char>>)>,
    pkg: Seq<char>,
) -> Seq<Seq<char>>
    decreases env.len(),
{
    if env.len() == 0 {
        Seq::empty()
    } else if env[0].0 == pkg {
        env[0].1
    } else {
        spec_features_of(env.drop_first(), pkg)
    }
}

/// A gate is satisfied when absent, when every feature is enabled, or when
/// the gating feature is among the registrant's enabled features.
pub open spec fn spec_gate_ok(
    gate: Option<Seq<char>>,
    all_features: bool,
    feats: Seq<Seq<char>>,
) -> bool {
    match gate {
        None => true,
        Some(f) => all_features || feats.contains(f),
    }
}

/// An entry is resolved exactly when its record lists the collector, its
/// manifest addresses a section to the collector, and that section's gate
/// is satisfied.
pub open spec fn spec_selected(
    e: EntryV,
    build: Seq<char>,
    all_features: bool,
    env: Seq<(Seq<char>, Seq<Seq<char>>)>,
) -> bool {
    &&& e.collectors.contains(build)
    &&& match spec_section_for(e.sections, build) {
        Some(s) => spec_gate_ok(s.gate, all_features, spec_features_of(env, e.name)),
        None => false,
    }
}

/// The package a selected entry resolves to.
pub open spec fn spec_entry_package(e: EntryV, build: Seq<char>, dump: bool) -> PackageV {
    match spec_section_for(e.sections, build) {
        Some(s) => PackageV {
            name: e.name,
            manifest: e.path,
            metadata: s.metadata,
            rs_paths: if dump {
                Some(e.rs_paths)
            } else {
                None
            },
        },
        None => arbitrary(),
    }
}

/// The resolution of a sequence of entries, in order.
pub open spec fn spec_resolved(
    entries: Seq<EntryV>,
    build: Seq<char>,
    all_features: bool,
    env: Seq<(Seq<char>, Seq<Seq<char>>)>,
    dump: bool,
) -> Seq<PackageV>
    decreases entries.len(),
{
    if entries.len() == 0 {
        Seq::empty()
    } else {
        let prev = spec_resolved(entries.drop_last(), build, all_features, env, dump);
        if spec_selected(entries.last(), build, all_features, env) {
            prev.push(spec_entry_package(entries.last(), build, dump))
        } else {
            prev
        }
    }
}

/// Find the first collector entry addressed to `c`.
fn find_section(sections: &Vec<SectionInfo>, c: &str) -> (r: Option<usize>)
    ensures
        match r {
            Some(i) => {
                &&& i < sections@.len()
                &&& spec_section_for(sections_views(sections@), c@) == Some(
                    sections_views(sections@)[i as int],
                )
            },
            None => spec_section_for(sections_views(sections@), c@) is None,
        },
{
    let ghost sv = sections_views(sections@);
    let n = sections.len();
    let mut k: usize = 0;
    proof {
        assert(sv.skip(0) =~= sv);
    }
    while k < n
        invariant
            k <= n,
            n == sections@.len(),
            sv == sections_views(sections@),
            spec_section_for(sv, c@) == spec_section_for(sv.skip(k as int), c@),
        decreases n - k,
    {
        proof {
            assert(sv.skip(k as int)[0] == sv[k as int]);
            assert(sv.skip(k as int).drop_first() =~= sv.skip(k as int + 1));
        }
        if str_eq(sections[k].collector.as_str(), c) {
            proof {
                assert(sv[k as int].collector == c@);
            }
            return Some(k);
        }
        k = k + 1;
    }
    proof {
        assert(sv.skip(n as int) =~= Seq::<SectionV>::empty());
    }
    None
}

/// Decide a gate against the feature environment.
fn gate_allows(
    gate: &Option<String>,
    all_features: bool,
    env: &Vec<RegistrantFeatures>,
    pkg: &str,
) -> (r: bool)
    ensures
        r == spec_gate_ok(
            opt_view(*gate),
            all_features,
            spec_features_of(feats_views(env@), pkg@),
        ),
{
    let f = match gate {
        None => {
            return true;
        },
        Some(f) => f,
    };
    if all_features {
        return true;
    }
    let ghost ev = feats_views(env@);
    let n = env.len();
    let mut k: usize = 0;
    proof {
        assert(ev.skip(0) =~= ev);
    }
    while k < n
        invariant
            k <= n,
            n == env@.len(),
            !all_features,
            opt_view(*gate) == Some(f@),
            ev == feats_views(env@),
            spec_features_of(ev, pkg@) == spec_features_of(ev.skip(k as int), pkg@),
        decreases n - k,
    {
        proof {
            assert(ev.skip(k as int)[0] == ev[k as int]);
            assert(ev.skip(k as int).drop_first() =~= ev.skip(k as int + 1));
        }
        if str_eq(env[k].package.as_str(), pkg) {
            proof {
                assert(spec_features_of(ev, pkg@) == ev[k as int].1);
            }
            return names_contain(&env[k].features, f.as_str());
        }
        k = k + 1;
    }
    proof {
        assert(ev.skip(n as int) =~= Seq::<(Seq<char>, Seq<Seq<char>>)>::empty());
        assert(!Seq::<Seq<char>>::empty().contains(f@));
    }
    false
}

/// Resolve the discovered registrations into the final package set: in
/// input order, one package per entry that `spec_selected` admits, carrying
/// the section's metadata and, when asked for, the listed source paths.
/// The order is stable within one invocation and carries no further
/// meaning.
pub fn resolve(
    entries: Vec<ResolveEntry>,
    build_name: &str,
    all_features: bool,
    env: &Vec<RegistrantFeatures>,
    opts: &Opts,
) -> (r: Downstream)
    ensures
        down_view(r) == spec_resolved(
            entry_views(entries@),
            build_name@,
            all_features,
            feats_views(env@),
            opts.dump_rs_paths,
        ),
{
    let ghost all_entries = entry_views(entries@);
    let dump = opts.dump_rs_paths;
    let mut remaining = entries;
    let mut packages: Vec<Package> = Vec::new();
    let ghost mut processed: Seq<EntryV> = Seq::empty();
    proof {
        assert(processed + entry_views(remaining@) =~= all_entries);
        assert(packages@.map_values(|p: Package| package_view(p)) =~= spec_resolved(
            processed,
            build_name@,
            all_features,
            feats_views(env@),
            dump,
        ));
    }
    while remaining.len() > 0
        invariant
            all_entries == processed + entry_views(remaining@),
            packages@.map_values(|p: Package| package_view(p)) == spec_resolved(
                processed,
                build_name@,
                all_features,
                feats_views(env@),
                dump,
            ),
        decreases remaining@.len(),
    {
        let ghost ev = entry_view(remaining@[0]);
        let ghost old_rem = remaining@;
        let mut e = remaining.remove(0);
        proof {
            assert(entry_views(old_rem).drop_first() =~= entry_views(remaining@));
            assert(entry_views(old_rem)[0] == ev);
            assert(processed + entry_views(old_rem) =~= (processed.push(ev)) + entry_views(
                remaining@,
            ));
            assert((processed.push(ev)).drop_last() =~= processed);
        }
        let registered = names_contain(&e.collectors, build_name);
        if registered {
            match find_section(&e.data.sections, build_name) {
                Some(i) => {
                    let gate_ok = gate_allows(
                        &e.data.sections[i].feature_gate,
                        all_features,
                        env,
                        e.data.package_name.as_str(),
                    );
                    proof {
                        assert(sections_views(e.data.sections@)[i as int].gate == opt_view(
                            e.data.sections@[i as int].feature_gate,
                        ));
                        assert(ev.sections == sections_views(e.data.sections@));
                    }
                    if gate_ok {
                        proof {
                            assert(spec_selected(
                                ev,
                                build_name@,
                                all_features,
                                feats_views(env@),
                            ));
                        }
                        let s = e.data.sections.remove(i);
                        proof {
                            assert(section_view(s) == ev.sections[i as int]);
                        }
                        let pkg = Package {
                            name: e.data.package_name,
                            manifest: e.manifest_path,
                            metadata: s.metadata,
                            rs_paths: if dump {
                                Some(e.rs_paths)
                            } else {
                                None
                            },
                        };
                        let ghost pv = package_view(pkg);
                        let ghost before = packages@.map_values(|p: Package| package_view(p));
                        proof {
                            assert(pv == spec_entry_package(ev, build_name@, dump));
                        }
                        packages.push(pkg);
                        proof {
                            assert(packages@.map_values(|p: Package| package_view(p)) =~= before
                                .push(pv));
                        }
                    } else {
                        proof {
                            assert(!spec_selected(ev, build_name@, all_features, feats_views(env@)));
                        }
                    }
                },
                None => {
                    proof {
                        assert(spec_section_for(ev.sections, build_name@) is None);
                        assert(!spec_selected(ev, build_name@, all_features, feats_views(env@)));
                    }
                },
            }
        } else {
            proof {
                assert(!spec_selected(ev, build_name@, all_features, feats_views(env@)));
            }
        }
        proof {
            processed = processed.push(ev);
        }
    }
    proof {
        assert(entry_views(remaining@) =~= Seq::<EntryV>::empty());
        assert(processed =~= all_entries);
        assert(dump == opts.dump_rs_paths);
    }
    Downstream { packages }
}

/// Every resolved package comes from a selected entry.
pub proof fn lemma_resolved_entry_source(
    entries: Seq<EntryV>,
    build: Seq<char>,
    all_features: bool,
    env: Seq<(Seq<char>, Seq<Seq<char>>)>,
    dump: bool,
    k: int,
)
    requires
        0 <= k < spec_resolved(entries, build, all_features, env, dump).len(),
    ensures
        exists|i: int|
            0 <= i < entries.len() && #[trigger] spec_selected(entries[i], build, all_features, env)
                && spec_resolved(entries, build, all_features, env, dump)[k]
                == spec_entry_package(entries[i], build, dump),
    decreases entries.len(),
{
    let whole = spec_resolved(entries, build, all_features, env, dump);
    assert(entries.len() > 0);
    let head = entries.drop_last();
    let prev = spec_resolved(head, build, all_features, env, dump);
    assert(forall|i: int| 0 <= i < head.len() ==> head[i] == entries[i]);
    if spec_selected(entries.last(), build, all_features, env) && k == prev.len() {
        assert(whole[k] == spec_entry_package(entries.last(), build, dump));
        assert(entries[entries.len() - 1] == entries.last());
        assert(spec_selected(entries[entries.len() - 1], build, all_features, env));
    } else {
        assert(whole[k] == prev[k]);
        lemma_resolved_entry_source(head, build, all_features, env, dump, k);
        let i = choose|i: int|
            0 <= i < head.len() && #[trigger] spec_selected(head[i], build, all_features, env)
                && spec_resolved(head, build, all_features, env, dump)[k] == spec_entry_package(
                head[i],
                build,
                dump,
            );
        assert(spec_selected(entries[i], build, all_features, env));
        assert(whole[k] == spec_entry_package(entries[i], build, dump));
    }
}

/// Law: a selected entry's package is in the resolved set.  Together with
/// `lemma_resolved_entry_source` this makes the resolution exact: the
/// resolved set holds a package for exactly the entries whose record lists
/// the collector and whose manifest addresses a satisfied section to it.
pub proof fn lemma_selected_entry_resolved(
    entries: Seq<EntryV>,
    build: Seq<char>,
    all_features: bool,
    env: Seq<(Seq<char>, Seq<Seq<char>>)>,
    dump: bool,
    i: int,
)
    requires
        0 <= i < entries.len(),
        spec_selected(entries[i], build, all_features, env),
    ensures
        spec_resolved(entries, build, all_features, env, dump).contains(
            spec_entry_package(entries[i], build, dump),
        ),
    decreases entries.len(),
{
    let whole = spec_resolved(entries, build, all_features, env, dump);
    let head = entries.drop_last();
    let prev = spec_resolved(head, build, all_features, env, dump);
    if i == entries.len() - 1 {
        assert(entries.last() == entries[i]);
        assert(whole == prev.push(spec_entry_package(entries[i], build, dump)));
        assert(whole[prev.len() as int] == spec_entry_package(entries[i], build, dump));
    } else {
        assert(head[i] == entries[i]);
        lemma_selected_entry_resolved(head, build, all_features, env, dump, i);
        let w = choose|w: int|
            0 <= w < prev.len() && prev[w] == spec_entry_package(entries[i], build, dump);
        if spec_selected(entries.last(), build, all_features, env) {
            assert(whole[w] == prev[w]);
        } else {
            assert(whole == prev);
            assert(whole[w] == prev[w]);
        }
    }
}

/// Law: the feature gate decides resolution.  For an entry whose section
/// carries a gate, selection holds exactly while the gating feature is
/// enabled for the registrant (or every feature is); an ungated section
/// makes registration unconditional.
pub proof fn lemma_feature_gate(
    e: EntryV,
    build: Seq<char>,
    all_features: bool,
    env: Seq<(Seq<char>, Seq<Seq<char>>)>,
)
    ensures
        match spec_section_for(e.sections, build) {
            Some(s) => match s.gate {
                Some(f) => spec_selected(e, build, all_features, env) == (e.collectors.contains(
                    build,
                ) && (all_features || spec_features_of(env, e.name).contains(f))),
                None => spec_selected(e, build, all_features, env) == e.collectors.contains(build),
            },
            None => !spec_selected(e, build, all_features, env),
        },
{
}

/// Law: duplicate collector lines are one logical registration.  An entry
/// whose record already lists a collector resolves identically with that
/// line repeated.
pub proof fn lemma_duplicate_registration(
    e: EntryV,
    extra: Seq<char>,
    build: Seq<char>,
    all_features: bool,
    env: Seq<(Seq<char>, Seq<Seq<char>>)>,
    dump: bool,
)
    requires
        e.collectors.contains(extra),
    ensures
        ({
            let e2 = EntryV { collectors: e.collectors.push(extra), ..e };
            &&& spec_selected(e2, build, all_features, env) == spec_selected(
                e,
                build,
                all_features,
                env,
            )
            &&& spec_entry_package(e2, build, dump) == spec_entry_package(e, build, dump)
        }),
{
    lemma_push_contains(e.collectors, extra, build);
}

/// Law: a repeated collector line changes nothing anywhere.  Replacing one
/// entry's collector list by the same list with an already-present name
/// repeated leaves the whole resolution unchanged.
pub proof fn lemma_duplicate_line_same_resolution(
    entries: Seq<EntryV>,
    i: int,
    extra: Seq<char>,
    build: Seq<char>,
    all_features: bool,
    env: Seq<(Seq<char>, Seq<Seq<char>>)>,
    dump: bool,
)
    requires
        0 <= i < entries.len(),
        entries[i].collectors.contains(extra),
    ensures
        ({
            let e2 = EntryV { collectors: entries[i].collectors.push(extra), ..entries[i] };
            spec_resolved(entries.update(i, e2), build, all_features, env, dump) == spec_resolved(
                entries,
                build,
                all_features,
                env,
                dump,
            )
        }),
    decreases entries.len(),
{
    let e2 = EntryV { collectors: entries[i].collectors.push(extra), ..entries[i] };
    let m = entries.update(i, e2);
    lemma_duplicate_registration(entries[i], extra, build, all_features, env, dump);
    if i == entries.len() - 1 {
        assert(m.drop_last() =~= entries.drop_last());
        assert(m.last() == e2);
        assert(entries.last() == entries[i]);
        assert(spec_selected(e2, build, all_features, env) == spec_selected(
            entries.last(),
            build,
            all_features,
            env,
        ));
        if spec_selected(entries.last(), build, all_features, env) {
            assert(spec_entry_package(e2, build, dump) == spec_entry_package(
                entries.last(),
                build,
                dump,
            ));
        }
    } else {
        let head = entries.drop_last();
        assert(head[i] == entries[i]);
        lemma_duplicate_line_same_resolution(head, i, extra, build, all_features, env, dump);
        assert(m.drop_last() =~= head.update(
            i,
            EntryV { collectors: head[i].collectors.push(extra), ..head[i] },
        ));
        assert(m.last() == entries.last());
    }
}

/// Law: no duplicate output entries.  Entries at pairwise distinct manifest
/// locations resolve to packages at pairwise distinct manifest locations.
pub proof fn lemma_no_duplicate_outputs(
    entries: Seq<EntryV>,
    build: Seq<char>,
    all_features: bool,
    env: Seq<(Seq<char>, Seq<Seq<char>>)>,
    dump: bool,
    k: int,
    l: int,
)
    requires
        forall|a: int, b: int| 0 <= a < b < entries.len() ==> entries[a].path != entries[b].path,
        0 <= k < l < spec_resolved(entries, build, all_features, env, dump).len(),
    ensures
        spec_resolved(entries, build, all_features, env, dump)[k].manifest != spec_resolved(
            entries,
            build,
            all_features,
            env,
            dump,
        )[l].manifest,
    decreases entries.len(),
{
    let whole = spec_resolved(entries, build, all_features, env, dump);
    assert(entries.len() > 0);
    let head = entries.drop_last();
    let prev = spec_resolved(head, build, all_features, env, dump);
    assert(forall|a: int| 0 <= a < head.len() ==> head[a] == entries[a]);
    assert forall|a: int, b: int| 0 <= a < b < head.len() implies head[a].path
        != head[b].path by {
        assert(head[a] == entries[a]);
        assert(head[b] == entries[b]);
    }
    if spec_selected(entries.last(), build, all_features, env) && l == prev.len() {
        assert(whole[l] == spec_entry_package(entries.last(), build, dump));
        assert(whole[l].manifest == entries.last().path);
        assert(whole[k] == prev[k]);
        lemma_resolved_entry_source(head, build, all_features, env, dump, k);
        let j = choose|j: int|
            0 <= j < head.len() && #[trigger] spec_selected(head[j], build, all_features, env)
                && spec_resolved(head, build, all_features, env, dump)[k] == spec_entry_package(
                head[j],
                build,
                dump,
            );
        assert(whole[k].manifest == head[j].path);
        assert(head[j] == entries[j]);
        assert(entries.last() == entries[entries.len() - 1]);
        assert(entries[j].path != entries[entries.len() - 1].path);
    } else {
        assert(whole[k] == prev[k]);
        assert(whole[l] == prev[l]);
        lemma_no_duplicate_outputs(head, build, all_features, env, dump, k, l);
    }
}

/// One discovered registration, its manifest still raw text.
pub struct ManifestSource {
    /// The manifest's location, as the location table keys it.
    pub manifest_path: String,
    /// The collector names its record lists.
    pub collectors: Vec<String>,
    /// The manifest's full text.
    pub text: String,
    /// The registrant's source-file paths, as listed by the caller.
    pub rs_paths: Vec<String>,
}

/// The mathematical value of one raw registration.
#[verifier::ext_equal]
pub struct SourceV {
    pub path: Seq<char>,
    pub collectors: Seq<Seq<char>>,
    pub text: Seq<char>,
    pub rs_paths: Seq<Seq<char>>,
}

/// The mathematical value of one `ManifestSource`.
pub open spec fn source_view(s: ManifestSource) -> SourceV {
    SourceV {
        path: s.manifest_path@,
        collectors: str_views(s.collectors@),
        text: s.text@,
        rs_paths: str_views(s.rs_paths@),
    }
}

/// The mathematical values of the raw registrations.
pub open spec fn source_views(v: Seq<ManifestSource>) -> Seq<SourceV> {
    v.map_values(|s: ManifestSource| source_view(s))
}

/// A source whose record lists the collector.
pub open spec fn spec_source_registered(sv: SourceV, build: Seq<char>) -> bool {
    sv.collectors.contains(build)
}

/// A registered source whose manifest cannot be read: invalid TOML, no
/// string `package.name`, or a non-string gate on some reserved section
/// entry.
pub open spec fn spec_source_malformed(sv: SourceV) -> bool {
    ||| !toml_parse_ok(sv.text)
    ||| toml_package_name_of(sv.text) is None
    ||| exists|i: int|
        0 <= i < toml_collector_keys_of(sv.text).len() && !toml_gate_wellformed(
            sv.text,
            toml_collector_keys_of(sv.text)[i],
        )
}

/// The package name a source's manifest declares.
pub open spec fn spec_source_name(sv: SourceV) -> Seq<char> {
    match toml_package_name_of(sv.text) {
        Some(n) => n,
        None => arbitrary(),
    }
}

/// Selection decided from the text facts alone: the record lists the
/// collector, the manifest's reserved section addresses it, and its gate
/// is satisfied.
pub open spec fn spec_source_selected(
    sv: SourceV,
    build: Seq<char>,
    all_features: bool,
    env: Seq<(Seq<char>, Seq<Seq<char>>)>,
) -> bool {
    &&& sv.collectors.contains(build)
    &&& toml_collector_keys_of(sv.text).contains(build)
    &&& spec_gate_ok(
        toml_gate_of(sv.text, build),
        all_features,
        spec_features_of(env, spec_source_name(sv)),
    )
}

/// The indices of the selected sources, in order.
pub open spec fn spec_selected_sources(
    svs: Seq<SourceV>,
    build: Seq<char>,
    all_features: bool,
    env: Seq<(Seq<char>, Seq<Seq<char>>)>,
) -> Seq<int>
    decreases svs.len(),
{
    if svs.len() == 0 {
        Seq::empty()
    } else {
        let prev = spec_selected_sources(svs.drop_last(), build, all_features, env);
        if spec_source_selected(svs.last(), build, all_features, env) {
            prev.push(svs.len() - 1)
        } else {
            prev
        }
    }
}

/// The indices of the registered sources, in order.
pub open spec fn spec_registered_indices(svs: Seq<SourceV>, build: Seq<char>) -> Seq<int>
    decreases svs.len(),
{
    if svs.len() == 0 {
        Seq::empty()
    } else {
        let prev = spec_registered_indices(svs.drop_last(), build);
        if svs.last().collectors.contains(build) {
            prev.push(svs.len() - 1)
        } else {
            prev
        }
    }
}

/// A resolver entry that carries exactly its source's text facts.
pub open spec fn spec_entry_from_source(e: EntryV, sv: SourceV) -> bool {
    &&& e.path == sv.path
    &&& e.collectors == sv.collectors
    &&& e.rs_paths == sv.rs_paths
    &&& Some(e.name) == toml_package_name_of(sv.text)
    &&& e.sections.len() == toml_collector_keys_of(sv.text).len()
    &&& forall|i: int|
        0 <= i < e.sections.len() ==> #[trigger] e.sections[i].collector
            == toml_collector_keys_of(sv.text)[i]
    &&& forall|i: int|
        0 <= i < e.sections.len() ==> #[trigger] e.sections[i].gate == toml_gate_of(
            sv.text,
            toml_collector_keys_of(sv.text)[i],
        )
    &&& forall|a: int, b: int|
        0 <= a < b < e.sections.len() ==> e.sections[a].collector != e.sections[b].collector
}

/// With pairwise distinct collectors, the first match is the unique one.
proof fn lemma_section_for_keys(sections: Seq<SectionV>, c: Seq<char>)
    requires
        forall|a: int, b: int|
            0 <= a < b < sections.len() ==> sections[a].collector != sections[b].collector,
    ensures
        match spec_section_for(sections, c) {
            Some(s) => exists|i: int|
                0 <= i < sections.len() && #[trigger] sections[i].collector == c && s
                    == sections[i],
            None => forall|i: int| 0 <= i < sections.len() ==> #[trigger] sections[i].collector != c,
        },
    decreases sections.len(),
{
    if sections.len() > 0 {
        if sections[0].collector == c {
        } else {
            let tail = sections.drop_first();
            assert(forall|i: int| 0 <= i < tail.len() ==> tail[i] == sections[i + 1]);
            lemma_section_for_keys(tail, c);
            match spec_section_for(sections, c) {
                Some(s) => {
                    let i = choose|i: int|
                        0 <= i < tail.len() && #[trigger] tail[i].collector == c && s == tail[i];
                    assert(sections[i + 1].collector == c && s == sections[i + 1]);
                },
                None => {
                    assert forall|i: int|
                        0 <= i < sections.len() implies #[trigger] sections[i].collector != c by {
                        if i > 0 {
                            assert(tail[i - 1] == sections[i]);
                        }
                    }
                },
            }
        }
    }
}

/// An entry carrying its source's text facts selects and resolves as the
/// text says.
proof fn lemma_entry_selection_from_text(
    e: EntryV,
    sv: SourceV,
    build: Seq<char>,
    all_features: bool,
    env: Seq<(Seq<char>, Seq<Seq<char>>)>,
    dump: bool,
)
    requires
        spec_entry_from_source(e, sv),
    ensures
        spec_selected(e, build, all_features, env) == spec_source_selected(
            sv,
            build,
            all_features,
            env,
        ),
        spec_selected(e, build, all_features, env) ==> {
            let p = spec_entry_package(e, build, dump);
            &&& p.manifest == sv.path
            &&& Some(p.name) == toml_package_name_of(sv.text)
            &&& p.rs_paths == (if dump {
                Some(sv.rs_paths)
            } else {
                None
            })
        },
{
    let keys = toml_collector_keys_of(sv.text);
    lemma_section_for_keys(e.sections, build);
    match spec_section_for(e.sections, build) {
        Some(s) => {
            let i = choose|i: int|
                0 <= i < e.sections.len() && #[trigger] e.sections[i].collector == build && s
                    == e.sections[i];
            assert(keys[i] == build);
            assert(keys.contains(build));
            assert(s.gate == toml_gate_of(sv.text, build));
        },
        None => {
            if keys.contains(build) {
                let i = choose|i: int| 0 <= i < keys.len() && keys[i] == build;
                assert(e.sections[i].collector == build);
            }
        },
    }
}

/// Range, order and selectedness of the selected-source indices.
proof fn lemma_selected_sources_facts(
    svs: Seq<SourceV>,
    build: Seq<char>,
    all_features: bool,
    env: Seq<(Seq<char>, Seq<Seq<char>>)>,
)
    ensures
        forall|k: int|
            0 <= k < spec_selected_sources(svs, build, all_features, env).len() ==> 0
                <= #[trigger] spec_selected_sources(svs, build, all_features, env)[k] < svs.len()
                && spec_source_selected(
                svs[spec_selected_sources(svs, build, all_features, env)[k]],
                build,
                all_features,
                env,
            ),
        forall|k: int, l: int|
            0 <= k < l < spec_selected_sources(svs, build, all_features, env).len()
                ==> spec_selected_sources(svs, build, all_features, env)[k]
                < spec_selected_sources(svs, build, all_features, env)[l],
    decreases svs.len(),
{
    if svs.len() > 0 {
        let head = svs.drop_last();
        lemma_selected_sources_facts(head, build, all_features, env);
        let prev = spec_selected_sources(head, build, all_features, env);
        assert(forall|i: int| 0 <= i < head.len() ==> head[i] == svs[i]);
        assert forall|k: int| 0 <= k < prev.len() implies 0 <= #[trigger] prev[k] < head.len()
            && spec_source_selected(svs[prev[k]], build, all_features, env) by {
            assert(spec_source_selected(head[prev[k]], build, all_features, env));
            assert(head[prev[k]] == svs[prev[k]]);
        }
        let whole = spec_selected_sources(svs, build, all_features, env);
        if spec_source_selected(svs.last(), build, all_features, env) {
            assert(whole == prev.push(svs.len() - 1));
            assert(svs[svs.len() - 1] == svs.last());
        } else {
            assert(whole == prev);
        }
    }
}

/// Range and order of the registered-source indices.
proof fn lemma_registered_indices_facts(svs: Seq<SourceV>, build: Seq<char>)
    ensures
        forall|k: int|
            0 <= k < spec_registered_indices(svs, build).len() ==> 0
                <= #[trigger] spec_registered_indices(svs, build)[k] < svs.len(),
    decreases svs.len(),
{
    if svs.len() > 0 {
        let head = svs.drop_last();
        lemma_registered_indices_facts(head, build);
        let prev = spec_registered_indices(head, build);
        let whole = spec_registered_indices(svs, build);
        assert forall|k: int| 0 <= k < whole.len() implies 0 <= #[trigger] whole[k]
            < svs.len() by {
            if svs.last().collectors.contains(build) {
                assert(whole == prev.push(svs.len() - 1));
                if k < prev.len() {
                    assert(whole[k] == prev[k]);
                }
            } else {
                assert(whole == prev);
                assert(whole[k] == prev[k]);
            }
        }
    }
}

/// The resolution of entries carrying the sources' text facts is the
/// resolution the texts themselves determine: one output per selected
/// source, in order, with its location, declared name and source listing.
proof fn lemma_text_resolution(
    svs: Seq<SourceV>,
    ev: Seq<EntryV>,
    build: Seq<char>,
    all_features: bool,
    env: Seq<(Seq<char>, Seq<Seq<char>>)>,
    dump: bool,
)
    requires
        ev.len() == spec_registered_indices(svs, build).len(),
        forall|k: int|
            0 <= k < ev.len() ==> spec_entry_from_source(
                #[trigger] ev[k],
                svs[spec_registered_indices(svs, build)[k]],
            ),
    ensures
        spec_resolved(ev, build, all_features, env, dump).len() == spec_selected_sources(
            svs,
            build,
            all_features,
            env,
        ).len(),
        forall|k: int|
            #![trigger spec_selected_sources(svs, build, all_features, env)[k]]
            0 <= k < spec_selected_sources(svs, build, all_features, env).len() ==> {
                let i = spec_selected_sources(svs, build, all_features, env)[k];
                let p = spec_resolved(ev, build, all_features, env, dump)[k];
                &&& p.manifest == svs[i].path
                &&& Some(p.name) == toml_package_name_of(svs[i].text)
                &&& p.rs_paths == (if dump {
                    Some(svs[i].rs_paths)
                } else {
                    None
                })
            },
    decreases svs.len(),
{
    lemma_registered_indices_facts(svs, build);
    lemma_selected_sources_facts(svs, build, all_features, env);
    if svs.len() == 0 {
    } else {
        let head = svs.drop_last();
        let regs = spec_registered_indices(svs, build);
        let regs_h = spec_registered_indices(head, build);
        let sel = spec_selected_sources(svs, build, all_features, env);
        let sel_h = spec_selected_sources(head, build, all_features, env);
        assert(forall|i: int| 0 <= i < head.len() ==> head[i] == svs[i]);
        lemma_registered_indices_facts(head, build);
        lemma_selected_sources_facts(head, build, all_features, env);
        if !svs.last().collectors.contains(build) {
            // not registered, hence not selected, and no entry for it
            assert(regs == regs_h);
            assert(!spec_source_selected(svs.last(), build, all_features, env));
            assert(sel == sel_h);
            assert forall|k: int| 0 <= k < ev.len() implies spec_entry_from_source(
                #[trigger] ev[k],
                head[regs_h[k]],
            ) by {
                assert(spec_entry_from_source(ev[k], svs[regs[k]]));
                assert(head[regs_h[k]] == svs[regs[k]]);
            }
            lemma_text_resolution(head, ev, build, all_features, env, dump);
            assert forall|k: int| #![trigger sel[k]] 0 <= k < sel.len() implies {
                let i = sel[k];
                let p = spec_resolved(ev, build, all_features, env, dump)[k];
                &&& p.manifest == svs[i].path
                &&& Some(p.name) == toml_package_name_of(svs[i].text)
                &&& p.rs_paths == (if dump {
                    Some(svs[i].rs_paths)
                } else {
                    None
                })
            } by {
                assert(sel[k] == sel_h[k]);
                assert(head[sel_h[k]] == svs[sel[k]]);
            }
        } else {
            assert(regs == regs_h.push(svs.len() - 1));
            assert(ev.len() >= 1);
            let evh = ev.drop_last();
            assert(forall|k: int| 0 <= k < evh.len() ==> evh[k] == ev[k]);
            assert forall|k: int| 0 <= k < evh.len() implies spec_entry_from_source(
                #[trigger] evh[k],
                head[regs_h[k]],
            ) by {
                assert(regs[k] == regs_h[k]);
                assert(spec_entry_from_source(ev[k], svs[regs[k]]));
                assert(head[regs_h[k]] == svs[regs_h[k]]);
            }
            lemma_text_resolution(head, evh, build, all_features, env, dump);
            assert(regs[regs.len() - 1] == svs.len() - 1);
            assert(spec_entry_from_source(ev[ev.len() - 1], svs[svs.len() - 1]));
            assert(ev.last() == ev[ev.len() - 1]);
            assert(svs[svs.len() - 1] == svs.last());
            lemma_entry_selection_from_text(ev.last(), svs.last(), build, all_features, env, dump);
            let out = spec_resolved(ev, build, all_features, env, dump);
            let out_h = spec_resolved(evh, build, all_features, env, dump);
            assert(ev.drop_last() == evh);
            if spec_source_selected(svs.last(), build, all_features, env) {
                assert(sel == sel_h.push(svs.len() - 1));
                assert(out == out_h.push(spec_entry_package(ev.last(), build, dump)));
                assert forall|k: int| #![trigger sel[k]] 0 <= k < sel.len() implies {
                    let i = sel[k];
                    let p = spec_resolved(ev, build, all_features, env, dump)[k];
                    &&& p.manifest == svs[i].path
                    &&& Some(p.name) == toml_package_name_of(svs[i].text)
                    &&& p.rs_paths == (if dump {
                        Some(svs[i].rs_paths)
                    } else {
                        None
                    })
                } by {
                    if k < sel_h.len() {
                        assert(sel[k] == sel_h[k]);
                        assert(out[k] == out_h[k]);
                        assert(head[sel_h[k]] == svs[sel_h[k]]);
                    } else {
                        assert(sel[k] == svs.len() - 1);
                        assert(out[k] == spec_entry_package(ev.last(), build, dump));
                    }
                }
            } else {
                assert(sel == sel_h);
                assert(out == out_h);
                assert forall|k: int| #![trigger sel[k]] 0 <= k < sel.len() implies {
                    let i = sel[k];
                    let p = spec_resolved(ev, build, all_features, env, dump)[k];
                    &&& p.manifest == svs[i].path
                    &&& Some(p.name) == toml_package_name_of(svs[i].text)
                    &&& p.rs_paths == (if dump {
                        Some(svs[i].rs_paths)
                    } else {
                        None
                    })
                } by {
                    assert(out[k] == out_h[k]);
                    assert(head[sel_h[k]] == svs[sel[k]]);
                }
            }
        }
    }
}

/// A fatal resolution error: which manifest, and what was wrong with it.
#[derive(Debug)]
pub struct ResolveError {
    /// The offending manifest's location.
    pub manifest_path: String,
    /// What was wrong with it.
    pub error: ManifestError,
}

/// Law: the texts determine the resolved set exactly.  A source index is
/// among the selected-source indices precisely when that source's record
/// lists the collector, its manifest addresses a reserved section to it,
/// and the section's gate is satisfied; with `resolve_sources`' contract
/// this pins one output per such source, in order, and no others.
pub proof fn lemma_selected_sources_exact(
    svs: Seq<SourceV>,
    build: Seq<char>,
    all_features: bool,
    env: Seq<(Seq<char>, Seq<Seq<char>>)>,
    i: int,
)
    requires
        0 <= i < svs.len(),
    ensures
        spec_selected_sources(svs, build, all_features, env).contains(i) == spec_source_selected(
            svs[i],
            build,
            all_features,
            env,
        ),
    decreases svs.len(),
{
    let sel = spec_selected_sources(svs, build, all_features, env);
    let head = svs.drop_last();
    let sel_h = spec_selected_sources(head, build, all_features, env);
    lemma_selected_sources_facts(head, build, all_features, env);
    if i == svs.len() - 1 {
        assert(svs[i] == svs.last());
        if spec_source_selected(svs.last(), build, all_features, env) {
            assert(sel == sel_h.push(svs.len() - 1));
            assert(sel[sel.len() - 1] == i);
            assert(sel.contains(i));
        } else {
            assert(sel == sel_h);
            if sel.contains(i) {
                let w = choose|w: int| 0 <= w < sel.len() && sel[w] == i;
                assert(0 <= sel_h[w] < head.len());
            }
        }
    } else {
        assert(head[i] == svs[i]);
        lemma_selected_sources_exact(head, build, all_features, env, i);
        if spec_source_selected(svs.last(), build, all_features, env) {
            assert(sel == sel_h.push(svs.len() - 1));
            lemma_push_contains(sel_h, svs.len() - 1, i);
        } else {
            assert(sel == sel_h);
        }
    }
}

/// Law: a repeated collector line in a source's record is one logical
/// registration: selection from the text facts is unchanged with an
/// already-listed name repeated.
pub proof fn lemma_duplicate_line_same_selection(
    sv: SourceV,
    extra: Seq<char>,
    build: Seq<char>,
    all_features: bool,
    env: Seq<(Seq<char>, Seq<Seq<char>>)>,
)
    requires
        sv.collectors.contains(extra),
    ensures
        ({
            let sv2 = SourceV { collectors: sv.collectors.push(extra), ..sv };
            spec_source_selected(sv2, build, all_features, env) == spec_source_selected(
                sv,
                build,
                all_features,
                env,
            )
        }),
{
    lemma_push_contains(sv.collectors, extra, build);
}

/// Resolve from raw manifest texts: extract every registered manifest's
/// facts, then resolve the extracted set.  A registered manifest that
/// cannot be read — invalid TOML, no string `package.name`, or a
/// non-string gate — aborts the whole resolution, naming the first such
/// manifest's location; no partial result is returned.  On success the
/// output is the resolution the texts determine: one package per selected
/// source, in input order, at its location, with its declared name and,
/// when asked for, its source listing.  A manifest whose record does not
/// list the collector is not even parsed.
pub fn resolve_sources(
    sources: Vec<ManifestSource>,
    build_name: &str,
    all_features: bool,
    env: &Vec<RegistrantFeatures>,
    opts: &Opts,
) -> (r: Result<Downstream, ResolveError>)
    ensures
        (r is Err) <==> (exists|i: int|
            0 <= i < source_views(sources@).len() && #[trigger] spec_source_registered(
                source_views(sources@)[i],
                build_name@,
            ) && spec_source_malformed(source_views(sources@)[i])),
        r matches Err(e) ==> exists|i: int|
            {
                &&& 0 <= i < source_views(sources@).len()
                &&& #[trigger] spec_source_registered(source_views(sources@)[i], build_name@)
                &&& spec_source_malformed(source_views(sources@)[i])
                &&& e.manifest_path@ == source_views(sources@)[i].path
                &&& forall|j: int|
                    0 <= j < i ==> !(#[trigger] spec_source_registered(
                        source_views(sources@)[j],
                        build_name@,
                    ) && spec_source_malformed(source_views(sources@)[j]))
                &&& (e.error is Parse <==> !toml_parse_ok(source_views(sources@)[i].text))
                &&& (e.error is MissingPackageName <==> (toml_parse_ok(
                    source_views(sources@)[i].text,
                ) && toml_package_name_of(source_views(sources@)[i].text) is None))
            },
        r matches Ok(d) ==> {
            &&& down_view(d).len() == spec_selected_sources(
                source_views(sources@),
                build_name@,
                all_features,
                feats_views(env@),
            ).len()
            &&& forall|k: int|
                #![trigger spec_selected_sources(source_views(sources@), build_name@, all_features, feats_views(env@))[k]]
                0 <= k < down_view(d).len() ==> {
                    let i = spec_selected_sources(
                        source_views(sources@),
                        build_name@,
                        all_features,
                        feats_views(env@),
                    )[k];
                    &&& down_view(d)[k].manifest == source_views(sources@)[i].path
                    &&& Some(down_view(d)[k].name) == toml_package_name_of(
                        source_views(sources@)[i].text,
                    )
                    &&& down_view(d)[k].rs_paths == (if opts.dump_rs_paths {
                        Some(source_views(sources@)[i].rs_paths)
                    } else {
                        None
                    })
                }
        },
        r matches Ok(d) ==> ((forall|a: int, b: int|
            0 <= a < b < source_views(sources@).len() ==> source_views(sources@)[a].path
                != source_views(sources@)[b].path) ==> (forall|k: int, l: int|
            #![trigger down_view(d)[k], down_view(d)[l]]
            0 <= k < l < down_view(d).len() ==> down_view(d)[k].manifest
                != down_view(d)[l].manifest)),
{
    let ghost svs = source_views(sources@);
    let ghost build = build_name@;
    let ghost fenv = feats_views(env@);
    let mut remaining = sources;
    let mut entries: Vec<ResolveEntry> = Vec::new();
    let ghost mut processed: Seq<SourceV> = Seq::empty();
    proof {
        assert(processed + source_views(remaining@) =~= svs);
    }
    while remaining.len() > 0
        invariant
            svs == source_views(sources@),
            build == build_name@,
            svs == processed + source_views(remaining@),
            forall|i: int|
                0 <= i < processed.len() ==> !(#[trigger] spec_source_registered(
                    processed[i],
                    build,
                ) && spec_source_malformed(processed[i])),
            entry_views(entries@).len() == spec_registered_indices(processed, build).len(),
            forall|k: int|
                0 <= k < entry_views(entries@).len() ==> spec_entry_from_source(
                    #[trigger] entry_views(entries@)[k],
                    processed[spec_registered_indices(processed, build)[k]],
                ),
        decreases remaining@.len(),
    {
        let ghost sv = source_view(remaining@[0]);
        let ghost old_rem = remaining@;
        let s = remaining.remove(0);
        proof {
            lemma_registered_indices_facts(processed, build);
            assert(source_views(old_rem).drop_first() =~= source_views(remaining@));
            assert(source_views(old_rem)[0] == sv);
            assert(processed + source_views(old_rem) =~= (processed.push(sv)) + source_views(
                remaining@,
            ));
            assert((processed.push(sv)).drop_last() =~= processed);
            assert((processed.push(sv)).last() == sv);
            assert(svs[processed.len() as int] == sv);
            assert(forall|j: int| 0 <= j < processed.len() ==> svs[j] == processed[j]);
        }
        let registered = names_contain(&s.collectors, build_name);
        if registered {
            match extract_manifest(s.text.as_str()) {
                Err(error) => {
                    proof {
                        assert(spec_source_registered(svs[processed.len() as int], build));
                        match error {
                            ManifestError::Parse { .. } => {
                                assert(!toml_parse_ok(sv.text));
                            },
                            ManifestError::MissingPackageName => {
                                assert(toml_package_name_of(sv.text) is None);
                            },
                            ManifestError::GateNotString { .. } => {
                                assert(spec_source_malformed(sv));
                            },
                        }
                        assert(spec_source_malformed(sv));
                    }
                    return Err(ResolveError { manifest_path: s.manifest_path, error });
                },
                Ok(data) => {
                    let ghost before = entry_views(entries@);
                    let entry = ResolveEntry {
                        manifest_path: s.manifest_path,
                        collectors: s.collectors,
                        data,
                        rs_paths: s.rs_paths,
                    };
                    let ghost nv = entry_view(entry);
                    entries.push(entry);
                    proof {
                        // the manifest read cleanly
                        assert(toml_parse_ok(sv.text));
                        assert(toml_package_name_of(sv.text) is Some);
                        assert forall|i: int|
                            0 <= i < toml_collector_keys_of(sv.text).len() implies
                            toml_gate_wellformed(
                            sv.text,
                            #[trigger] toml_collector_keys_of(sv.text)[i],
                        ) by {
                            assert(nv.sections.len() == sections_views(entry.data.sections@).len());
                        }
                        assert(!spec_source_malformed(sv));
                        // the new entry carries exactly the source's text facts
                        assert(entry_views(entries@) =~= before.push(nv));
                        assert(nv.sections == sections_views(entry.data.sections@));
                        assert forall|i: int|
                            0 <= i < nv.sections.len() implies #[trigger] nv.sections[i].collector
                                == toml_collector_keys_of(sv.text)[i] by {
                            assert(nv.sections[i] == section_view(entry.data.sections@[i]));
                        }
                        assert forall|i: int|
                            0 <= i < nv.sections.len() implies #[trigger] nv.sections[i].gate
                                == toml_gate_of(sv.text, toml_collector_keys_of(sv.text)[i]) by {
                            assert(nv.sections[i] == section_view(entry.data.sections@[i]));
                        }
                        assert forall|a: int, b: int|
                            0 <= a < b < nv.sections.len() implies nv.sections[a].collector
                                != nv.sections[b].collector by {
                            assert(nv.sections[a] == section_view(entry.data.sections@[a]));
                            assert(nv.sections[b] == section_view(entry.data.sections@[b]));
                        }
                        assert(spec_entry_from_source(nv, sv));
                        // the registered-index correspondence extends by one
                        assert(spec_registered_indices(processed.push(sv), build)
                            == spec_registered_indices(processed, build).push(
                            processed.len() as int,
                        ));
                        assert forall|k: int|
                            0 <= k < entry_views(entries@).len() implies spec_entry_from_source(
                            #[trigger] entry_views(entries@)[k],
                            processed.push(sv)[spec_registered_indices(
                                processed.push(sv),
                                build,
                            )[k]],
                        ) by {
                            let regs = spec_registered_indices(processed, build);
                            if k < before.len() {
                                assert(entry_views(entries@)[k] == before[k]);
                                assert(spec_registered_indices(processed.push(sv), build)[k]
                                    == regs[k]);
                                assert(0 <= regs[k] < processed.len());
                                assert(processed.push(sv)[regs[k]] == processed[regs[k]]);
                                assert(spec_entry_from_source(before[k], processed[regs[k]]));
                            } else {
                                assert(entry_views(entries@)[k] == nv);
                                assert(spec_registered_indices(processed.push(sv), build)[k]
                                    == processed.len() as int);
                                assert(processed.push(sv)[processed.len() as int] == sv);
                            }
                        }
                    }
                },
            }
        } else {
            proof {
                assert(!spec_source_registered(sv, build));
                assert(spec_registered_indices(processed.push(sv), build)
                    == spec_registered_indices(processed, build));
                assert forall|k: int|
                    0 <= k < entry_views(entries@).len() implies spec_entry_from_source(
                    #[trigger] entry_views(entries@)[k],
                    processed.push(sv)[spec_registered_indices(processed.push(sv), build)[k]],
                ) by {
                    let regs = spec_registered_indices(processed, build);
                    assert(spec_entry_from_source(entry_views(entries@)[k], processed[regs[k]]));
                    assert(0 <= regs[k] < processed.len());
                    assert(processed.push(sv)[regs[k]] == processed[regs[k]]);
                }
            }
        }
        proof {
            assert forall|i: int|
                0 <= i < processed.push(sv).len() implies !(#[trigger] spec_source_registered(
                processed.push(sv)[i],
                build,
            ) && spec_source_malformed(processed.push(sv)[i])) by {
                if i < processed.len() {
                    assert(processed.push(sv)[i] == processed[i]);
                } else {
                    assert(processed.push(sv)[i] == sv);
                }
            }
            processed = processed.push(sv);
        }
    }
    proof {
        assert(source_views(remaining@) =~= Seq::<SourceV>::empty());
        assert(processed =~= svs);
    }
    let d = resolve(entries, build_name, all_features, env, opts);
    proof {
        let sel = spec_selected_sources(svs, build, all_features, fenv);
        let out = spec_resolved(entry_views(entries@), build, all_features, fenv,
            opts.dump_rs_paths);
        lemma_text_resolution(
            svs,
            entry_views(entries@),
            build,
            all_features,
            fenv,
            opts.dump_rs_paths,
        );
        lemma_selected_sources_facts(svs, build, all_features, fenv);
        assert(down_view(d) == out);
        assert forall|k: int|
            #![trigger sel[k]]
            0 <= k < down_view(d).len() implies {
            &&& down_view(d)[k].manifest == svs[sel[k]].path
            &&& Some(down_view(d)[k].name) == toml_package_name_of(svs[sel[k]].text)
            &&& down_view(d)[k].rs_paths == (if opts.dump_rs_paths {
                Some(svs[sel[k]].rs_paths)
            } else {
                None
            })
        } by {
            assert(down_view(d)[k] == out[k]);
        }
        if forall|a: int, b: int| 0 <= a < b < svs.len() ==> svs[a].path != svs[b].path {
            assert forall|k: int, l: int|
                #![trigger down_view(d)[k], down_view(d)[l]]
                0 <= k < l < down_view(d).len() implies down_view(d)[k].manifest != down_view(
                d,
            )[l].manifest by {
                assert(down_view(d)[k].manifest == svs[sel[k]].path);
                assert(down_view(d)[l].manifest == svs[sel[l]].path);
                assert(sel[k] < sel[l]);
                assert(0 <= sel[k] < svs.len());
                assert(0 <= sel[l] < svs.len());
            }
        }
    }
    Ok(d)
}


} // verus!
