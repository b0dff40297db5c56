//! Recovery of the build orchestrator's invocation flags.  The collector's
//! caller walks the process tree to the orchestrator's own command line;
//! this module parses that argument vector.  Only a fixed set of flags is
//! recognized — the all-features toggle, explicit feature lists, the
//! default-features toggle, and a manifest-path override — and every other
//! argument is ignored.  Recovery is best-effort enrichment: when no
//! argument vector can be recovered at all, the caller uses `Flags::unset`.

use vstd::prelude::*;

use crate::text::{nonempty_segments, spec_starts_with, starts_with_str, str_eq, str_views};

verus! {

/// The recognized orchestrator flags.
pub struct Flags {
    /// `--all-features` was given.
    pub all_features: bool,
    /// `--no-default-features` was given.
    pub no_default_features: bool,
    /// Every feature named by `--features` arguments, in order.
    pub features: Vec<String>,
    /// The first `--manifest-path` override, if any.
    pub manifest_path: Option<String>,
}

/// The mathematical value of a flag set.
#[verifier::ext_equal]
pub struct SpecFlags {
    pub all_features: bool,
    pub no_default_features: bool,
    pub features: Seq<Seq<char>>,
    pub manifest_path: Option<Seq<char>>,
}

/// The view of an optional owned string.
pub open spec fn opt_view(o: Option<String>) -> Option<Seq<char>> {
    match o {
        Some(p) => Some(p@),
        None => None,
    }
}

/// A flag set assembled from its parts.
pub open spec fn spec_flags_of(
    all_features: bool,
    no_default_features: bool,
    features: Seq<Seq<char>>,
    manifest_path: Option<Seq<char>>,
) -> SpecFlags {
    SpecFlags { all_features, no_default_features, features, manifest_path }
}

/// The mathematical value of `Flags`.
pub open spec fn flags_view(f: Flags) -> SpecFlags {
    spec_flags_of(
        f.all_features,
        f.no_default_features,
        str_views(f.features@),
        opt_view(f.manifest_path),
    )
}

/// No flag recognized; the documented default when recovery fails.
pub open spec fn spec_flags_unset() -> SpecFlags {
    SpecFlags {
        all_features: false,
        no_default_features: false,
        features: Seq::empty(),
        manifest_path: None,
    }
}

/// A feature-list value split at commas and spaces, empty pieces dropped.
pub open spec fn split_on_any(s: Seq<char>) -> Seq<Seq<char>>
    decreases s.len(),
{
    if s.len() == 0 {
        seq![Seq::<char>::empty()]
    } else if s.last() == ',' || s.last() == ' ' {
        split_on_any(s.drop_last()).push(Seq::<char>::empty())
    } else {
        let r = split_on_any(s.drop_last());
        r.drop_last().push(r.last().push(s.last()))
    }
}

/// The features one `--features` value names.
pub open spec fn spec_feature_pieces(s: Seq<char>) -> Seq<Seq<char>> {
    nonempty_segments(split_on_any(s))
}

/// The flags an argument vector carries, scanned front to back.  A
/// two-argument flag consumes its value; a repeated `--manifest-path` keeps
/// the first value; `--features` accumulates in order.
pub open spec fn spec_flags(args: Seq<Seq<char>>) -> SpecFlags
    decreases args.len(),
{
    if args.len() == 0 {
        spec_flags_unset()
    } else if args[0] == "--all-features"@ {
        let r = spec_flags(args.drop_first());
        SpecFlags { all_features: true, ..r }
    } else if args[0] == "--no-default-features"@ {
        let r = spec_flags(args.drop_first());
        SpecFlags { no_default_features: true, ..r }
    } else if args[0] == "--features"@ && args.len() >= 2 {
        let r = spec_flags(args.skip(2));
        SpecFlags { features: spec_feature_pieces(args[1]) + r.features, ..r }
    } else if spec_starts_with(args[0], "--features="@) {
        let r = spec_flags(args.drop_first());
        SpecFlags {
            features: spec_feature_pieces(args[0].skip("--features="@.len() as int)) + r.features,
            ..r
        }
    } else if args[0] == "--manifest-path"@ && args.len() >= 2 {
        let r = spec_flags(args.skip(2));
        SpecFlags { manifest_path: Some(args[1]), ..r }
    } else if spec_starts_with(args[0], "--manifest-path="@) {
        let r = spec_flags(args.drop_first());
        SpecFlags { manifest_path: Some(args[0].skip("--manifest-path="@.len() as int)), ..r }
    } else {
        spec_flags(args.drop_first())
    }
}

/// How a processed prefix's accumulated flags combine with the suffix's.
pub open spec fn spec_merge_flags(acc: SpecFlags, rest: SpecFlags) -> SpecFlags {
    SpecFlags {
        all_features: acc.all_features || rest.all_features,
        no_default_features: acc.no_default_features || rest.no_default_features,
        features: acc.features + rest.features,
        manifest_path: match acc.manifest_path {
            Some(p) => Some(p),
            None => rest.manifest_path,
        },
    }
}

impl Flags {
    /// The documented default: everything unset.
    pub fn unset() -> (r: Flags)
        ensures
            flags_view(r) == spec_flags_unset(),
    {
        let r = Flags {
            all_features: false,
            no_default_features: false,
            features: Vec::new(),
            manifest_path: None,
        };
        proof {
            assert(flags_view(r).features =~= spec_flags_unset().features);
            assert(flags_view(r) =~= spec_flags_unset());
        }
        r
    }
}

/// Split one `--features` value into the features it names.
fn split_feature_pieces(s: &str) -> (r: Vec<String>)
    ensures
        str_views(r@) == spec_feature_pieces(s@),
{
    let n = s.unicode_len();
    let mut out: Vec<String> = Vec::new();
    let mut start: usize = 0;
    let mut i: usize = 0;
    let ghost mut allsegs: Seq<Seq<char>> = Seq::empty();
    proof {
        assert(s@.take(0) =~= Seq::<char>::empty());
        assert(split_on_any(s@.take(0)) =~= allsegs.push(s@.subrange(0, 0)));
        assert(str_views(out@) =~= nonempty_segments(allsegs));
    }
    while i < n
        invariant
            start <= i <= n,
            n == s@.len(),
            split_on_any(s@.take(i as int)) == allsegs.push(s@.subrange(start as int, i as int)),
            str_views(out@) == nonempty_segments(allsegs),
        decreases n - i,
    {
        let c = s.get_char(i);
        proof {
            assert(s@.take(i as int + 1) =~= s@.take(i as int).push(s@[i as int]));
            assert(s@.take(i as int + 1).drop_last() =~= s@.take(i as int));
            assert(s@.take(i as int + 1).last() == s@[i as int]);
            assert(allsegs.push(s@.subrange(start as int, i as int)).drop_last() =~= allsegs);
            assert(allsegs.push(s@.subrange(start as int, i as int)).last() == s@.subrange(
                start as int,
                i as int,
            ));
        }
        if c == ',' || c == ' ' {
            proof {
                assert(allsegs.push(s@.subrange(start as int, i as int)).drop_last() =~= allsegs);
            }
            if start < i {
                let seg = s.substring_char(start, i);
                let owned: String = seg.to_owned();
                let ghost before = str_views(out@);
                out.push(owned);
                proof {
                    assert(str_views(out@) =~= before.push(s@.subrange(start as int, i as int)));
                }
            } else {
                proof {
                    assert(s@.subrange(start as int, i as int) =~= Seq::<char>::empty());
                }
            }
            proof {
                allsegs = allsegs.push(s@.subrange(start as int, i as int));
            }
            start = i + 1;
            proof {
                assert(s@.subrange(start as int, start as int) =~= Seq::<char>::empty());
            }
        } else {
            proof {
                assert(s@.subrange(start as int, i as int + 1) =~= s@.subrange(
                    start as int,
                    i as int,
                ).push(s@[i as int]));
            }
        }
        i = i + 1;
    }
    proof {
        assert(s@.take(n as int) =~= s@);
        assert(allsegs.push(s@.subrange(start as int, n as int)).drop_last() =~= allsegs);
        assert(allsegs.push(s@.subrange(start as int, n as int)).last() == s@.subrange(
            start as int,
            n as int,
        ));
        assert(split_on_any(s@) == allsegs.push(s@.subrange(start as int, n as int)));
    }
    if start < n {
        let seg = s.substring_char(start, n);
        let owned: String = seg.to_owned();
        let ghost before = str_views(out@);
        out.push(owned);
        proof {
            assert(str_views(out@) =~= before.push(s@.subrange(start as int, n as int)));
        }
    } else {
        proof {
            assert(s@.subrange(start as int, n as int) =~= Seq::<char>::empty());
        }
    }
    out
}

/// Parse an orchestrator argument vector into the recognized flags.
pub fn parse_invocation_args(args: &Vec<String>) -> (r: Flags)
    ensures
        flags_view(r) == spec_flags(str_views(args@)),
{
    let ghost av = str_views(args@);
    let n = args.len();
    let mut all_features = false;
    let mut no_default_features = false;
    let mut features: Vec<String> = Vec::new();
    let mut manifest_path: Option<String> = None;
    let mut i: usize = 0;
    proof {
        assert(av.skip(0) =~= av);
    }
    while i < n
        invariant
            i <= n,
            n == args@.len(),
            av == str_views(args@),
            spec_flags(av) == spec_merge_flags(
                spec_flags_of(
                    all_features,
                    no_default_features,
                    str_views(features@),
                    opt_view(manifest_path),
                ),
                spec_flags(av.skip(i as int)),
            ),
        decreases n - i,
    {
        let ghost acc = spec_flags_of(
            all_features,
            no_default_features,
            str_views(features@),
            opt_view(manifest_path),
        );
        proof {
            assert(av.skip(i as int)[0] == av[i as int]);
            assert(av.skip(i as int).drop_first() =~= av.skip(i as int + 1));
        }
        let arg = &args[i];
        if str_eq(arg.as_str(), "--all-features") {
            all_features = true;
            i = i + 1;
        } else if str_eq(arg.as_str(), "--no-default-features") {
            no_default_features = true;
            i = i + 1;
        } else if str_eq(arg.as_str(), "--features") && i + 1 < n {
            proof {
                assert(av.skip(i as int).skip(2) =~= av.skip(i as int + 2));
                assert(av.skip(i as int)[1] == av[i as int + 1]);
            }
            let mut pieces = split_feature_pieces(args[i + 1].as_str());
            let ghost pv = str_views(pieces@);
            let ghost fv = str_views(features@);
            features.append(&mut pieces);
            proof {
                assert(str_views(features@) =~= fv + pv);
                assert(acc.features + (pv + spec_flags(av.skip(i as int + 2)).features) =~= (
                acc.features + pv) + spec_flags(av.skip(i as int + 2)).features);
            }
            i = i + 2;
        } else if starts_with_str(arg.as_str(), "--features=") {
            let plen = "--features=".unicode_len();
            let val = arg.as_str().substring_char(plen, arg.as_str().unicode_len());
            proof {
                assert(val@ =~= av[i as int].skip("--features="@.len() as int));
            }
            let mut pieces = split_feature_pieces(val);
            let ghost pv = str_views(pieces@);
            let ghost fv = str_views(features@);
            features.append(&mut pieces);
            proof {
                assert(str_views(features@) =~= fv + pv);
                assert(acc.features + (pv + spec_flags(av.skip(i as int + 1)).features) =~= (
                acc.features + pv) + spec_flags(av.skip(i as int + 1)).features);
            }
            i = i + 1;
        } else if str_eq(arg.as_str(), "--manifest-path") && i + 1 < n {
            proof {
                assert(av.skip(i as int).skip(2) =~= av.skip(i as int + 2));
                assert(av.skip(i as int)[1] == av[i as int + 1]);
            }
            if manifest_path.is_none() {
                manifest_path = Some(args[i + 1].clone());
            }
            i = i + 2;
        } else if starts_with_str(arg.as_str(), "--manifest-path=") {
            let plen = "--manifest-path=".unicode_len();
            let val = arg.as_str().substring_char(plen, arg.as_str().unicode_len());
            proof {
                assert(val@ =~= av[i as int].skip("--manifest-path="@.len() as int));
            }
            if manifest_path.is_none() {
                manifest_path = Some(val.to_owned());
            }
            i = i + 1;
        } else {
            i = i + 1;
        }
    }
    proof {
        assert(av.skip(n as int) =~= Seq::<Seq<char>>::empty());
        let acc = spec_flags_of(
            all_features,
            no_default_features,
            str_views(features@),
            opt_view(manifest_path),
        );
        assert(spec_merge_flags(acc, spec_flags_unset()).features =~= acc.features);
        assert(spec_merge_flags(acc, spec_flags_unset()) =~= acc);
    }
    Flags { all_features, no_default_features, features, manifest_path }
}

} // verus!
