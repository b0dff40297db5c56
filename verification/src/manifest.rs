//! Reading a registrant's manifest.  The manifest is a TOML document; the
//! `toml` crate parses it, behind trusted declarations, and this module
//! extracts the facts the resolver works on: the declared package name and,
//! for every collector addressed under the package's reserved
//! `package.metadata.inwelling` section, that collector's metadata value and
//! its optional `feature` gate.  Each fact of the text is given a name, and
//! a trusted wrapper per fact makes the fixed lookup; parsing is a function
//! of the text alone, so the extraction's contract is stated over those
//! names and ties the result to the text.

use vstd::prelude::*;

use crate::flags::opt_view;
use crate::text::str_views;

verus! {

#[verifier::external_type_specification]
#[verifier::external_body]
pub struct ExTomlValue(toml::Value);

#[verifier::external_type_specification]
#[verifier::external_body]
#[verifier::reject_recursive_types(K)]
#[verifier::reject_recursive_types(V)]
pub struct ExTomlMap<K, V>(toml::map::Map<K, V>);

/// Whether `s` parses as a TOML table; a function of the text alone.
pub uninterp spec fn toml_parse_ok(s: Seq<char>) -> bool;

/// The string at `package.name` in the document `s`, or `None` when `s`
/// does not parse, the path is absent, or the value is not a string.
pub uninterp spec fn toml_package_name_of(s: Seq<char>) -> Option<Seq<char>>;

/// The keys under `package.metadata.inwelling` in the document `s`, in the
/// table's key order; empty when `s` does not parse or that path is not a
/// table.
pub uninterp spec fn toml_collector_keys_of(s: Seq<char>) -> Seq<Seq<char>>;

/// The `feature` key of the section `package.metadata.inwelling.<c>` when
/// it is a string, else `None`.
pub uninterp spec fn toml_gate_of(s: Seq<char>, c: Seq<char>) -> Option<Seq<char>>;

/// The section `package.metadata.inwelling.<c>` either has no `feature`
/// key or a string one (vacuously so when the section is absent).
pub uninterp spec fn toml_gate_wellformed(s: Seq<char>, c: Seq<char>) -> bool;

/// Relies on `FromStr` for `toml::Table`: whether parsing succeeds depends
/// on the text alone.  A failure's rendering is carried back as the error.
#[verifier::external_body]
fn parse_toml_table(s: &str) -> (r: Result<toml::map::Map<String, toml::Value>, String>)
    ensures
        r is Ok <==> toml_parse_ok(s@),
{
    match s.parse::<toml::Table>() {
        Ok(t) => Ok(t),
        Err(e) => Err(e.to_string()),
    }
}

/// Relies on toml's parser and the fixed `package.name` lookup
/// (`Map::get`, `Value::get`, `Value::as_str`): the declared package name
/// is a function of the text alone.
#[verifier::external_body]
fn manifest_package_name(text: &str) -> (r: Option<String>)
    ensures
        opt_view(r) == toml_package_name_of(text@),
{
    let table: Option<toml::Table> = text.parse().ok();
    let pkg = if let Some(t) = &table { t.get("package") } else { None };
    let name = if let Some(p) = pkg { p.get("name") } else { None };
    let s = if let Some(n) = name { n.as_str() } else { None };
    s.map(str::to_owned)
}

/// Relies on toml's parser and the fixed `package.metadata.inwelling`
/// lookup (`Value::get`, `Value::as_table`, `Map::keys`): the reserved
/// section's collector keys, in key order; a map's keys are distinct.
#[verifier::external_body]
fn manifest_collector_keys(text: &str) -> (r: Vec<String>)
    ensures
        str_views(r@) == toml_collector_keys_of(text@),
        forall|i: int, j: int| 0 <= i < j < r@.len() ==> r@[i]@ != r@[j]@,
{
    let table: Option<toml::Table> = text.parse().ok();
    let pkg = if let Some(t) = &table { t.get("package") } else { None };
    let md = if let Some(p) = pkg { p.get("metadata") } else { None };
    let inw = if let Some(m) = md { m.get("inwelling") } else { None };
    let sect = if let Some(i) = inw { i.as_table() } else { None };
    match sect {
        Some(m) => m.keys().cloned().collect(),
        None => Vec::new(),
    }
}

/// Relies on toml's parser and the fixed lookup of a collector section's
/// `feature` key (`Value::get`, `Value::as_str`): `None` stands for a
/// present non-string value; otherwise that key's string, a function of
/// the text alone.
#[verifier::external_body]
fn manifest_gate(text: &str, collector: &str) -> (r: Option<Option<String>>)
    ensures
        r is Some <==> toml_gate_wellformed(text@, collector@),
        r matches Some(g) ==> opt_view(g) == toml_gate_of(text@, collector@),
{
    let table: Option<toml::Table> = text.parse().ok();
    let pkg = if let Some(t) = &table { t.get("package") } else { None };
    let md = if let Some(p) = pkg { p.get("metadata") } else { None };
    let inw = if let Some(m) = md { m.get("inwelling") } else { None };
    let sect = if let Some(i) = inw { i.get(collector) } else { None };
    let gate = if let Some(s) = sect { s.get("feature") } else { None };
    match gate {
        None => Some(None),
        Some(v) => match v.as_str() {
            Some(f) => Some(Some(f.to_owned())),
            None => None,
        },
    }
}

/// Relies on toml's parser and the fixed lookup of a collector's section
/// (`Value::get`, `Clone` for `toml::Value`): the section's whole value,
/// present exactly for the reserved section's keys.
#[verifier::external_body]
fn manifest_metadata(text: &str, collector: &str) -> (r: Option<toml::Value>)
    ensures
        r is Some <==> toml_collector_keys_of(text@).contains(collector@),
{
    let table: Option<toml::Table> = text.parse().ok();
    let pkg = if let Some(t) = &table { t.get("package") } else { None };
    let md = if let Some(p) = pkg { p.get("metadata") } else { None };
    let inw = if let Some(m) = md { m.get("inwelling") } else { None };
    let sect = if let Some(i) = inw { i.get(collector) } else { None };
    sect.cloned()
}

/// One collector's entry under the manifest's reserved metadata section.
pub struct SectionInfo {
    /// The collector the entry addresses: its key under
    /// `package.metadata.inwelling`.
    pub collector: String,
    /// The entry's `feature` gate, when declared: the registration counts
    /// only while that feature is enabled for the registrant.
    pub feature_gate: Option<String>,
    /// The entry's whole metadata value, handed through to the collector.
    pub metadata: toml::Value,
}

/// What the resolver reads from one manifest.
pub struct ManifestData {
    /// The `package.name` the manifest declares.
    pub package_name: String,
    /// One entry per collector addressed under the reserved section, in the
    /// manifest's key order.
    pub sections: Vec<SectionInfo>,
}

/// Why a manifest could not be read.
#[derive(Debug)]
pub enum ManifestError {
    /// The text is not a valid TOML document; the payload renders the
    /// parser's complaint.
    Parse { detail: String },
    /// The document lacks a string `package.name`.
    MissingPackageName,
    /// A collector entry's `feature` key is present but not a string.
    GateNotString { collector: String },
}

/// Extract the resolver's view of a manifest from its text.  Every failure
/// is decided by the text alone: invalid TOML, a missing string
/// `package.name` (an anonymous registrant could not be reported), or a
/// non-string gate on the first offending collector entry.  On success the
/// declared name, the reserved section's keys in order, and their gates
/// are exactly the text's; a missing reserved section is no error and
/// yields no collector entries.
pub fn extract_manifest(text: &str) -> (r: Result<ManifestData, ManifestError>)
    ensures
        (r matches Err(e) && e is Parse) <==> !toml_parse_ok(text@),
        (r matches Err(e) && e is MissingPackageName) <==> (toml_parse_ok(text@)
            && toml_package_name_of(text@) is None),
        (r matches Err(e) && e is GateNotString) <==> (toml_parse_ok(text@)
            && toml_package_name_of(text@) is Some && exists|i: int|
            0 <= i < toml_collector_keys_of(text@).len() && !toml_gate_wellformed(
                text@,
                toml_collector_keys_of(text@)[i],
            )),
        r matches Err(e) ==> (e matches ManifestError::GateNotString { collector }
            ==> exists|i: int|
                {
                    &&& 0 <= i < toml_collector_keys_of(text@).len()
                    &&& collector@ == toml_collector_keys_of(text@)[i]
                    &&& !toml_gate_wellformed(text@, toml_collector_keys_of(text@)[i])
                    &&& forall|j: int|
                        0 <= j < i ==> toml_gate_wellformed(
                            text@,
                            toml_collector_keys_of(text@)[j],
                        )
                }),
        r matches Ok(m) ==> {
            &&& toml_parse_ok(text@)
            &&& Some(m.package_name@) == toml_package_name_of(text@)
            &&& m.sections@.len() == toml_collector_keys_of(text@).len()
            &&& forall|i: int|
                0 <= i < m.sections@.len() ==> #[trigger] m.sections@[i].collector@
                    == toml_collector_keys_of(text@)[i]
            &&& forall|i: int|
                0 <= i < m.sections@.len() ==> toml_gate_wellformed(
                    text@,
                    #[trigger] toml_collector_keys_of(text@)[i],
                )
            &&& forall|i: int|
                0 <= i < m.sections@.len() ==> opt_view(#[trigger] m.sections@[i].feature_gate)
                    == toml_gate_of(text@, toml_collector_keys_of(text@)[i])
            &&& forall|a: int, b: int|
                0 <= a < b < m.sections@.len() ==> m.sections@[a].collector@
                    != m.sections@[b].collector@
        },
{
    match parse_toml_table(text) {
        Ok(_) => {},
        Err(detail) => {
            return Err(ManifestError::Parse { detail });
        },
    };
    let package_name: String = match manifest_package_name(text) {
        Some(n) => n,
        None => {
            return Err(ManifestError::MissingPackageName);
        },
    };
    let keys = manifest_collector_keys(text);
    let mut sections: Vec<SectionInfo> = Vec::new();
    let mut k: usize = 0;
    while k < keys.len()
        invariant
            toml_parse_ok(text@),
            toml_package_name_of(text@) is Some,
            k <= keys@.len(),
            str_views(keys@) == toml_collector_keys_of(text@),
            forall|i: int, j: int| 0 <= i < j < keys@.len() ==> keys@[i]@ != keys@[j]@,
            sections@.len() == k,
            forall|i: int|
                0 <= i < k ==> #[trigger] sections@[i].collector@ == toml_collector_keys_of(
                    text@,
                )[i],
            forall|i: int|
                0 <= i < k ==> toml_gate_wellformed(
                    text@,
                    #[trigger] toml_collector_keys_of(text@)[i],
                ),
            forall|i: int|
                0 <= i < k ==> opt_view(#[trigger] sections@[i].feature_gate) == toml_gate_of(
                    text@,
                    toml_collector_keys_of(text@)[i],
                ),
        decreases keys@.len() - k,
    {
        proof {
            assert(str_views(keys@)[k as int] == keys@[k as int]@);
        }
        let feature_gate: Option<String> = match manifest_gate(text, keys[k].as_str()) {
            Some(g) => g,
            None => {
                return Err(ManifestError::GateNotString { collector: keys[k].clone() });
            },
        };
        let metadata: toml::Value = match manifest_metadata(text, keys[k].as_str()) {
            Some(v) => v,
            None => {
                // the key came from the reserved section, so its section
                // exists
                proof {
                    assert(toml_collector_keys_of(text@).contains(keys@[k as int]@));
                }
                unreached()
            },
        };
        sections.push(SectionInfo { collector: keys[k].clone(), feature_gate, metadata });
        k = k + 1;
    }
    proof {
        assert forall|a: int, b: int| 0 <= a < b < sections@.len() implies sections@[a].collector@
            != sections@[b].collector@ by {
            assert(sections@[a].collector@ == toml_collector_keys_of(text@)[a]);
            assert(sections@[b].collector@ == toml_collector_keys_of(text@)[b]);
            assert(str_views(keys@)[a] == keys@[a]@);
            assert(str_views(keys@)[b] == keys@[b]@);
        }
    }
    Ok(ManifestData { package_name, sections })
}

} // verus!
