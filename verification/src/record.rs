//! The registration record: the sentinel artifact a registrant writes into
//! its own build-output directory.  Line 1 is the registrant's manifest
//! directory; every further line names one collector it registers with.  The
//! file is append-only: each registration appends one collector line, and
//! nothing is ever rewritten.

use vstd::prelude::*;

use crate::text::{spec_lines, split_lines, split_on, str_views};

verus! {

/// A parsed registration record.
pub struct RegistrationRecord {
    /// The registrant's own manifest directory, from the record's first line.
    pub manifest_dir: String,
    /// The collectors the registrant registered with, one per remaining
    /// line, in registration order and with repetitions kept.
    pub collectors: Vec<String>,
}

/// `s` holds no line separator.
pub open spec fn newline_free(s: Seq<char>) -> bool {
    forall|i: int| 0 <= i < s.len() ==> s[i] != '\n'
}

/// Content of a record created by a registrant's first registration: its
/// manifest directory, then the collector name, each newline-terminated.
pub open spec fn spec_initial_record(dir: Seq<char>, collector: Seq<char>) -> Seq<char> {
    dir + seq!['\n'] + collector + seq!['\n']
}

/// The one newline-terminated line a further registration appends.
pub open spec fn spec_registration_line(collector: Seq<char>) -> Seq<char> {
    collector + seq!['\n']
}

/// A record's manifest directory and collector list, or `None` for content
/// with no first line, which is malformed.
pub open spec fn spec_parse_record(content: Seq<char>) -> Option<(Seq<char>, Seq<Seq<char>>)> {
    let ls = spec_lines(content);
    if ls.len() == 0 {
        None
    } else {
        Some((ls[0], ls.drop_first()))
    }
}

/// The fixed name of the sentinel file inside a build-output directory's
/// `out` subdirectory.
pub fn sentinel_file_name() -> (r: &'static str)
    ensures
        r@ == "manifest_dir.inwelling"@,
{
    "manifest_dir.inwelling"
}

/// Build the content of a fresh record.
pub fn initial_record(manifest_dir: &str, collector: &str) -> (r: String)
    ensures
        r@ == spec_initial_record(manifest_dir@, collector@),
{
    proof {
        reveal_strlit("\n");
        assert("\n"@ =~= seq!['\n']);
    }
    let mut s: String = manifest_dir.to_owned();
    s.append("\n");
    s.append(collector);
    s.append("\n");
    s
}

/// Build the one line a further registration appends.
pub fn registration_line(collector: &str) -> (r: String)
    ensures
        r@ == spec_registration_line(collector@),
{
    proof {
        reveal_strlit("\n");
        assert("\n"@ =~= seq!['\n']);
    }
    let mut s: String = collector.to_owned();
    s.append("\n");
    s
}

/// Parse a record's content per `spec_parse_record`.
pub fn parse_record(content: &str) -> (r: Option<RegistrationRecord>)
    ensures
        match r {
            Some(rec) => spec_parse_record(content@) == Some(
                (rec.manifest_dir@, str_views(rec.collectors@)),
            ),
            None => spec_parse_record(content@) is None,
        },
{
    let mut ls = split_lines(content);
    if ls.len() == 0 {
        return None;
    }
    let manifest_dir = ls.remove(0);
    proof {
        assert(str_views(ls@) =~= spec_lines(content@).drop_first());
    }
    Some(RegistrationRecord { manifest_dir, collectors: ls })
}

/// Appending separator-free text to a sequence extends its last segment.
proof fn lemma_split_on_append_no_sep(s: Seq<char>, t: Seq<char>, sep: char)
    requires
        forall|i: int| 0 <= i < t.len() ==> t[i] != sep,
    ensures
        split_on(s + t, sep) == split_on(s, sep).drop_last().push(split_on(s, sep).last() + t),
    decreases t.len(),
{
    crate::text::lemma_split_on_nonempty(s, sep);
    let a = split_on(s, sep);
    if t.len() == 0 {
        assert(s + t =~= s);
        assert(a.last() + t =~= a.last());
        assert(a.drop_last().push(a.last() + t) =~= a);
    } else {
        lemma_split_on_append_no_sep(s, t.drop_last(), sep);
        let q = s + t;
        assert(q.drop_last() =~= s + t.drop_last());
        assert(q.last() == t.last());
        let b = split_on(s + t.drop_last(), sep);
        assert(b == a.drop_last().push(a.last() + t.drop_last()));
        assert(split_on(q, sep) == b.drop_last().push(b.last().push(q.last())));
        assert(b.drop_last() =~= a.drop_last());
        assert(b.last() == a.last() + t.drop_last());
        assert((a.last() + t.drop_last()).push(t.last()) =~= a.last() + t);
    }
}

/// A separator-free sequence is one whole segment.
proof fn lemma_split_on_no_sep(t: Seq<char>, sep: char)
    requires
        forall|i: int| 0 <= i < t.len() ==> t[i] != sep,
    ensures
        split_on(t, sep) == seq![t],
{
    lemma_split_on_append_no_sep(Seq::empty(), t, sep);
    assert(Seq::<char>::empty() + t =~= t);
    assert(split_on(Seq::<char>::empty(), sep) == seq![Seq::<char>::empty()]);
    assert(seq![Seq::<char>::empty()].drop_last().push(Seq::<char>::empty() + t) =~= seq![
        Seq::<char>::empty() + t,
    ]);
    assert(Seq::<char>::empty() + t =~= t);
    assert(seq![Seq::<char>::empty() + t] =~= seq![t]);
}

/// Appending one registration line to newline-terminated content appends one
/// collector entry to its lines.
pub proof fn lemma_record_append_line(content: Seq<char>, collector: Seq<char>)
    requires
        content.len() > 0,
        content.last() == '\n',
        newline_free(collector),
    ensures
        spec_lines(content + spec_registration_line(collector)) == spec_lines(content).push(
            collector,
        ),
{
    let a = split_on(content, '\n');
    let q1 = content + collector;
    let q = content + spec_registration_line(collector);
    lemma_split_on_append_no_sep(content, collector, '\n');
    assert(split_on(q1, '\n') == a.drop_last().push(a.last() + collector));
    // content ends in '\n', so its final segment is empty
    assert(a == split_on(content.drop_last(), '\n').push(Seq::<char>::empty()));
    assert(a.last() + collector =~= collector);
    assert(q =~= q1.push('\n'));
    assert(q.last() == '\n');
    assert(q.drop_last() =~= q1);
    assert(split_on(q, '\n') == split_on(q1, '\n').push(Seq::<char>::empty()));
    assert(spec_lines(q) == split_on(q1, '\n'));
    assert(spec_lines(content) =~= a.drop_last());
    assert(split_on(q1, '\n') =~= spec_lines(content).push(collector));
}

/// A fresh record parses back to its manifest directory and its one
/// collector.
pub proof fn lemma_initial_record_parses(dir: Seq<char>, collector: Seq<char>)
    requires
        newline_free(dir),
        newline_free(collector),
    ensures
        spec_parse_record(spec_initial_record(dir, collector)) == Some(
            (dir, seq![collector]),
        ),
{
    let c1 = dir + seq!['\n'];
    lemma_split_on_no_sep(dir, '\n');
    assert(c1.last() == '\n');
    assert(c1.drop_last() =~= dir);
    assert(split_on(c1, '\n') == seq![dir].push(Seq::<char>::empty()));
    assert(spec_lines(c1) =~= seq![dir]);
    assert(spec_initial_record(dir, collector) =~= c1 + spec_registration_line(collector));
    lemma_record_append_line(c1, collector);
    assert(spec_lines(spec_initial_record(dir, collector)) == seq![dir].push(collector));
    assert(seq![dir].push(collector).drop_first() =~= seq![collector]);
}

/// Law: registration is append-safe.  Registering twice with the same
/// collector from the same build-output directory yields a record that still
/// parses, with that collector listed twice.
pub proof fn lemma_register_twice(dir: Seq<char>, collector: Seq<char>)
    requires
        newline_free(dir),
        newline_free(collector),
    ensures
        spec_parse_record(
            spec_initial_record(dir, collector) + spec_registration_line(collector),
        ) == Some((dir, seq![collector, collector])),
{
    let c0 = dir + seq!['\n'];
    let c1 = spec_initial_record(dir, collector);
    lemma_split_on_no_sep(dir, '\n');
    assert(c0.last() == '\n');
    assert(c0.drop_last() =~= dir);
    assert(split_on(c0, '\n') == seq![dir].push(Seq::<char>::empty()));
    assert(spec_lines(c0) =~= seq![dir]);
    assert(c1 =~= c0 + spec_registration_line(collector));
    lemma_record_append_line(c0, collector);
    assert(spec_lines(c1) == seq![dir].push(collector));
    assert(c1 =~= (dir + seq!['\n'] + collector).push('\n'));
    assert(c1.last() == '\n');
    lemma_record_append_line(c1, collector);
    assert(spec_lines(c1 + spec_registration_line(collector)) == seq![dir].push(collector).push(
        collector,
    ));
    assert(seq![dir].push(collector).push(collector).drop_first() =~= seq![collector, collector]);
}

} // verus!
