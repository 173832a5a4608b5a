//! The document serializer.
//!
//! The traversal primitive and the probe of the root path are the caller's
//! business: what arrives here is the probe's finding and the walk's entries,
//! in the walk's order.  Every entry that is a regular file, passes the
//! filter and could be read becomes one `<document>` element holding its
//! escaped relative path and escaped content, numbered from 1 upward without
//! gaps; an invalid root is the one fatal failure.

use vstd::prelude::*;

verus! {

use vstd::string::StringExecFns;

use crate::escape::escaped;
use crate::escape::xml_escape;
use crate::policy::Config;
use crate::policy::MatchMode;
use crate::policy::dir_component_hit;
use crate::policy::file_name_hit;
use crate::policy::join_components;
use crate::policy::joined;
use crate::policy::should_skip_path;
use crate::policy::skip_spec;

/// One visited entry of the walk: the path as its normal components (as the
/// traversal yielded it, root prefix included), whether it is a directory,
/// and the file's text where it could be read (`None` records a failed read).
pub struct Entry {
    pub path: Vec<String>,
    pub is_dir: bool,
    pub content: Option<String>,
}

/// What a probe of the root path found.
#[derive(Clone, Copy, PartialEq, Eq, Structural, Debug)]
pub enum RootStatus {
    Missing,
    NotDirectory,
    Directory,
}

/// The fatal failures: only an invalid root aborts a run.
#[derive(Clone, Copy, PartialEq, Eq, Structural, Debug)]
pub enum SerializeError {
    RootNotFound,
    RootNotADirectory,
}

impl SerializeError {
    /// A short description of the failure for reporting.
    pub fn message(&self) -> (r: &'static str)
        ensures
            *self == SerializeError::RootNotFound ==> r@ == "root path not found"@,
            *self == SerializeError::RootNotADirectory ==> r@
                == "root path is not a directory"@,
    {
        match self {
            SerializeError::RootNotFound => "root path not found",
            SerializeError::RootNotADirectory => "root path is not a directory",
        }
    }
}

impl Entry {
    /// Whether this entry becomes a document: a regular file that passes the
    /// filter and whose text could be read.
    pub open spec fn is_emitted(&self, c: Config) -> bool {
        &&& !self.is_dir
        &&& !skip_spec(self.path.deep_view(), c)
        &&& self.content is Some
    }
}

/// The decimal digit for `d`.
pub open spec fn digit_char(d: nat) -> char {
    if d == 0 {
        '0'
    } else if d == 1 {
        '1'
    } else if d == 2 {
        '2'
    } else if d == 3 {
        '3'
    } else if d == 4 {
        '4'
    } else if d == 5 {
        '5'
    } else if d == 6 {
        '6'
    } else if d == 7 {
        '7'
    } else if d == 8 {
        '8'
    } else {
        '9'
    }
}

/// The decimal numeral for `n`, most significant digit first.
pub open spec fn dec_spec(n: nat) -> Seq<char>
    decreases n,
{
    if n < 10 {
        seq![digit_char(n)]
    } else {
        dec_spec(n / 10) + seq![digit_char(n % 10)]
    }
}

/// The one-character text for a single decimal digit.
fn digit_str(d: usize) -> (r: &'static str)
    requires
        d < 10,
    ensures
        r@ == seq![digit_char(d as nat)],
{
    let s: &'static str = if d == 0 {
        "0"
    } else if d == 1 {
        "1"
    } else if d == 2 {
        "2"
    } else if d == 3 {
        "3"
    } else if d == 4 {
        "4"
    } else if d == 5 {
        "5"
    } else if d == 6 {
        "6"
    } else if d == 7 {
        "7"
    } else if d == 8 {
        "8"
    } else {
        "9"
    };
    proof {
        reveal_strlit("0");
        reveal_strlit("1");
        reveal_strlit("2");
        reveal_strlit("3");
        reveal_strlit("4");
        reveal_strlit("5");
        reveal_strlit("6");
        reveal_strlit("7");
        reveal_strlit("8");
        reveal_strlit("9");
        assert(s@ =~= seq![digit_char(d as nat)]);
    }
    s
}

/// The decimal numeral for `n` as a string.
fn usize_to_dec(n: usize) -> (r: String)
    ensures
        r@ == dec_spec(n as nat),
    decreases n,
{
    if n < 10 {
        digit_str(n).to_owned()
    } else {
        let mut s = usize_to_dec(n / 10);
        s.append(digit_str(n % 10));
        s
    }
}

/// The path relative to the root: the components after the root prefix, or
/// the whole path where the root is not a prefix of it.
pub open spec fn rel_of(path: Seq<Seq<char>>, root: Seq<Seq<char>>) -> Seq<Seq<char>> {
    if root.len() <= path.len() && path.take(root.len() as int) == root {
        path.skip(root.len() as int)
    } else {
        path
    }
}

/// The document an emitted entry yields: its relative path text and its
/// content.
pub open spec fn doc_of(e: Entry, root: Seq<Seq<char>>) -> (Seq<char>, Seq<char>) {
    (joined(rel_of(e.path.deep_view(), root)), e.content->0@)
}

/// The documents of a walk, in walk order: one per emitted entry.
pub open spec fn doc_list(entries: Seq<Entry>, root: Seq<Seq<char>>, c: Config) -> Seq<
    (Seq<char>, Seq<char>),
>
    decreases entries.len(),
{
    if entries.len() == 0 {
        Seq::empty()
    } else {
        doc_list(entries.drop_last(), root, c) + (if entries.last().is_emitted(c) {
            seq![doc_of(entries.last(), root)]
        } else {
            Seq::empty()
        })
    }
}

/// The opening of the XML document.
pub open spec fn xml_header() -> Seq<char> {
    "<documents>\n"@
}

/// The closing of the XML document.
pub open spec fn xml_footer() -> Seq<char> {
    "</documents>\n"@
}

/// One `<document>` element: index, escaped source path, escaped content.
pub open spec fn doc_xml(idx: nat, source: Seq<char>, content: Seq<char>) -> Seq<char> {
    "  <document index=\""@ + dec_spec(idx) + "\">\n    <source>"@ + escaped(source)
        + "</source>\n    <document_content>\n"@ + escaped(content)
        + "\n    </document_content>\n  </document>\n"@
}

/// The elements for a run of documents, numbered upward from `start`.
pub open spec fn docs_xml(docs: Seq<(Seq<char>, Seq<char>)>, start: nat) -> Seq<char>
    decreases docs.len(),
{
    if docs.len() == 0 {
        Seq::empty()
    } else {
        doc_xml(start, docs[0].0, docs[0].1) + docs_xml(docs.drop_first(), (start + 1) as nat)
    }
}

/// The whole output for a run's documents.
pub open spec fn xml_output(docs: Seq<(Seq<char>, Seq<char>)>) -> Seq<char> {
    xml_header() + docs_xml(docs, 1) + xml_footer()
}

proof fn lemma_docs_xml_snoc(docs: Seq<(Seq<char>, Seq<char>)>, d: (Seq<char>, Seq<char>), start: nat)
    ensures
        docs_xml(docs.push(d), start) == docs_xml(docs, start) + doc_xml(
            (start + docs.len()) as nat,
            d.0,
            d.1,
        ),
    decreases docs.len(),
{
    if docs.len() == 0 {
        assert(docs.push(d)[0] == d);
        assert(docs.push(d).drop_first() =~= Seq::<(Seq<char>, Seq<char>)>::empty());
        assert(docs_xml(docs.push(d).drop_first(), (start + 1) as nat) == Seq::<char>::empty());
        assert(docs_xml(docs.push(d), start) == doc_xml(start, d.0, d.1) + Seq::<char>::empty());
        assert(docs_xml(docs, start) == Seq::<char>::empty());
        assert((start + docs.len()) as nat == start);
        assert(doc_xml(start, d.0, d.1) + Seq::<char>::empty() =~= Seq::<char>::empty() + doc_xml(
            start,
            d.0,
            d.1,
        ));
    } else {
        assert(docs.push(d)[0] == docs[0]);
        assert(docs.push(d).drop_first() =~= docs.drop_first().push(d));
        lemma_docs_xml_snoc(docs.drop_first(), d, (start + 1) as nat);
        let a = doc_xml(start, docs[0].0, docs[0].1);
        let b = docs_xml(docs.drop_first(), (start + 1) as nat);
        let c = doc_xml((start + docs.len()) as nat, d.0, d.1);
        assert(docs.drop_first().len() == docs.len() - 1);
        assert(docs_xml(docs.drop_first().push(d), (start + 1) as nat) == b + c);
        assert(docs_xml(docs.push(d), start) == a + (b + c));
        assert(docs_xml(docs, start) == a + b);
        assert(a + (b + c) =~= (a + b) + c);
    }
}

/// How many entries of the walk are regular files.
pub open spec fn count_files(entries: Seq<Entry>) -> nat
    decreases entries.len(),
{
    if entries.len() == 0 {
        0
    } else {
        count_files(entries.drop_last()) + (if !entries.last().is_dir {
            1nat
        } else {
            0nat
        })
    }
}

/// How many file entries the policy excludes.
pub open spec fn count_excluded(entries: Seq<Entry>, c: Config) -> nat
    decreases entries.len(),
{
    if entries.len() == 0 {
        0
    } else {
        count_excluded(entries.drop_last(), c) + (if !entries.last().is_dir && skip_spec(
            entries.last().path.deep_view(),
            c,
        ) {
            1nat
        } else {
            0nat
        })
    }
}

/// How many surviving file entries could not be read.
pub open spec fn count_unreadable(entries: Seq<Entry>, c: Config) -> nat
    decreases entries.len(),
{
    if entries.len() == 0 {
        0
    } else {
        count_unreadable(entries.drop_last(), c) + (if !entries.last().is_dir && !skip_spec(
            entries.last().path.deep_view(),
            c,
        ) && entries.last().content is None {
            1nat
        } else {
            0nat
        })
    }
}

/// The count law: for every walk, the number of `<document>` elements equals
/// the regular files visited, less those the policy excludes, less those
/// that could not be read.
pub proof fn lemma_document_count(entries: Seq<Entry>, root: Seq<Seq<char>>, c: Config)
    ensures
        doc_list(entries, root, c).len() + count_excluded(entries, c) + count_unreadable(entries, c)
            == count_files(entries),
    decreases entries.len(),
{
    if entries.len() > 0 {
        lemma_document_count(entries.drop_last(), root, c);
    }
}

/// The empty-walk law: a walk that visited no regular file yields no
/// documents, and the output is exactly the empty `<documents>` root.
pub proof fn lemma_empty_walk_output(entries: Seq<Entry>, root: Seq<Seq<char>>, c: Config)
    requires
        forall|t: int| 0 <= t < entries.len() ==> entries[t].is_dir,
    ensures
        doc_list(entries, root, c) == Seq::<(Seq<char>, Seq<char>)>::empty(),
        xml_output(doc_list(entries, root, c)) == xml_header() + xml_footer(),
    decreases entries.len(),
{
    if entries.len() > 0 {
        lemma_empty_walk_output(entries.drop_last(), root, c);
        assert(doc_list(entries, root, c) =~= Seq::<(Seq<char>, Seq<char>)>::empty());
    }
    assert(docs_xml(Seq::<(Seq<char>, Seq<char>)>::empty(), 1) == Seq::<char>::empty());
    assert(xml_header() + Seq::<char>::empty() + xml_footer() =~= xml_header() + xml_footer());
}

/// The numbering law: in the rendered output, the document at position `i`
/// of the document list carries index `start + i`.  With `start == 1` the
/// indices across the whole output are 1, 2, 3, ... — strictly increasing,
/// gapless, whatever entries were skipped between the emitted ones.
pub proof fn lemma_indices_contiguous(docs: Seq<(Seq<char>, Seq<char>)>, start: nat, i: int)
    requires
        0 <= i < docs.len(),
    ensures
        docs_xml(docs, start) == docs_xml(docs.take(i), start) + doc_xml(
            (start + i) as nat,
            docs[i].0,
            docs[i].1,
        ) + docs_xml(docs.skip(i + 1), (start + i + 1) as nat),
    decreases i,
{
    let a = doc_xml(start, docs[0].0, docs[0].1);
    if i == 0 {
        assert(docs.take(0) =~= Seq::<(Seq<char>, Seq<char>)>::empty());
        assert(docs.skip(1) =~= docs.drop_first());
        assert(docs_xml(docs.take(0), start) == Seq::<char>::empty());
        assert(docs_xml(docs, start) == a + docs_xml(docs.drop_first(), (start + 1) as nat));
        assert(Seq::<char>::empty() + a + docs_xml(docs.skip(1), (start + 1) as nat) =~= a
            + docs_xml(docs.drop_first(), (start + 1) as nat));
    } else {
        lemma_indices_contiguous(docs.drop_first(), (start + 1) as nat, i - 1);
        let rest = docs.drop_first();
        assert(rest.take(i - 1) =~= docs.take(i).drop_first());
        assert(rest.skip(i) =~= docs.skip(i + 1));
        assert(rest[i - 1] == docs[i]);
        let b = docs_xml(docs.take(i).drop_first(), (start + 1) as nat);
        let m = doc_xml((start + i) as nat, docs[i].0, docs[i].1);
        let t = docs_xml(docs.skip(i + 1), (start + i + 1) as nat);
        assert(docs_xml(rest, (start + 1) as nat) == b + m + t);
        assert(docs_xml(docs, start) == a + (b + m + t));
        assert(docs.take(i)[0] == docs[0]);
        assert(docs.take(i).len() == i);
        assert(docs_xml(docs.take(i), start) == a + b);
        assert(a + (b + m + t) =~= (a + b) + m + t);
    }
}

/// The exclusion law: every emitted document stems from an entry that is a
/// regular file, was readable, and passed the filter — so from no entry
/// whose file name is in the excluded-file set, and (in exact-component
/// mode) from none with an excluded directory name among its components.
/// The returned value is the position of that entry in the walk.
pub proof fn lemma_excluded_never_emitted(
    entries: Seq<Entry>,
    root: Seq<Seq<char>>,
    c: Config,
    k: int,
) -> (j: int)
    requires
        0 <= k < doc_list(entries, root, c).len(),
    ensures
        0 <= j < entries.len(),
        !entries[j].is_dir,
        entries[j].content is Some,
        !skip_spec(entries[j].path.deep_view(), c),
        !file_name_hit(entries[j].path.deep_view(), c.files()),
        c.match_mode == MatchMode::ExactComponent ==> !dir_component_hit(
            entries[j].path.deep_view(),
            c.dirs(),
        ),
        doc_list(entries, root, c)[k] == doc_of(entries[j], root),
    decreases entries.len(),
{
    let pre = doc_list(entries.drop_last(), root, c);
    if k < pre.len() {
        let j = lemma_excluded_never_emitted(entries.drop_last(), root, c, k);
        assert(entries.drop_last()[j] == entries[j]);
        assert(doc_list(entries, root, c)[k] == pre[k]);
        j
    } else {
        assert(entries.last().is_emitted(c));
        assert(doc_list(entries, root, c)[k] == doc_of(entries.last(), root));
        entries.len() - 1
    }
}

/// Whether the components of `root` stand as a prefix of `path`.
fn is_prefix(root: &Vec<String>, path: &Vec<String>) -> (r: bool)
    ensures
        r == (root@.len() <= path@.len() && path.deep_view().take(root@.len() as int)
            == root.deep_view()),
{
    if root.len() > path.len() {
        return false;
    }
    let mut i: usize = 0;
    while i < root.len()
        invariant
            i <= root@.len() <= path@.len(),
            forall|t: int| 0 <= t < i ==> path.deep_view()[t] == root.deep_view()[t],
        decreases root@.len() - i,
    {
        if path[i] != root[i] {
            proof {
                assert(path.deep_view().take(root@.len() as int)[i as int] == path.deep_view()[i as int]);
            }
            return false;
        }
        i += 1;
    }
    proof {
        assert(path.deep_view().take(root@.len() as int) =~= root.deep_view());
    }
    true
}

/// The entry's path relative to the root, as components.
fn relative_components(path: &Vec<String>, root: &Vec<String>) -> (r: Vec<String>)
    ensures
        r.deep_view() == rel_of(path.deep_view(), root.deep_view()),
{
    if is_prefix(root, path) {
        let mut r: Vec<String> = Vec::new();
        let mut i: usize = root.len();
        while i < path.len()
            invariant
                root@.len() <= i <= path@.len(),
                r.deep_view() == path.deep_view().subrange(root@.len() as int, i as int),
            decreases path@.len() - i,
        {
            let s: String = path[i].clone();
            proof {
                assert(s@ == path.deep_view()[i as int]);
            }
            r.push(s);
            proof {
                let prev = path.deep_view().subrange(root@.len() as int, i as int);
                assert(r.deep_view().len() == prev.len() + 1);
                assert(forall|t: int| 0 <= t < prev.len() ==> r.deep_view()[t] == prev[t]);
                assert(r.deep_view()[prev.len() as int] == s@);
                assert(r.deep_view() =~= path.deep_view().subrange(root@.len() as int, i + 1));
            }
            i += 1;
        }
        proof {
            assert(path.deep_view().subrange(root@.len() as int, path@.len() as int)
                =~= path.deep_view().skip(root@.len() as int));
        }
        r
    } else {
        let mut r: Vec<String> = Vec::new();
        let mut i: usize = 0;
        while i < path.len()
            invariant
                i <= path@.len(),
                r.deep_view() == path.deep_view().take(i as int),
            decreases path@.len() - i,
        {
            let s: String = path[i].clone();
            proof {
                assert(s@ == path.deep_view()[i as int]);
            }
            r.push(s);
            proof {
                let prev = path.deep_view().take(i as int);
                assert(r.deep_view().len() == prev.len() + 1);
                assert(forall|t: int| 0 <= t < prev.len() ==> r.deep_view()[t] == prev[t]);
                assert(r.deep_view()[prev.len() as int] == s@);
                assert(r.deep_view() =~= path.deep_view().take(i + 1));
            }
            i += 1;
        }
        proof {
            assert(path.deep_view().take(path@.len() as int) =~= path.deep_view());
        }
        r
    }
}

/// Serialize one walk into the XML document.
///
/// `status` is what the caller's probe of the root found; a missing root or
/// one that is not a directory is fatal, and nothing is produced.  Otherwise
/// the output holds, inside one `<documents>` root, one `<document>` element
/// per entry that is a regular file, passes the filter and could be read —
/// its relative path and its content XML-escaped — indexed from 1 upward
/// without gaps, in the walk's order.
pub fn generate_xml(
    root: &Vec<String>,
    status: RootStatus,
    entries: &Vec<Entry>,
    config: &Config,
) -> (r: Result<String, SerializeError>)
    ensures
        status == RootStatus::Missing ==> r == Err::<String, SerializeError>(
            SerializeError::RootNotFound,
        ),
        status == RootStatus::NotDirectory ==> r == Err::<String, SerializeError>(
            SerializeError::RootNotADirectory,
        ),
        status == RootStatus::Directory ==> r is Ok && r->Ok_0@ == xml_output(
            doc_list(entries@, root.deep_view(), *config),
        ),
{
    match status {
        RootStatus::Missing => {
            return Err(SerializeError::RootNotFound);
        },
        RootStatus::NotDirectory => {
            return Err(SerializeError::RootNotADirectory);
        },
        RootStatus::Directory => {},
    }
    let ghost rootv = root.deep_view();
    let mut out = String::new();
    out.append("<documents>\n");
    let mut count: usize = 0;
    let mut i: usize = 0;
    while i < entries.len()
        invariant
            i <= entries@.len(),
            rootv == root.deep_view(),
            count == doc_list(entries@.take(i as int), rootv, *config).len(),
            count <= i,
            out@ == xml_header() + docs_xml(doc_list(entries@.take(i as int), rootv, *config), 1),
        decreases entries@.len() - i,
    {
        let ghost old_docs = doc_list(entries@.take(i as int), rootv, *config);
        proof {
            assert(entries@.take(i + 1).drop_last() =~= entries@.take(i as int));
            assert(entries@.take(i + 1).last() == entries@[i as int]);
        }
        let e = &entries[i];
        if !e.is_dir && !should_skip_path(&e.path, config) {
            match &e.content {
                Some(text) => {
                    let rel = relative_components(&e.path, root);
                    let rel_text = join_components(&rel);
                    let esc_src = xml_escape(rel_text.as_str());
                    let esc_body = xml_escape(text.as_str());
                    let idx = count + 1;
                    let idx_text = usize_to_dec(idx);
                    out.append("  <document index=\"");
                    out.append(idx_text.as_str());
                    out.append("\">\n    <source>");
                    out.append(esc_src.as_str());
                    out.append("</source>\n    <document_content>\n");
                    out.append(esc_body.as_str());
                    out.append("\n    </document_content>\n  </document>\n");
                    count = idx;
                    proof {
                        let d = doc_of(entries@[i as int], rootv);
                        assert(entries@[i as int].is_emitted(*config));
                        assert(doc_list(entries@.take(i + 1), rootv, *config) =~= old_docs.push(d));
                        lemma_docs_xml_snoc(old_docs, d, 1);
                        assert(esc_src@ == escaped(d.0));
                        assert(esc_body@ == escaped(d.1));
                        assert(out@ =~= xml_header() + docs_xml(
                            doc_list(entries@.take(i + 1), rootv, *config),
                            1,
                        ));
                    }
                },
                None => {
                    proof {
                        assert(!entries@[i as int].is_emitted(*config));
                        assert(doc_list(entries@.take(i + 1), rootv, *config) =~= old_docs);
                    }
                },
            }
        } else {
            proof {
                assert(!entries@[i as int].is_emitted(*config));
                assert(doc_list(entries@.take(i + 1), rootv, *config) =~= old_docs);
            }
        }
        i += 1;
    }
    out.append("</documents>\n");
    proof {
        assert(entries@.take(entries@.len() as int) =~= entries@);
        assert(out@ =~= xml_output(doc_list(entries@, rootv, *config)));
    }
    Ok(out)
}

} // verus!
