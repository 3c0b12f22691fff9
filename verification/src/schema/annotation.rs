//! Annotation records and the path-keyed table that holds them.

use vstd::prelude::*;
use vstd::string::*;
use crate::text::views;
use crate::wrap::{wrap_text, wrapped};

verus! {

/// Mathematical value of an [`Annotation`].
pub struct AnnotationView {
    pub path: Seq<char>,
    pub title: Option<Seq<char>>,
    pub description: Option<Seq<char>>,
    pub default: Option<Seq<char>>,
}

impl AnnotationView {
    /// A record that documents nothing.
    pub open spec fn is_empty(self) -> bool {
        self.title is None && self.description is None && self.default is None
    }
}

/// Documentation attached to one dotted path of a schema.
#[derive(Debug, Clone, PartialEq, Eq)]
pub struct Annotation {
    /// Dot-separated path; the root is the empty string.
    pub path: String,
    /// The schema's `title`.
    pub title: Option<String>,
    /// The schema's `description`.
    pub description: Option<String>,
    /// The schema's `default`, rendered as text.
    pub default: Option<String>,
}

/// View of an optional string.
pub open spec fn option_view(o: Option<String>) -> Option<Seq<char>> {
    match o {
        Some(s) => Some(s@),
        None => None,
    }
}

impl View for Annotation {
    type V = AnnotationView;

    open spec fn view(&self) -> AnnotationView {
        AnnotationView {
            path: self.path@,
            title: option_view(self.title),
            description: option_view(self.description),
            default: option_view(self.default),
        }
    }
}

/// `marker` followed by `text`.
pub open spec fn marked(text: Seq<char>) -> Seq<char> {
    seq!['#', ' '] + text
}

/// Every line of `lines` behind the comment marker.
pub open spec fn mark_all(lines: Seq<Seq<char>>) -> Seq<Seq<char>> {
    Seq::new(lines.len(), |i: int| marked(lines[i]))
}

/// The lines `# title` and `# wrapped description` of a record.
pub open spec fn plain_comment_lines(a: AnnotationView, width: nat) -> Seq<Seq<char>> {
    let title_lines = match a.title {
        Some(t) => seq![marked(t)],
        None => Seq::empty(),
    };
    let description_lines = match a.description {
        Some(d) => mark_all(wrapped(d, width)),
        None => Seq::empty(),
    };
    title_lines + description_lines
}

/// A copy of an optional string.
pub fn clone_option(o: &Option<String>) -> (r: Option<String>)
    ensures
        r == *o,
{
    match o {
        Some(s) => Some(s.clone()),
        None => None,
    }
}

/// `# ` followed by `text`.
pub fn marked_line(text: &str) -> (line: String)
    ensures
        line@ == marked(text@),
{
    let mut line = String::new();
    proof {
        reveal_strlit("# ");
    }
    line.append("# ");
    line.append(text);
    assert(line@ =~= marked(text@));
    line
}

impl Annotation {
    /// A record for `path` that documents nothing yet.
    pub fn new(path: &str) -> (a: Annotation)
        ensures
            a@ == (AnnotationView { path: path@, title: None, description: None, default: None }),
    {
        Annotation { path: path.to_owned(), title: None, description: None, default: None }
    }

    /// The same record with `title` as its title.
    pub fn with_title(self, title: &str) -> (a: Annotation)
        ensures
            a@ == (AnnotationView { title: Some(title@), ..self@ }),
    {
        Annotation {
            path: self.path,
            title: Some(title.to_owned()),
            description: self.description,
            default: self.default,
        }
    }

    /// The same record with `description` as its description.
    pub fn with_description(self, description: &str) -> (a: Annotation)
        ensures
            a@ == (AnnotationView { description: Some(description@), ..self@ }),
    {
        Annotation {
            path: self.path,
            title: self.title,
            description: Some(description.to_owned()),
            default: self.default,
        }
    }

    /// The same record with `default` as its rendered default value.
    pub fn with_default(self, default: &str) -> (a: Annotation)
        ensures
            a@ == (AnnotationView { default: Some(default@), ..self@ }),
    {
        Annotation {
            path: self.path,
            title: self.title,
            description: self.description,
            default: Some(default.to_owned()),
        }
    }

    /// Whether the record documents nothing.
    pub fn is_empty(&self) -> (b: bool)
        ensures
            b == self@.is_empty(),
    {
        self.title.is_none() && self.description.is_none() && self.default.is_none()
    }

    /// A copy of the record.
    pub fn duplicate(&self) -> (a: Annotation)
        ensures
            a == *self,
    {
        Annotation {
            path: self.path.clone(),
            title: clone_option(&self.title),
            description: clone_option(&self.description),
            default: clone_option(&self.default),
        }
    }

    /// The title and the description as comment lines, the description wrapped
    /// at `max_width` columns, or at 78 where no width is given.
    pub fn to_comment_lines(&self, max_width: Option<usize>) -> (lines: Vec<String>)
        ensures
            views(lines@) == plain_comment_lines(
                self@,
                match max_width {
                    Some(w) => w as nat,
                    None => 78,
                },
            ),
    {
        let width: usize = match max_width {
            Some(w) => w,
            None => 78,
        };
        let mut lines: Vec<String> = Vec::new();
        if let Some(title) = &self.title {
            lines.push(marked_line(title.as_str()));
        }
        assert(views(lines@) =~= match self@.title {
            Some(t) => seq![marked(t)],
            None => Seq::empty(),
        });
        let ghost title_lines = views(lines@);
        if let Some(description) = &self.description {
            let pieces = wrap_text(description.as_str(), width);
            let mut i: usize = 0;
            while i < pieces.len()
                invariant
                    i <= pieces.len(),
                    views(pieces@) == wrapped(description@, width as nat),
                    views(lines@) =~= title_lines + mark_all(views(pieces@).take(i as int)),
                decreases pieces.len() - i,
            {
                let ghost before = views(lines@);
                lines.push(marked_line(pieces[i].as_str()));
                proof {
                    let done = views(pieces@).take(i as int);
                    let next = views(pieces@).take(i + 1);
                    assert(next =~= done.push(pieces@[i as int]@));
                    assert(mark_all(next) =~= mark_all(done).push(marked(pieces@[i as int]@)));
                    assert(views(lines@) =~= before.push(marked(pieces@[i as int]@)));
                }
                i += 1;
            }
            assert(views(pieces@).take(pieces.len() as int) =~= views(pieces@));
        }
        assert(views(lines@) =~= plain_comment_lines(self@, width as nat));
        lines
    }
}


/// Table of annotations, one per path.
#[derive(Debug)]
pub struct AnnotationMap {
    inner: Vec<Annotation>,
}

/// The paths of a list of records.
pub open spec fn paths_of(records: Seq<Annotation>) -> Seq<Seq<char>> {
    Seq::new(records.len(), |i: int| records[i]@.path)
}

/// The table that a list of records with distinct paths stands for.
pub open spec fn table_of(records: Seq<Annotation>) -> Map<Seq<char>, AnnotationView> {
    Map::new(
        |p: Seq<char>| paths_of(records).contains(p),
        |p: Seq<char>| records[paths_of(records).index_of(p)]@,
    )
}

/// Whether no path occurs twice in the list and no record is empty.
pub open spec fn distinct_records(records: Seq<Annotation>) -> bool {
    &&& paths_of(records).no_duplicates()
    &&& forall|i: int| 0 <= i < records.len() ==> !(#[trigger] records[i])@.is_empty()
}

/// The slot of a record in the list is the slot of its path in the table.
proof fn lemma_slot(records: Seq<Annotation>, i: int)
    requires
        distinct_records(records),
        0 <= i < records.len(),
    ensures
        table_of(records).contains_key(records[i]@.path),
        table_of(records)[records[i]@.path] == records[i]@,
{
    let paths = paths_of(records);
    assert(paths[i] == records[i]@.path);
    assert(paths.contains(paths[i]));
    let j = paths.index_of(paths[i]);
    assert(0 <= j < paths.len() && paths[j] == paths[i]);
}

/// The table of a list has as many entries as the list has records.
proof fn lemma_domain(records: Seq<Annotation>)
    requires
        distinct_records(records),
    ensures
        table_of(records).dom().finite(),
        table_of(records).len() == records.len(),
{
    let paths = paths_of(records);
    paths.unique_seq_to_set();
    assert(table_of(records).dom() =~= paths.to_set());
}

/// Putting a record in the place of the record with the same path.
proof fn lemma_replaced(before: Seq<Annotation>, after: Seq<Annotation>, i: int, a: Annotation)
    requires
        distinct_records(before),
        0 <= i < before.len(),
        before[i]@.path == a@.path,
        !a@.is_empty(),
        after == before.update(i, a),
    ensures
        distinct_records(after),
        table_of(after) == table_of(before).insert(a@.path, a@),
{
    let old_paths = paths_of(before);
    let new_paths = paths_of(after);
    let target = table_of(before).insert(a@.path, a@);
    assert(new_paths =~= old_paths);
    assert(old_paths[i] == a@.path);
    assert(old_paths.contains(a@.path));
    assert(table_of(after).dom() =~= target.dom());
    assert forall|p: Seq<char>| #[trigger] target.dom().contains(p) implies table_of(after)[p]
        == target[p] by {
        let k = new_paths.index_of(p);
        assert(new_paths.contains(p));
        assert(0 <= k < new_paths.len() && new_paths[k] == p);
        if p == a@.path {
            assert(k == i);
        } else {
            assert(k != i);
            assert(after[k] == before[k]);
        }
    }
    assert(table_of(after) =~= target);
}

/// Putting a record with a new path at the end.
proof fn lemma_appended(before: Seq<Annotation>, after: Seq<Annotation>, a: Annotation)
    requires
        distinct_records(before),
        !paths_of(before).contains(a@.path),
        !a@.is_empty(),
        after == before.push(a),
    ensures
        distinct_records(after),
        table_of(after) == table_of(before).insert(a@.path, a@),
{
    let old_paths = paths_of(before);
    let new_paths = paths_of(after);
    let target = table_of(before).insert(a@.path, a@);
    assert(new_paths =~= old_paths.push(a@.path));
    assert forall|p: Seq<char>| table_of(after).contains_key(p) implies #[trigger]
        target.contains_key(p) by {
        let j = new_paths.index_of(p);
        if j < old_paths.len() {
            assert(old_paths[j] == p);
        }
    }
    assert forall|p: Seq<char>| #[trigger] target.contains_key(p) implies table_of(
        after,
    ).contains_key(p) && table_of(after)[p] == target[p] by {
        if p == a@.path {
            assert(new_paths[old_paths.len() as int] == p);
            let j = new_paths.index_of(p);
            if j < old_paths.len() {
                assert(old_paths[j] == p);
            }
        } else {
            let j = old_paths.index_of(p);
            assert(new_paths[j] == p);
            let k = new_paths.index_of(p);
            assert(k == j);
        }
    }
    assert(table_of(after) =~= target);
}

/// Position of the record for `path` in the list, if it holds one.
fn find_path(records: &Vec<Annotation>, path: &String) -> (r: Option<usize>)
    ensures
        match r {
            Some(i) => i < records.len() && records[i as int]@.path == path@,
            None => !paths_of(records@).contains(path@),
        },
{
    let mut i: usize = 0;
    while i < records.len()
        invariant
            i <= records.len(),
            forall|j: int| 0 <= j < i ==> records[j]@.path != path@,
        decreases records.len() - i,
    {
        if records[i].path == *path {
            return Some(i);
        }
        i += 1;
    }
    assert forall|j: int| 0 <= j < paths_of(records@).len() implies paths_of(records@)[j]
        != path@ by {}
    None
}

impl View for AnnotationMap {
    type V = Map<Seq<char>, AnnotationView>;

    closed spec fn view(&self) -> Map<Seq<char>, AnnotationView> {
        table_of(self.inner@)
    }
}

impl AnnotationMap {
    #[verifier::type_invariant]
    spec fn well_formed(self) -> bool {
        distinct_records(self.inner@)
    }

    /// An empty table.
    pub fn new() -> (m: AnnotationMap)
        ensures
            m@ == Map::<Seq<char>, AnnotationView>::empty(),
    {
        let m = AnnotationMap { inner: Vec::new() };
        assert(m@ =~= Map::<Seq<char>, AnnotationView>::empty());
        m
    }

    /// The record stored for `path`.
    pub fn get(&self, path: &str) -> (r: Option<&Annotation>)
        ensures
            match r {
                Some(a) => self@.contains_key(path@) && a@ == self@[path@] && a@.path == path@
                    && !a@.is_empty(),
                None => !self@.contains_key(path@),
            },
    {
        proof {
            use_type_invariant(self);
        }
        let key = path.to_owned();
        match find_path(&self.inner, &key) {
            Some(i) => {
                proof {
                    lemma_slot(self.inner@, i as int);
                }
                Some(&self.inner[i])
            },
            None => None,
        }
    }

    /// Stores `annotation` under its path, in place of what the table held
    /// for that path. A record that documents nothing is not stored.
    pub fn insert(&mut self, annotation: Annotation)
        ensures
            final(self)@ == if annotation@.is_empty() {
                old(self)@
            } else {
                old(self)@.insert(annotation@.path, annotation@)
            },
    {
        if annotation.is_empty() {
            return ;
        }
        let mut taken = AnnotationMap { inner: Vec::new() };
        core::mem::swap(self, &mut taken);
        proof {
            use_type_invariant(&taken);
        }
        let mut records = taken.inner;
        let ghost before = records@;
        match find_path(&records, &annotation.path) {
            Some(i) => {
                records[i] = annotation;
                proof {
                    lemma_replaced(before, records@, i as int, annotation);
                }
            },
            None => {
                records.push(annotation);
                proof {
                    lemma_appended(before, records@, annotation);
                }
            },
        }
        *self = AnnotationMap { inner: records };
    }

    /// Every record with its path, in the order in which the paths were first
    /// stored.
    pub fn iter(&self) -> (entries: Vec<(&String, &Annotation)>)
        ensures
            entries.len() == self@.len(),
            forall|i: int|
                0 <= i < entries.len() ==> {
                    let entry = #[trigger] entries[i];
                    &&& entry.0@ == entry.1@.path
                    &&& self@.contains_key(entry.0@)
                    &&& self@[entry.0@] == entry.1@
                },
            forall|i: int, j: int|
                0 <= i < j < entries.len() ==> (#[trigger] entries[i]).0@ != (
                #[trigger] entries[j]).0@,
    {
        let mut entries: Vec<(&String, &Annotation)> = Vec::new();
        let mut i: usize = 0;
        proof {
            use_type_invariant(self);
            lemma_domain(self.inner@);
        }
        while i < self.inner.len()
            invariant
                i <= self.inner.len(),
                entries.len() == i,
                forall|k: int|
                    0 <= k < i ==> (#[trigger] entries[k]).0 == self.inner[k].path && entries[k].1
                        == self.inner[k],
            decreases self.inner.len() - i,
        {
            entries.push((&self.inner[i].path, &self.inner[i]));
            i += 1;
        }
        proof {
            assert forall|k: int| 0 <= k < entries.len() implies {
                let entry = #[trigger] entries[k];
                &&& entry.0@ == entry.1@.path
                &&& self@.contains_key(entry.0@)
                &&& self@[entry.0@] == entry.1@
            } by {
                lemma_slot(self.inner@, k);
            }
            assert forall|a: int, b: int| 0 <= a < b < entries.len() implies (
            #[trigger] entries[a]).0@ != (#[trigger] entries[b]).0@ by {
                assert(paths_of(self.inner@)[a] != paths_of(self.inner@)[b]);
            }
        }
        entries
    }

    /// Number of records in the table.
    pub fn len(&self) -> (n: usize)
        ensures
            n == self@.len(),
    {
        proof {
            use_type_invariant(self);
            lemma_domain(self.inner@);
        }
        self.inner.len()
    }

    /// Whether the table holds no record.
    pub fn is_empty(&self) -> (b: bool)
        ensures
            b == (self@ == Map::<Seq<char>, AnnotationView>::empty()),
    {
        proof {
            use_type_invariant(self);
            if self.inner.len() == 0 {
                assert(self@ =~= Map::<Seq<char>, AnnotationView>::empty());
            } else {
                lemma_slot(self.inner@, 0);
            }
        }
        self.inner.len() == 0
    }
}

impl Clone for AnnotationMap {
    fn clone(&self) -> (copy: AnnotationMap)
        ensures
            copy@ == self@,
    {
        proof {
            use_type_invariant(self);
        }
        let mut records: Vec<Annotation> = Vec::new();
        let mut i: usize = 0;
        while i < self.inner.len()
            invariant
                i <= self.inner.len(),
                records@ == self.inner@.take(i as int),
            decreases self.inner.len() - i,
        {
            records.push(self.inner[i].duplicate());
            assert(records@ =~= self.inner@.take(i + 1));
            i += 1;
        }
        assert(records@ =~= self.inner@);
        AnnotationMap { inner: records }
    }
}

impl Default for AnnotationMap {
    fn default() -> (m: AnnotationMap)
        ensures
            m@ == Map::<Seq<char>, AnnotationView>::empty(),
    {
        AnnotationMap::new()
    }
}

} // verus!
