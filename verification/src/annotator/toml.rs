//! Comment placement for TOML, done on the format-preserving tree.

use vstd::prelude::*;
use vstd::string::*;
use crate::annotator::toml_tree::{
    child_of, child_table, document_root, document_text, document_with_root, entry_kind,
    error_message, key_prefix, key_prefix_of, keys_of, kind_of, parse_document, parsed_document,
    render, replace_child, root_of, set_key_prefix, set_root, set_table_prefix, table_keys,
    table_prefix, table_prefix_of, with_child, with_key_prefix, with_table_prefix, EntryKind,
};
use crate::annotator::{
    comment_lines, format_comment_lines, Annotator, AnnotatorConfig, ExistingCommentBehavior,
};
use crate::error::{AnnotatorError, AnnotatorErrorKind, Error};
use crate::schema::annotation::{Annotation, AnnotationMap, AnnotationView};
use crate::text::{
    dotted, dotted_path, is_comment_line, join_lines, join_with_line_feeds, measure_indentation,
    views,
};

verus! {

/// How many levels of nested tables the engine descends.
pub const NESTING_LIMIT: usize = usize::MAX;

/// The comment block for a record: its comment lines, each ended by a line
/// feed, or nothing where there is no line.
pub open spec fn toml_comment(a: AnnotationView, config: AnnotatorConfig) -> Option<Seq<char>> {
    let lines = comment_lines(a, config, 0);
    if lines.len() == 0 {
        None
    } else {
        Some(join_lines(lines).push('\n'))
    }
}

/// The decoration that the merge policy makes of the `existing` decoration
/// and the new `comment`, or nothing where the existing one is to stay. The
/// existing decoration counts as a comment if its first visible character is
/// the comment marker.
pub open spec fn merged_prefix(
    existing: Seq<char>,
    comment: Seq<char>,
    behavior: ExistingCommentBehavior,
) -> Option<Seq<char>> {
    if is_comment_line(existing) {
        match behavior {
            ExistingCommentBehavior::Skip => None,
            ExistingCommentBehavior::Prepend => Some(comment + existing),
            ExistingCommentBehavior::Append => Some(existing + comment),
            ExistingCommentBehavior::Replace => Some(comment),
        }
    } else {
        Some(comment)
    }
}

/// The decoration that a node at `path` gets in place of `existing`, or
/// nothing where its decoration stays.
pub open spec fn new_prefix(
    existing: Seq<char>,
    path: Seq<char>,
    table: Map<Seq<char>, AnnotationView>,
    config: AnnotatorConfig,
) -> Option<Seq<char>> {
    if !table.contains_key(path) {
        None
    } else {
        match toml_comment(table[path], config) {
            None => None,
            Some(comment) => merged_prefix(existing, comment, config.existing_comments),
        }
    }
}

/// The table after the entry under `key` was annotated, and whether anything
/// changed. `names` are the keys that lead to the table. A nested table gets
/// its own comment before its header and is then annotated itself, as long as
/// `depth` levels are left; an inline table is left alone; any other entry
/// gets its comment before its key.
pub open spec fn annotated_entry(
    t: toml_edit::Table,
    names: Seq<Seq<char>>,
    key: Seq<char>,
    table: Map<Seq<char>, AnnotationView>,
    config: AnnotatorConfig,
    depth: nat,
) -> (toml_edit::Table, bool)
    decreases depth, 0nat,
{
    let path = dotted(names.push(key));
    match entry_kind(t, key) {
        EntryKind::Table => {
            let child = child_table(t, key);
            let headed = match new_prefix(table_prefix(child), path, table, config) {
                Some(prefix) => (with_table_prefix(child, prefix), true),
                None => (child, false),
            };
            let inner = if depth > 0 {
                annotated_keys(
                    headed.0,
                    names.push(key),
                    table_keys(headed.0),
                    table,
                    config,
                    (depth - 1) as nat,
                )
            } else {
                (headed.0, false)
            };
            if headed.1 || inner.1 {
                (with_child(t, key, inner.0), true)
            } else {
                (t, false)
            }
        },
        EntryKind::Leaf => match new_prefix(key_prefix(t, key), path, table, config) {
            Some(prefix) => (with_key_prefix(t, key, prefix), true),
            None => (t, false),
        },
        EntryKind::InlineTable => (t, false),
        EntryKind::Absent => (t, false),
    }
}

/// The table after the entries under `keys` were annotated one after the
/// other, and whether anything changed.
pub open spec fn annotated_keys(
    t: toml_edit::Table,
    names: Seq<Seq<char>>,
    keys: Seq<Seq<char>>,
    table: Map<Seq<char>, AnnotationView>,
    config: AnnotatorConfig,
    depth: nat,
) -> (toml_edit::Table, bool)
    decreases depth, keys.len(),
{
    if keys.len() == 0 {
        (t, false)
    } else {
        let before = annotated_keys(t, names, keys.drop_last(), table, config, depth);
        let after = annotated_entry(before.0, names, keys.last(), table, config, depth);
        (after.0, before.1 || after.1)
    }
}

/// The annotated form of a table: its entries annotated in the order in
/// which the table held them before.
pub open spec fn annotated_table(
    t: toml_edit::Table,
    names: Seq<Seq<char>>,
    table: Map<Seq<char>, AnnotationView>,
    config: AnnotatorConfig,
    depth: nat,
) -> (toml_edit::Table, bool) {
    annotated_keys(t, names, table_keys(t), table, config, depth)
}

/// The annotated form of a document.
pub open spec fn annotated_document(
    doc: toml_edit::DocumentMut,
    table: Map<Seq<char>, AnnotationView>,
    config: AnnotatorConfig,
) -> toml_edit::DocumentMut {
    let root = annotated_table(
        document_root(doc),
        Seq::empty(),
        table,
        config,
        NESTING_LIMIT as nat,
    );
    if root.1 {
        document_with_root(doc, root.0)
    } else {
        doc
    }
}

/// Merges the new `comment` with the `existing` decoration of a node under
/// the policy `behavior`: the decoration to write, or `None` where the
/// existing one stays.
pub fn merge_prefix(existing: &str, comment: &str, behavior: ExistingCommentBehavior) -> (prefix:
    Option<String>)
    ensures
        match prefix {
            Some(p) => merged_prefix(existing@, comment@, behavior) == Some(p@),
            None => merged_prefix(existing@, comment@, behavior) is None,
        },
{
    let has_existing = measure_indentation(existing).1 == Some('#');
    if has_existing {
        match behavior {
            ExistingCommentBehavior::Skip => None,
            ExistingCommentBehavior::Prepend => {
                let mut p = comment.to_owned();
                p.append(existing);
                Some(p)
            },
            ExistingCommentBehavior::Append => {
                let mut p = existing.to_owned();
                p.append(comment);
                Some(p)
            },
            ExistingCommentBehavior::Replace => Some(comment.to_owned()),
        }
    } else {
        Some(comment.to_owned())
    }
}

/// Places schema documentation in TOML text as comments.
pub struct TomlAnnotator {
    pub config: AnnotatorConfig,
}

impl TomlAnnotator {
    /// An engine that works under `config`.
    pub fn new(config: AnnotatorConfig) -> (a: TomlAnnotator)
        ensures
            a.config == config,
    {
        TomlAnnotator { config }
    }

    /// The comment block for `annotation`: its comment lines, each ended by
    /// a line feed, or nothing where no line is to be emitted.
    pub fn format_comment(&self, annotation: &Annotation) -> (block: Option<String>)
        ensures
            match block {
                Some(text) => toml_comment(annotation@, self.config) == Some(text@),
                None => toml_comment(annotation@, self.config) is None,
            },
    {
        let lines = format_comment_lines(annotation, &self.config, 0);
        if lines.len() == 0 {
            None
        } else {
            let mut text = join_with_line_feeds(&lines);
            proof {
                reveal_strlit("\n");
            }
            text.append("\n");
            assert(text@ =~= join_lines(views(lines@)).push('\n'));
            Some(text)
        }
    }

    /// The decoration to write for the node at `path` in place of
    /// `existing`, if any.
    fn decide_prefix(&self, existing: &str, path: &str, annotations: &AnnotationMap) -> (prefix:
        Option<String>)
        ensures
            match prefix {
                Some(p) => new_prefix(existing@, path@, annotations@, self.config) == Some(p@),
                None => new_prefix(existing@, path@, annotations@, self.config) is None,
            },
    {
        match annotations.get(path) {
            None => None,
            Some(annotation) => match self.format_comment(annotation) {
                None => None,
                Some(comment) => merge_prefix(
                    existing,
                    comment.as_str(),
                    self.config.existing_comments,
                ),
            },
        }
    }

    /// Annotates the entry that `table` holds under `key`.
    fn annotate_entry(
        &self,
        table: &mut toml_edit::Table,
        path: &Vec<String>,
        key: &String,
        annotations: &AnnotationMap,
        depth: usize,
    ) -> (changed: bool)
        ensures
            (*final(table), changed) == annotated_entry(
                *old(table),
                views(path@),
                key@,
                annotations@,
                self.config,
                depth as nat,
            ),
        decreases depth, 0nat,
    {
        let path_string = dotted_path(path, key.as_str());
        match kind_of(table, key.as_str()) {
            EntryKind::Table => {
                match child_of(table, key.as_str()) {
                    None => false,
                    Some(child) => {
                        let mut nested = child;
                        let existing = table_prefix_of(&nested);
                        let headed = match self.decide_prefix(
                            existing.as_str(),
                            path_string.as_str(),
                            annotations,
                        ) {
                            Some(prefix) => {
                                set_table_prefix(&mut nested, prefix.as_str());
                                true
                            },
                            None => false,
                        };
                        let inner = if depth > 0 {
                            let mut current_path = path.clone();
                            current_path.push(key.clone());
                            assert(views(current_path@) =~= views(path@).push(key@));
                            self.annotate_table(&mut nested, &current_path, annotations, depth - 1)
                        } else {
                            false
                        };
                        if headed || inner {
                            replace_child(table, key.as_str(), nested);
                            true
                        } else {
                            false
                        }
                    },
                }
            },
            EntryKind::Leaf => {
                let existing = key_prefix_of(table, key.as_str());
                match self.decide_prefix(existing.as_str(), path_string.as_str(), annotations) {
                    Some(prefix) => {
                        set_key_prefix(table, key.as_str(), prefix.as_str());
                        true
                    },
                    None => false,
                }
            },
            EntryKind::InlineTable => false,
            EntryKind::Absent => false,
        }
    }

    /// Annotates every entry of `table`, which is reached through the keys
    /// `path`, and the tables nested in it down to `depth` levels. Returns
    /// whether anything changed.
    pub fn annotate_table(
        &self,
        table: &mut toml_edit::Table,
        path: &Vec<String>,
        annotations: &AnnotationMap,
        depth: usize,
    ) -> (changed: bool)
        ensures
            (*final(table), changed) == annotated_table(
                *old(table),
                views(path@),
                annotations@,
                self.config,
                depth as nat,
            ),
        decreases depth, 1nat,
    {
        let keys = keys_of(table);
        let ghost all = views(keys@);
        let mut changed = false;
        let mut i: usize = 0;
        assert(all.take(0) =~= Seq::<Seq<char>>::empty());
        while i < keys.len()
            invariant
                i <= keys.len(),
                all == views(keys@),
                (*table, changed) == annotated_keys(
                    *old(table),
                    views(path@),
                    all.take(i as int),
                    annotations@,
                    self.config,
                    depth as nat,
                ),
            decreases keys.len() - i,
        {
            proof {
                let upper = all.take(i + 1);
                assert(upper.drop_last() =~= all.take(i as int));
                assert(upper.last() == keys@[i as int]@);
            }
            let entry_changed = self.annotate_entry(table, path, &keys[i], annotations, depth);
            changed = changed || entry_changed;
            i += 1;
        }
        assert(all.take(keys.len() as int) =~= all);
        changed
    }
}

impl Annotator for TomlAnnotator {
    open spec fn accepts(&self, content: Seq<char>) -> bool {
        parsed_document(content) is Some
    }

    open spec fn annotated(&self, content: Seq<char>, table: Map<Seq<char>, AnnotationView>) -> Seq<
        char,
    > {
        document_text(annotated_document(parsed_document(content)->0, table, self.config))
    }

    fn annotate(&self, content: &str, annotations: &AnnotationMap) -> (r: Result<
        String,
        AnnotatorError,
    >) {
        match parse_document(content) {
            Err(error) => {
                let message = error_message(&error);
                Err(Error::new(AnnotatorErrorKind::Parse).with_source(message.as_str()))
            },
            Ok(parsed) => {
                let mut doc = parsed;
                let mut root = root_of(&doc);
                let path: Vec<String> = Vec::new();
                assert(views(path@) =~= Seq::<Seq<char>>::empty());
                if self.annotate_table(&mut root, &path, annotations, NESTING_LIMIT) {
                    set_root(&mut doc, root);
                }
                Ok(render(&doc))
            },
        }
    }
}

} // verus!
