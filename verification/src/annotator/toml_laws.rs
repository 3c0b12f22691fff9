//! What holds of the TOML engine for every document.

use vstd::prelude::*;
use crate::annotator::toml::{
    annotated_document, annotated_entry, annotated_keys, new_prefix,
    toml_comment, NESTING_LIMIT,
};
use crate::annotator::toml_tree::{document_root, table_keys};
use crate::annotator::{comment_line, comment_lines, AnnotatorConfig, ExistingCommentBehavior};
use crate::schema::annotation::AnnotationView;
use crate::text::{
    is_comment_line, is_whitespace, joined, leading_whitespace,
    lemma_leading_whitespace_bound, lemma_leading_whitespace_is,
};

verus! {

/// With an empty table no entry of a table changes.
pub proof fn lemma_empty_table_keeps_entries(
    t: toml_edit::Table,
    names: Seq<Seq<char>>,
    keys: Seq<Seq<char>>,
    config: AnnotatorConfig,
    depth: nat,
)
    ensures
        annotated_keys(t, names, keys, Map::empty(), config, depth) == (t, false),
    decreases depth, keys.len(),
{
    if keys.len() > 0 {
        lemma_empty_table_keeps_entries(t, names, keys.drop_last(), config, depth);
        lemma_empty_table_keeps_entry(t, names, keys.last(), config, depth);
    }
}

/// With an empty table an entry stays as it is.
pub proof fn lemma_empty_table_keeps_entry(
    t: toml_edit::Table,
    names: Seq<Seq<char>>,
    key: Seq<char>,
    config: AnnotatorConfig,
    depth: nat,
)
    ensures
        annotated_entry(t, names, key, Map::empty(), config, depth) == (t, false),
    decreases depth, 0nat,
{
    if depth > 0 {
        let child = crate::annotator::toml_tree::child_table(t, key);
        lemma_empty_table_keeps_entries(
            child,
            names.push(key),
            table_keys(child),
            config,
            (depth - 1) as nat,
        );
    }
}

/// With an empty table the TOML engine leaves the document as it was
/// parsed: what comes out is the document written out again.
pub proof fn lemma_empty_table_keeps_document(doc: toml_edit::DocumentMut, config: AnnotatorConfig)
    ensures
        annotated_document(doc, Map::empty(), config) == doc,
{
    let root = document_root(doc);
    lemma_empty_table_keeps_entries(
        root,
        Seq::empty(),
        table_keys(root),
        config,
        NESTING_LIMIT as nat,
    );
}

/// A text that starts with the comment marker counts as a comment, and so
/// does every text that starts with it.
pub proof fn lemma_comment_first(comment: Seq<char>, rest: Seq<char>)
    requires
        comment.len() > 0,
        comment[0] == '#',
    ensures
        is_comment_line(comment + rest),
{
    lemma_leading_whitespace_is(comment + rest, 0);
}

/// What counts as a comment still does with more text behind it.
pub proof fn lemma_comment_extended(existing: Seq<char>, more: Seq<char>)
    requires
        is_comment_line(existing),
    ensures
        is_comment_line(existing + more),
{
    let k = leading_whitespace(existing) as int;
    lemma_leading_whitespace_bound(existing);
    let whole = existing + more;
    assert forall|i: int| 0 <= i < k implies is_whitespace(#[trigger] whole[i]) by {
        assert(whole[i] == existing[i]);
    }
    assert(whole[k] == existing[k]);
    lemma_leading_whitespace_is(whole, k);
}

/// The comment block of a record starts with the comment marker.
pub proof fn lemma_block_starts_with_marker(a: AnnotationView, config: AnnotatorConfig)
    requires
        toml_comment(a, config) is Some,
    ensures
        toml_comment(a, config)->0.len() > 0,
        toml_comment(a, config)->0[0] == '#',
{
    let lines = comment_lines(a, config, 0);
    lemma_joined_starts_with_first(lines, seq!['\n']);
    let first = lines[0];
    assert(first.len() >= 2 && first[0] == '#') by {
        lemma_first_line_is_marked(a, config);
    }
}

/// The first of the comment lines of a record at indentation 0 starts with
/// the comment marker.
pub proof fn lemma_first_line_is_marked(a: AnnotationView, config: AnnotatorConfig)
    requires
        comment_lines(a, config, 0).len() > 0,
    ensures
        comment_lines(a, config, 0)[0].len() >= 2,
        comment_lines(a, config, 0)[0][0] == '#',
{
    let lines = comment_lines(a, config, 0);
    assert(exists|text: Seq<char>| lines[0] == comment_line(0, text)) by {
        if config.include_title && a.title is Some {
            assert(lines[0] == comment_line(0, a.title->0));
        } else if config.include_description && a.description is Some && crate::wrap::wrapped(
            a.description->0,
            config.wrap_width(0),
        ).len() > 0 {
            assert(lines[0] == comment_line(
                0,
                crate::wrap::wrapped(a.description->0, config.wrap_width(0))[0],
            ));
        } else {
            assert(lines[0] == comment_line(0, crate::annotator::default_note(a.default->0)));
        }
    }
    let text = choose|text: Seq<char>| lines[0] == comment_line(0, text);
    assert(comment_line(0, text) =~= seq!['#', ' '] + text);
}

/// Joined parts start with the first part.
pub proof fn lemma_joined_starts_with_first(parts: Seq<Seq<char>>, separator: Seq<char>)
    requires
        parts.len() > 0,
    ensures
        joined(parts, separator).len() >= parts[0].len(),
        joined(parts, separator).take(parts[0].len() as int) == parts[0],
    decreases parts.len(),
{
    if parts.len() == 1 {
        assert(parts[0].take(parts[0].len() as int) =~= parts[0]);
    } else {
        lemma_joined_starts_with_first(parts.drop_last(), separator);
        let before = joined(parts.drop_last(), separator);
        let whole = joined(parts, separator);
        assert(parts.drop_last()[0] == parts[0]);
        assert(whole.take(parts[0].len() as int) =~= before.take(parts[0].len() as int));
    }
}

/// A decoration that the engine has written is left alone by a later run
/// that skips existing comments: whatever policy wrote it, it counts as an
/// existing comment.
pub proof fn lemma_written_prefix_is_skipped(
    existing: Seq<char>,
    path: Seq<char>,
    table: Map<Seq<char>, AnnotationView>,
    config: AnnotatorConfig,
    later_table: Map<Seq<char>, AnnotationView>,
    later_config: AnnotatorConfig,
)
    requires
        new_prefix(existing, path, table, config) is Some,
        later_config.existing_comments == ExistingCommentBehavior::Skip,
    ensures
        is_comment_line(new_prefix(existing, path, table, config)->0),
        new_prefix(new_prefix(existing, path, table, config)->0, path, later_table, later_config)
            is None,
{
    let comment = toml_comment(table[path], config)->0;
    lemma_block_starts_with_marker(table[path], config);
    lemma_comment_first(comment, existing);
    lemma_comment_first(comment, Seq::empty());
    assert(comment + Seq::<char>::empty() =~= comment);
    if is_comment_line(existing) {
        lemma_comment_extended(existing, comment);
    }
}

/// Under the skipping policy a decoration that counts as a comment is
/// never changed, whatever the table holds.
pub proof fn lemma_existing_comment_is_skipped(
    existing: Seq<char>,
    path: Seq<char>,
    table: Map<Seq<char>, AnnotationView>,
    config: AnnotatorConfig,
)
    requires
        is_comment_line(existing),
        config.existing_comments == ExistingCommentBehavior::Skip,
    ensures
        new_prefix(existing, path, table, config) is None,
{
}

} // verus!
