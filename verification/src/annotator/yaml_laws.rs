//! What holds of the YAML engine for every text.

use vstd::prelude::*;
use crate::annotator::yaml::{
    annotated_text, line_targets, operation_for, operations_for, scan, LineTarget,
    OperationView,
};
use crate::schema::annotation::AnnotationView;
use crate::annotator::AnnotatorConfig;
use crate::text::{
    ends_with_line_feed, first_index, join_lines, joined, lemma_first_index, lines_of,
    strip_carriage_return,
};

verus! {

/// Whether no line feed of `text` has a carriage return just before it.
pub open spec fn plain_line_ends(text: Seq<char>) -> bool {
    forall|i: int| 0 < i < text.len() && #[trigger] text[i] == '\n' ==> text[i - 1] != '\r'
}

/// The lines of a text, joined again, with the line feed that the text
/// ended with.
pub open spec fn rejoined(text: Seq<char>) -> Seq<char> {
    let body = join_lines(lines_of(text));
    if ends_with_line_feed(text) {
        body.push('\n')
    } else {
        body
    }
}

/// Joining a first part with more parts.
pub proof fn lemma_joined_prepend(head: Seq<char>, rest: Seq<Seq<char>>, separator: Seq<char>)
    ensures
        joined(seq![head] + rest, separator) == if rest.len() == 0 {
            head
        } else {
            head + separator + joined(rest, separator)
        },
    decreases rest.len(),
{
    let all = seq![head] + rest;
    if rest.len() == 0 {
        assert(all =~= seq![head]);
    } else if rest.len() == 1 {
        assert(all.drop_last() =~= seq![head]);
        assert(all.last() == rest[0]);
        assert(joined(all.drop_last(), separator) == head);
    } else {
        assert(all.drop_last() =~= seq![head] + rest.drop_last());
        assert(all.last() == rest.last());
        lemma_joined_prepend(head, rest.drop_last(), separator);
        assert(joined(all, separator) =~= head + separator + joined(rest, separator));
    }
}

/// A text that is not empty has at least one line.
pub proof fn lemma_lines_of_nonempty(text: Seq<char>)
    requires
        text.len() > 0,
    ensures
        lines_of(text).len() > 0,
{
}

/// Splitting a text into lines and joining them again gives the text back,
/// as long as no line ends in a carriage return and a line feed.
pub proof fn lemma_rejoined(text: Seq<char>)
    requires
        plain_line_ends(text),
    ensures
        rejoined(text) == text,
    decreases text.len(),
{
    if text.len() > 0 {
        let k = first_index(text, '\n');
        lemma_first_index(text, '\n');
        if k < text.len() {
            let head = text.take(k);
            let rest = text.skip(k + 1);
            if k > 0 {
                assert(head.last() == text[k - 1]);
            }
            assert(strip_carriage_return(head) == head);
            assert forall|i: int| 0 < i < rest.len() && #[trigger] rest[i] == '\n' implies rest[i
                - 1] != '\r' by {
                assert(rest[i] == text[i + k + 1]);
                assert(rest[i - 1] == text[i + k]);
            }
            lemma_rejoined(rest);
            lemma_joined_prepend(head, lines_of(rest), seq!['\n']);
            if rest.len() == 0 {
                assert(lines_of(rest) =~= Seq::<Seq<char>>::empty());
                assert(text =~= head.push('\n'));
                assert(rejoined(text) =~= text);
            } else {
                lemma_lines_of_nonempty(rest);
                assert(rest.last() == text.last());
                assert(text =~= head + seq!['\n'] + rest);
                assert(rejoined(text) =~= head + seq!['\n'] + rejoined(rest));
            }
        } else {
            assert(lines_of(text) =~= seq![text]);
            assert(text.last() != '\n');
        }
    } else {
        assert(lines_of(text) =~= Seq::<Seq<char>>::empty());
    }
}

/// An empty table calls for no operation.
pub proof fn lemma_no_operations(targets: Seq<LineTarget>, config: AnnotatorConfig)
    ensures
        operations_for(targets, Map::empty(), config) == Seq::<OperationView>::empty(),
    decreases targets.len(),
{
    if targets.len() > 0 {
        lemma_no_operations(targets.drop_last(), config);
    }
}

/// With an empty table the YAML engine gives the text back unchanged,
/// its last line feed included, as long as no line of the text ends in a
/// carriage return and a line feed.
pub proof fn lemma_empty_table_changes_nothing(content: Seq<char>, config: AnnotatorConfig)
    requires
        plain_line_ends(content),
    ensures
        annotated_text(content, Map::empty(), config) == content,
{
    let lines = lines_of(content);
    lemma_no_operations(line_targets(lines), config);
    lemma_rejoined(content);
}


/// Whether the key lines stand in rising line order, all before line `bound`.
pub open spec fn targets_rise(targets: Seq<LineTarget>, bound: nat) -> bool {
    &&& forall|j: int| 0 <= j < targets.len() ==> (#[trigger] targets[j]).line < bound
    &&& forall|j: int, k: int|
        0 <= j < k < targets.len() ==> (#[trigger] targets[j]).line < (#[trigger] targets[k]).line
}

/// Whether the operations stand in rising line order, all before line
/// `bound`.
pub open spec fn operations_rise(ops: Seq<OperationView>, bound: nat) -> bool {
    &&& forall|j: int| 0 <= j < ops.len() ==> (#[trigger] ops[j]).line < bound
    &&& forall|j: int, k: int|
        0 <= j < k < ops.len() ==> (#[trigger] ops[j]).line < (#[trigger] ops[k]).line
}

/// The first pass finds the key lines in rising line order.
pub proof fn lemma_targets_rise(lines: Seq<Seq<char>>, n: nat)
    ensures
        targets_rise(scan(lines, n).targets, n),
    decreases n,
{
    if n > 0 {
        lemma_targets_rise(lines, (n - 1) as nat);
    }
}

/// Key lines in rising order call for operations in rising order.
pub proof fn lemma_operations_follow_targets(
    targets: Seq<LineTarget>,
    table: Map<Seq<char>, AnnotationView>,
    config: AnnotatorConfig,
    bound: nat,
)
    requires
        targets_rise(targets, bound),
    ensures
        operations_rise(operations_for(targets, table, config), bound),
    decreases targets.len(),
{
    if targets.len() > 0 {
        let rest = targets.drop_last();
        let last = targets.last();
        assert forall|j: int| 0 <= j < rest.len() implies (#[trigger] rest[j]).line
            < last.line by {
            assert(rest[j] == targets[j]);
        }
        assert(targets_rise(rest, last.line)) by {
            assert forall|j: int, k: int| 0 <= j < k < rest.len() implies (
            #[trigger] rest[j]).line < (#[trigger] rest[k]).line by {
                assert(rest[j] == targets[j] && rest[k] == targets[k]);
            }
        }
        lemma_operations_follow_targets(rest, table, config, last.line);
        if operation_for(last, table, config) is Some {
            assert(operation_for(last, table, config)->0.line == last.line);
        }
    }
}

/// The operations of a text point at lines of the text and stand in
/// rising line order: applying the last one first is applying them from
/// the highest line number to the lowest, so that no operation moves the
/// line that an operation still to come points at.
pub proof fn lemma_operations_rise(
    lines: Seq<Seq<char>>,
    table: Map<Seq<char>, AnnotationView>,
    config: AnnotatorConfig,
)
    ensures
        operations_rise(operations_for(line_targets(lines), table, config), lines.len()),
{
    lemma_targets_rise(lines, lines.len());
    lemma_operations_follow_targets(line_targets(lines), table, config, lines.len());
}

} // verus!
