//! A second run of the YAML engine that skips existing comments changes
//! nothing.

use vstd::prelude::*;
use crate::annotator::yaml::{
    annotated_text, apply_all, apply_operation, comment_block, comment_run_start,
    has_preceding, operation_for, operations_for, scan, scan_step, LineTarget, OperationKind,
    OperationView,
};
use crate::annotator::yaml_laws::lemma_joined_prepend;
use crate::annotator::{
    comment_each, comment_line, comment_lines, default_note, AnnotatorConfig,
    ExistingCommentBehavior,
};
use crate::schema::annotation::AnnotationView;
use crate::text::{
    byte_width, ends_with_line_feed, first_index, indentation, is_blank, is_comment_line,
    is_whitespace, join_lines, joined, lemma_first_index, lemma_first_index_is,
    lemma_leading_whitespace_is, lines_of, spaces, strip_carriage_return,
};
use crate::wrap::wrapped;

verus! {

/// The key line that line `i` adds to the first pass, if it is one.
pub open spec fn target_at(lines: Seq<Seq<char>>, i: int) -> Option<LineTarget> {
    let before = scan(lines, i as nat);
    let after = scan_step(lines, i, before);
    if after.targets.len() > before.targets.len() {
        Some(after.targets.last())
    } else {
        None
    }
}

/// The operation that line `i` calls for, if any.
pub open spec fn operation_at(
    lines: Seq<Seq<char>>,
    table: Map<Seq<char>, AnnotationView>,
    config: AnnotatorConfig,
    i: int,
) -> Option<OperationView> {
    match target_at(lines, i) {
        Some(target) => operation_for(target, table, config),
        None => None,
    }
}

/// The operations that the first `n` lines call for.
pub open spec fn operations_upto(
    lines: Seq<Seq<char>>,
    table: Map<Seq<char>, AnnotationView>,
    config: AnnotatorConfig,
    n: nat,
) -> Seq<OperationView> {
    operations_for(scan(lines, n).targets, table, config)
}

/// The annotated form of the first `n` lines, built from the top: every
/// line follows what came before it, a key line with an operation after
/// its comment block, and a replacing block in the place of the comment
/// lines just above the key.
pub open spec fn emitted(
    lines: Seq<Seq<char>>,
    table: Map<Seq<char>, AnnotationView>,
    config: AnnotatorConfig,
    n: nat,
) -> Seq<Seq<char>>
    decreases n,
{
    if n == 0 {
        Seq::empty()
    } else {
        let i = (n - 1) as nat;
        match operation_at(lines, table, config, i as int) {
            None => emitted(lines, table, config, i).push(lines[i as int]),
            Some(op) => {
                let start = kept_until(lines, op, i as int);
                let kept = if 0 <= start <= i {
                    emitted(lines, table, config, start as nat)
                } else {
                    Seq::empty()
                };
                (kept + lines_of(op.comment)).push(lines[i as int])
            },
        }
    }
}

/// Whether the operations can be applied to `lines`, the last one first,
/// without one of them pointing past the end.
pub open spec fn fits(lines: Seq<Seq<char>>, ops: Seq<OperationView>) -> bool
    decreases ops.len(),
{
    ops.len() == 0 || (ops.last().line <= lines.len() && fits(
        apply_operation(lines, ops.last()),
        ops.drop_last(),
    ))
}

/// The run of comment lines above a line begins at or above that line.
pub proof fn lemma_comment_run(lines: Seq<Seq<char>>, s: int)
    requires
        0 <= s,
    ensures
        0 <= comment_run_start(lines, s) <= s,
        forall|j: int|
            comment_run_start(lines, s) <= j < s && j < lines.len() ==> is_comment_line(
                #[trigger] lines[j],
            ),
    decreases s,
{
    if 0 < s <= lines.len() && is_comment_line(lines[s - 1]) {
        lemma_comment_run(lines, s - 1);
    }
}

/// The run of comment lines above a line is the same in a longer text.
pub proof fn lemma_comment_run_frame(front: Seq<Seq<char>>, back: Seq<Seq<char>>, s: int)
    requires
        0 <= s <= front.len(),
    ensures
        comment_run_start(front + back, s) == comment_run_start(front, s),
    decreases s,
{
    if 0 < s {
        assert((front + back)[s - 1] == front[s - 1]);
        if is_comment_line(front[s - 1]) {
            lemma_comment_run_frame(front, back, s - 1);
        }
    }
}

/// An operation on the front of a text leaves the back alone.
pub proof fn lemma_operation_frame(front: Seq<Seq<char>>, back: Seq<Seq<char>>, op: OperationView)
    requires
        op.line <= front.len(),
    ensures
        apply_operation(front + back, op) == apply_operation(front, op) + back,
{
    let whole = front + back;
    let at = op.line as int;
    let block = lines_of(op.comment);
    assert(whole.skip(at) =~= front.skip(at) + back);
    assert(whole.take(at) =~= front.take(at));
    match op.kind {
        OperationKind::Replace => {
            if at > 0 {
                lemma_comment_run_frame(front, back, at - 1);
                lemma_comment_run(front, at - 1);
                let s = comment_run_start(front, at - 1);
                assert(whole.take(s) =~= front.take(s));
                assert(whole.take(s) + block + whole.skip(at) =~= front.take(s) + block
                    + front.skip(at) + back);
            } else {
                assert(apply_operation(whole, op) == whole);
            }
        },
        _ => {
            assert(whole.take(at) + block + whole.skip(at) =~= front.take(at) + block
                + front.skip(at) + back);
        },
    }
}

/// Operations that fit the front of a text fit the text, and leave its
/// back alone.
pub proof fn lemma_operations_frame(
    front: Seq<Seq<char>>,
    back: Seq<Seq<char>>,
    ops: Seq<OperationView>,
)
    requires
        fits(front, ops),
    ensures
        fits(front + back, ops),
        apply_all(front + back, ops) == apply_all(front, ops) + back,
    decreases ops.len(),
{
    if ops.len() > 0 {
        lemma_operation_frame(front, back, ops.last());
        lemma_operations_frame(apply_operation(front, ops.last()), back, ops.drop_last());
    }
}

/// The operations of one more line are those of the lines before it and,
/// after them, the operation of that line.
pub proof fn lemma_operations_step(
    lines: Seq<Seq<char>>,
    table: Map<Seq<char>, AnnotationView>,
    config: AnnotatorConfig,
    i: nat,
)
    ensures
        operations_upto(lines, table, config, i + 1) == match operation_at(
            lines,
            table,
            config,
            i as int,
        ) {
            Some(op) => operations_upto(lines, table, config, i).push(op),
            None => operations_upto(lines, table, config, i),
        },
{
    let before = scan(lines, i);
    let after = scan(lines, i + 1);
    assert(after == scan_step(lines, i as int, before));
    if after.targets.len() > before.targets.len() {
        assert(after.targets.drop_last() =~= before.targets);
    } else {
        assert(after.targets =~= before.targets);
    }
}


/// Comment lines leave the first pass as it is.
pub proof fn lemma_scan_over_comments(lines: Seq<Seq<char>>, s: nat, n: nat)
    requires
        s <= n <= lines.len(),
        forall|j: int| s <= j < n ==> is_comment_line(#[trigger] lines[j]),
    ensures
        scan(lines, n) == scan(lines, s),
    decreases n - s,
{
    if s < n {
        lemma_scan_over_comments(lines, s, (n - 1) as nat);
        assert(is_comment_line(lines[n - 1]));
    }
}

/// What is known of a line that calls for an operation.
pub proof fn lemma_operation_at(
    lines: Seq<Seq<char>>,
    table: Map<Seq<char>, AnnotationView>,
    config: AnnotatorConfig,
    i: int,
)
    requires
        0 <= i < lines.len(),
        operation_at(lines, table, config, i) is Some,
    ensures
        ({
            let op = operation_at(lines, table, config, i)->0;
            let target = target_at(lines, i)->0;
            &&& target_at(lines, i) is Some
            &&& op.line == i
            &&& target.line == i
            &&& target.indent == indentation(lines[i])
            &&& target.has_existing == has_preceding(lines, i, target.indent)
            &&& !is_comment_line(lines[i])
            &&& !is_blank(lines[i])
            &&& table.contains_key(target.path)
            &&& comment_block(table[target.path], config, target.indent) == Some(op.comment)
            &&& op.kind == OperationKind::Replace ==> target.has_existing
        }),
{
}

/// Where the lines kept below the comment block of line `i` end: at the
/// line itself, or where the comment lines above it begin if the block
/// replaces them.
pub open spec fn kept_until(lines: Seq<Seq<char>>, op: OperationView, i: int) -> int {
    match op.kind {
        OperationKind::Replace => comment_run_start(lines, i - 1),
        _ => i,
    }
}

/// One more line without an operation.
proof fn lemma_applied_plain_step(
    lines: Seq<Seq<char>>,
    table: Map<Seq<char>, AnnotationView>,
    config: AnnotatorConfig,
    i: nat,
)
    requires
        i < lines.len(),
        operation_at(lines, table, config, i as int) is None,
        fits(lines.take(i as int), operations_upto(lines, table, config, i)),
        apply_all(lines.take(i as int), operations_upto(lines, table, config, i)) == emitted(
            lines,
            table,
            config,
            i,
        ),
    ensures
        fits(lines.take(i as int + 1), operations_upto(lines, table, config, i + 1)),
        apply_all(lines.take(i as int + 1), operations_upto(lines, table, config, i + 1)) == emitted(
            lines,
            table,
            config,
            i + 1,
        ),
{
    let front = lines.take(i as int);
    let ops = operations_upto(lines, table, config, i);
    lemma_operations_step(lines, table, config, i);
    assert(lines.take(i as int + 1) =~= front + seq![lines[i as int]]);
    lemma_operations_frame(front, seq![lines[i as int]], ops);
    assert(emitted(lines, table, config, i) + seq![lines[i as int]] =~= emitted(
        lines,
        table,
        config,
        i,
    ).push(lines[i as int]));
}

/// What stands between the kept lines and a line with an operation.
proof fn lemma_kept_until(
    lines: Seq<Seq<char>>,
    table: Map<Seq<char>, AnnotationView>,
    config: AnnotatorConfig,
    i: nat,
)
    requires
        i < lines.len(),
        operation_at(lines, table, config, i as int) is Some,
    ensures
        ({
            let op = operation_at(lines, table, config, i as int)->0;
            let start = kept_until(lines, op, i as int);
            &&& 0 <= start <= i
            &&& op.line == i
            &&& scan(lines, i) == scan(lines, start as nat)
            &&& apply_operation(lines.take(i as int + 1), op) == lines.take(start) + (lines_of(
                op.comment,
            ) + seq![lines[i as int]])
        }),
{
    let op = operation_at(lines, table, config, i as int)->0;
    let start = kept_until(lines, op, i as int);
    let whole = lines.take(i as int + 1);
    lemma_operation_at(lines, table, config, i as int);
    if op.kind == OperationKind::Replace {
        assert(i >= 1);
        lemma_comment_run(lines, i - 1);
        assert(lines =~= whole + lines.skip(i as int + 1));
        lemma_comment_run_frame(whole, lines.skip(i as int + 1), i - 1);
        assert(is_comment_line(lines[i - 1]));
        lemma_scan_over_comments(lines, start as nat, i);
    }
    assert(whole.take(start) =~= lines.take(start));
    assert(whole.skip(i as int) =~= seq![lines[i as int]]);
    assert(apply_operation(whole, op) =~= lines.take(start) + (lines_of(op.comment)
        + seq![lines[i as int]]));
}

/// One more line with an operation.
proof fn lemma_applied_operation_step(
    lines: Seq<Seq<char>>,
    table: Map<Seq<char>, AnnotationView>,
    config: AnnotatorConfig,
    i: nat,
    start: nat,
)
    requires
        i < lines.len(),
        operation_at(lines, table, config, i as int) is Some,
        start == kept_until(lines, operation_at(lines, table, config, i as int)->0, i as int),
        fits(lines.take(start as int), operations_upto(lines, table, config, start)),
        apply_all(lines.take(start as int), operations_upto(lines, table, config, start))
            == emitted(lines, table, config, start),
    ensures
        fits(lines.take(i as int + 1), operations_upto(lines, table, config, i + 1)),
        apply_all(lines.take(i as int + 1), operations_upto(lines, table, config, i + 1)) == emitted(
            lines,
            table,
            config,
            i + 1,
        ),
{
    let op = operation_at(lines, table, config, i as int)->0;
    let ops = operations_upto(lines, table, config, i);
    let all = ops.push(op);
    let kept = lines.take(start as int);
    let back = lines_of(op.comment) + seq![lines[i as int]];
    lemma_operations_step(lines, table, config, i);
    lemma_kept_until(lines, table, config, i);
    assert(all.last() == op);
    assert(all.drop_last() =~= ops);
    assert(operations_upto(lines, table, config, start) == ops);
    lemma_operations_frame(kept, back, ops);
    assert(emitted(lines, table, config, start) + back =~= (emitted(lines, table, config, start)
        + lines_of(op.comment)).push(lines[i as int]));
}

/// Applying the operations of the first `n` lines, the last one first,
/// builds the same lines as going through them from the top.
pub proof fn lemma_applied_is_emitted(
    lines: Seq<Seq<char>>,
    table: Map<Seq<char>, AnnotationView>,
    config: AnnotatorConfig,
    n: nat,
)
    requires
        n <= lines.len(),
    ensures
        fits(lines.take(n as int), operations_upto(lines, table, config, n)),
        apply_all(lines.take(n as int), operations_upto(lines, table, config, n)) == emitted(
            lines,
            table,
            config,
            n,
        ),
    decreases n,
{
    if n == 0 {
        assert(operations_upto(lines, table, config, 0) =~= Seq::<OperationView>::empty());
        assert(lines.take(0) =~= Seq::<Seq<char>>::empty());
    } else {
        let i = (n - 1) as nat;
        match operation_at(lines, table, config, i as int) {
            None => {
                lemma_applied_is_emitted(lines, table, config, i);
                lemma_applied_plain_step(lines, table, config, i);
            },
            Some(op) => {
                lemma_kept_until(lines, table, config, i);
                let start = kept_until(lines, op, i as int) as nat;
                lemma_applied_is_emitted(lines, table, config, start);
                lemma_applied_operation_step(lines, table, config, i, start);
            },
        }
    }
}

/// The first pass over the front of a text does not look at its back.
pub proof fn lemma_scan_prefix(front: Seq<Seq<char>>, back: Seq<Seq<char>>, n: nat)
    requires
        n <= front.len(),
    ensures
        scan(front + back, n) == scan(front, n),
    decreases n,
{
    if n > 0 {
        lemma_scan_prefix(front, back, (n - 1) as nat);
        let whole = front + back;
        assert(whole[n - 1] == front[n - 1]);
        if n > 1 {
            assert(whole[n - 2] == front[n - 2]);
        }
    }
}

/// Spaces are as wide as they are many.
pub proof fn lemma_spaces_width(count: nat)
    ensures
        byte_width(spaces(count)) == count,
    decreases count,
{
    if count > 0 {
        assert(spaces(count).drop_first() =~= spaces((count - 1) as nat));
        lemma_spaces_width((count - 1) as nat);
    }
}

/// A comment line at `indent` is a comment, indented by `indent`.
pub proof fn lemma_comment_line_shape(indent: nat, text: Seq<char>)
    ensures
        is_comment_line(comment_line(indent, text)),
        indentation(comment_line(indent, text)) == indent,
        comment_line(indent, text).len() >= 2,
        comment_line(indent, text).len() == indent + 2 + text.len(),
{
    let line = comment_line(indent, text);
    assert forall|i: int| 0 <= i < indent implies is_whitespace(#[trigger] line[i]) by {
        assert(line[i] == ' ');
    }
    assert(line[indent as int] == '#');
    lemma_leading_whitespace_is(line, indent as int);
    assert(line.take(indent as int) =~= spaces(indent));
    lemma_spaces_width(indent);
}

/// Every comment line of a record is a comment line at the indentation it
/// was asked for.
pub proof fn lemma_comment_lines_shape(
    a: AnnotationView,
    config: AnnotatorConfig,
    indent: nat,
    k: int,
)
    requires
        0 <= k < comment_lines(a, config, indent).len(),
    ensures
        is_comment_line(comment_lines(a, config, indent)[k]),
        indentation(comment_lines(a, config, indent)[k]) == indent,
        comment_lines(a, config, indent)[k].len() >= 2,
{
    let lines = comment_lines(a, config, indent);
    let title_lines = if config.include_title && a.title is Some {
        seq![comment_line(indent, a.title->0)]
    } else {
        Seq::empty()
    };
    let description_lines = if config.include_description && a.description is Some {
        comment_each(indent, wrapped(a.description->0, config.wrap_width(indent)))
    } else {
        Seq::empty()
    };
    assert(lines == title_lines + description_lines + if config.include_default && a.default
        is Some {
        seq![comment_line(indent, default_note(a.default->0))]
    } else {
        Seq::empty()
    });
    if k < title_lines.len() {
        assert(lines[k] == comment_line(indent, a.title->0));
        lemma_comment_line_shape(indent, a.title->0);
    } else if k < title_lines.len() + description_lines.len() {
        let j = k - title_lines.len();
        let text = wrapped(a.description->0, config.wrap_width(indent))[j];
        assert(lines[k] == description_lines[j]);
        assert(description_lines[j] == comment_line(indent, text));
        lemma_comment_line_shape(indent, text);
    } else {
        assert(lines[k] == comment_line(indent, default_note(a.default->0)));
        lemma_comment_line_shape(indent, default_note(a.default->0));
    }
}

/// The policy does not change what the comment lines of a record are.
pub proof fn lemma_policy_keeps_lines(
    a: AnnotationView,
    config: AnnotatorConfig,
    other: AnnotatorConfig,
    indent: nat,
)
    requires
        other == (AnnotatorConfig { existing_comments: other.existing_comments, ..config }),
    ensures
        comment_lines(a, other, indent) == comment_lines(a, config, indent),
        comment_block(a, other, indent) == comment_block(a, config, indent),
{
    assert(other.wrap_width(indent) == config.wrap_width(indent));
}


/// A line that holds no line feed and does not end in a carriage return.
pub open spec fn clean_line(line: Seq<char>) -> bool {
    (forall|i: int| 0 <= i < line.len() ==> #[trigger] line[i] != '\n') && !(line.len() > 0
        && line.last() == '\r')
}

/// Whether every line is clean.
pub open spec fn clean_lines(lines: Seq<Seq<char>>) -> bool {
    forall|i: int| 0 <= i < lines.len() ==> clean_line(#[trigger] lines[i])
}

/// The lines joined by line feeds, with one more line feed at the end
/// where `closed` asks for it and there is a line at all.
pub open spec fn text_of(lines: Seq<Seq<char>>, closed: bool) -> Seq<char> {
    if closed && lines.len() > 0 {
        join_lines(lines).push('\n')
    } else {
        join_lines(lines)
    }
}

/// Clean lines that were joined come apart again as they were, as long as
/// the text ends in a line feed or its last line is not empty.
pub proof fn lemma_lines_of_text(lines: Seq<Seq<char>>, closed: bool)
    requires
        clean_lines(lines),
        lines.len() > 0 ==> closed || lines.last().len() > 0,
    ensures
        lines_of(text_of(lines, closed)) == lines,
    decreases lines.len(),
{
    let text = text_of(lines, closed);
    if lines.len() == 0 {
        assert(lines_of(text) =~= lines);
    } else {
        let head = lines[0];
        let rest = lines.drop_first();
        assert(lines =~= seq![head] + rest);
        lemma_joined_prepend(head, rest, seq!['\n']);
        assert(clean_line(head));
        if rest.len() == 0 {
            if closed {
                assert(text =~= head.push('\n'));
                lemma_first_index_is(text, '\n', head.len() as int);
                assert(text.take(head.len() as int) =~= head);
                assert(text.skip(head.len() as int + 1) =~= Seq::<char>::empty());
                assert(lines_of(Seq::<char>::empty()) =~= Seq::<Seq<char>>::empty());
                assert(lines_of(text) =~= seq![head]);
            } else {
                assert(text == head);
                lemma_first_index_is(text, '\n', head.len() as int);
                assert(lines_of(text) =~= seq![head]);
            }
        } else {
            let tail = text_of(rest, closed);
            assert forall|i: int| 0 <= i < rest.len() implies clean_line(#[trigger] rest[i]) by {
                assert(rest[i] == lines[i + 1]);
            }
            assert(rest.last() == lines.last());
            lemma_lines_of_text(rest, closed);
            assert(text =~= head + seq!['\n'] + tail);
            lemma_first_index_is(text, '\n', head.len() as int);
            assert(text.take(head.len() as int) =~= head);
            assert(text.skip(head.len() as int + 1) =~= tail);
            assert(lines_of(text) =~= seq![head] + lines_of(tail));
        }
    }
}


/// The configuration that differs from `config` only in that it skips keys
/// that have a comment.
pub open spec fn skipping(config: AnnotatorConfig) -> AnnotatorConfig {
    AnnotatorConfig { existing_comments: ExistingCommentBehavior::Skip, ..config }
}

/// Whether every comment line that the table gives rise to under `config`
/// is clean.
pub open spec fn clean_table(table: Map<Seq<char>, AnnotationView>, config: AnnotatorConfig) -> bool {
    forall|path: Seq<char>, indent: nat, k: int|
        table.contains_key(path) && 0 <= k < comment_lines(table[path], config, indent).len()
            ==> clean_line(#[trigger] comment_lines(table[path], config, indent)[k])
}

/// Whether `out` is a settled form of the first `n` lines: its open
/// mappings are those of the lines, a run that skips existing comments
/// finds nothing to do in it, and it ends with the last of the lines.
pub open spec fn settled(
    lines: Seq<Seq<char>>,
    table: Map<Seq<char>, AnnotationView>,
    config: AnnotatorConfig,
    n: nat,
    out: Seq<Seq<char>>,
) -> bool {
    &&& scan(out, out.len()).stack == scan(lines, n).stack
    &&& operations_for(scan(out, out.len()).targets, table, skipping(config)) == Seq::<
        OperationView,
    >::empty()
    &&& n > 0 ==> out.len() > 0 && out.last() == lines[n - 1]
}

/// A settled form stays settled when a key line follows it, behind a
/// comment block of its own where it called for an operation.
proof fn lemma_settled_step(
    lines: Seq<Seq<char>>,
    table: Map<Seq<char>, AnnotationView>,
    config: AnnotatorConfig,
    i: nat,
    start: nat,
    base: Seq<Seq<char>>,
    block: Seq<Seq<char>>,
)
    requires
        i < lines.len(),
        start <= i,
        settled(lines, table, config, start, base),
        scan(lines, i) == scan(lines, start),
        forall|j: int| 0 <= j < block.len() ==> is_comment_line(#[trigger] block[j]),
        operation_at(lines, table, config, i as int) is None ==> block.len() == 0 && start == i,
        operation_at(lines, table, config, i as int) is Some ==> block.len() > 0 && indentation(
            block.last(),
        ) == indentation(lines[i as int]),
    ensures
        settled(lines, table, config, i + 1, (base + block).push(lines[i as int])),
{
    let line = lines[i as int];
    let out = (base + block).push(line);
    let m = base.len();
    let b = block.len();
    let later = skipping(config);
    assert(out =~= base + (block + seq![line]));
    lemma_scan_prefix(base, block + seq![line], m);
    assert forall|j: int| m <= j < m + b implies is_comment_line(#[trigger] out[j]) by {
        assert(out[j] == block[j - m]);
    }
    lemma_scan_over_comments(out, m, m + b);
    let st = scan(out, m + b);
    assert(st == scan(base, m));
    assert(out[(m + b) as int] == line);
    assert(out.len() == m + b + 1);
    assert(scan(out, out.len()) == scan_step(out, (m + b) as int, st));
    let plain = scan(lines, i);
    assert(scan(lines, i + 1) == scan_step(lines, i as int, plain));
    assert(st.stack == plain.stack);
    if is_blank(line) || is_comment_line(line) {
    } else {
        let after = scan(out, out.len());
        if after.targets.len() > st.targets.len() {
            let target = after.targets.last();
            let first = target_at(lines, i as int)->0;
            assert(after.targets.drop_last() =~= st.targets);
            assert(target.path == first.path);
            assert(target.indent == first.indent);
            assert(target.has_existing == has_preceding(out, (m + b) as int, target.indent));
            if table.contains_key(target.path) {
                lemma_policy_keeps_lines(table[target.path], config, later, target.indent);
            }
            if b > 0 {
                assert(out[m + b - 1] == block.last());
                assert(target.has_existing);
            } else {
                assert(operation_for(first, table, config) is None);
                if table.contains_key(target.path) && comment_block(
                    table[target.path],
                    later,
                    target.indent,
                ) is Some {
                    assert(first.has_existing);
                    assert(out[m - 1] == base.last());
                    assert(target.has_existing);
                }
            }
            assert(operation_for(target, table, later) is None);
        } else {
            assert(after.targets =~= st.targets);
        }
    }
}

/// The comment block of an operation is made of comment lines at the
/// indentation of its key line.
proof fn lemma_block_lines(
    lines: Seq<Seq<char>>,
    table: Map<Seq<char>, AnnotationView>,
    config: AnnotatorConfig,
    i: nat,
)
    requires
        i < lines.len(),
        clean_table(table, config),
        operation_at(lines, table, config, i as int) is Some,
    ensures
        ({
            let block = lines_of(operation_at(lines, table, config, i as int)->0.comment);
            &&& block.len() > 0
            &&& clean_lines(block)
            &&& forall|j: int|
                0 <= j < block.len() ==> is_comment_line(#[trigger] block[j]) && indentation(
                    block[j],
                ) == indentation(lines[i as int])
        }),
{
    let op = operation_at(lines, table, config, i as int)->0;
    let target = target_at(lines, i as int)->0;
    lemma_operation_at(lines, table, config, i as int);
    let made = comment_lines(table[target.path], config, target.indent);
    assert(op.comment == join_lines(made));
    assert forall|j: int| 0 <= j < made.len() implies clean_line(#[trigger] made[j])
        && is_comment_line(made[j]) && indentation(made[j]) == target.indent && made[j].len()
        >= 2 by {
        lemma_comment_lines_shape(table[target.path], config, target.indent, j);
    }
    lemma_lines_of_text(made, false);
}

/// Going through the lines from the top gives a settled form of them.
pub proof fn lemma_emitted_settled(
    lines: Seq<Seq<char>>,
    table: Map<Seq<char>, AnnotationView>,
    config: AnnotatorConfig,
    n: nat,
)
    requires
        n <= lines.len(),
        clean_table(table, config),
    ensures
        settled(lines, table, config, n, emitted(lines, table, config, n)),
    decreases n,
{
    if n > 0 {
        let i = (n - 1) as nat;
        match operation_at(lines, table, config, i as int) {
            None => {
                lemma_emitted_settled(lines, table, config, i);
                let base = emitted(lines, table, config, i);
                assert(base + Seq::<Seq<char>>::empty() =~= base);
                lemma_settled_step(lines, table, config, i, i, base, Seq::empty());
            },
            Some(op) => {
                lemma_kept_until(lines, table, config, i);
                let start = kept_until(lines, op, i as int) as nat;
                lemma_emitted_settled(lines, table, config, start);
                lemma_block_lines(lines, table, config, i);
                lemma_settled_step(
                    lines,
                    table,
                    config,
                    i,
                    start,
                    emitted(lines, table, config, start),
                    lines_of(op.comment),
                );
            },
        }
    }
}


/// The lines of a text hold no line feed, and no carriage return where the
/// text holds none. Where the text does not end in a line feed, its last
/// line is not empty.
pub proof fn lemma_lines_are_clean(text: Seq<char>)
    requires
        forall|i: int| 0 <= i < text.len() ==> #[trigger] text[i] != '\r',
    ensures
        clean_lines(lines_of(text)),
        text.len() > 0 ==> lines_of(text).len() > 0,
        text.len() > 0 && !ends_with_line_feed(text) ==> lines_of(text).last().len() > 0,
    decreases text.len(),
{
    if text.len() > 0 {
        let k = first_index(text, '\n');
        lemma_first_index(text, '\n');
        if k < text.len() {
            let head = text.take(k);
            let rest = text.skip(k + 1);
            assert forall|i: int| 0 <= i < rest.len() implies #[trigger] rest[i] != '\r' by {
                assert(rest[i] == text[i + k + 1]);
            }
            lemma_lines_are_clean(rest);
            assert(clean_line(head)) by {
                assert forall|i: int| 0 <= i < head.len() implies #[trigger] head[i] != '\n' by {
                    assert(head[i] == text[i]);
                }
                if head.len() > 0 {
                    assert(head.last() == text[k - 1]);
                }
            }
            assert(strip_carriage_return(head) == head);
            let all = seq![head] + lines_of(rest);
            assert forall|i: int| 0 <= i < all.len() implies clean_line(#[trigger] all[i]) by {
                if i > 0 {
                    assert(all[i] == lines_of(rest)[i - 1]);
                }
            }
            if !ends_with_line_feed(text) {
                assert(rest.len() > 0);
                assert(rest.last() == text.last());
                assert(all.last() == lines_of(rest).last());
            }
        } else {
            assert(lines_of(text) =~= seq![text]);
            assert(clean_line(text));
        }
    } else {
        assert(lines_of(text) =~= Seq::<Seq<char>>::empty());
    }
}

/// Going through clean lines from the top, with clean comment blocks,
/// gives clean lines.
pub proof fn lemma_emitted_clean(
    lines: Seq<Seq<char>>,
    table: Map<Seq<char>, AnnotationView>,
    config: AnnotatorConfig,
    n: nat,
)
    requires
        n <= lines.len(),
        clean_lines(lines),
        clean_table(table, config),
    ensures
        clean_lines(emitted(lines, table, config, n)),
    decreases n,
{
    if n > 0 {
        let i = (n - 1) as nat;
        let out = emitted(lines, table, config, n);
        match operation_at(lines, table, config, i as int) {
            None => {
                lemma_emitted_clean(lines, table, config, i);
                let base = emitted(lines, table, config, i);
                assert forall|j: int| 0 <= j < out.len() implies clean_line(#[trigger] out[j]) by {
                    if j < base.len() {
                        assert(out[j] == base[j]);
                    } else {
                        assert(out[j] == lines[i as int]);
                    }
                }
            },
            Some(op) => {
                lemma_kept_until(lines, table, config, i);
                let start = kept_until(lines, op, i as int) as nat;
                lemma_emitted_clean(lines, table, config, start);
                lemma_block_lines(lines, table, config, i);
                let base = emitted(lines, table, config, start);
                let block = lines_of(op.comment);
                assert forall|j: int| 0 <= j < out.len() implies clean_line(#[trigger] out[j]) by {
                    if j < base.len() {
                        assert(out[j] == base[j]);
                    } else if j < base.len() + block.len() {
                        assert(out[j] == block[j - base.len()]);
                    } else {
                        assert(out[j] == lines[i as int]);
                    }
                }
            },
        }
    }
}

/// Joined parts end as their last part ends.
pub proof fn lemma_joined_last(parts: Seq<Seq<char>>, separator: Seq<char>)
    requires
        parts.len() > 0,
        parts.last().len() > 0,
    ensures
        joined(parts, separator).len() > 0,
        joined(parts, separator).last() == parts.last().last(),
{
}

/// A second run over an annotated YAML text that skips keys with a comment
/// gives that text back, character for character. This holds for a text
/// without carriage returns and a table whose comment lines hold no line
/// break.
pub proof fn lemma_second_run_changes_nothing(
    content: Seq<char>,
    table: Map<Seq<char>, AnnotationView>,
    config: AnnotatorConfig,
)
    requires
        forall|i: int| 0 <= i < content.len() ==> #[trigger] content[i] != '\r',
        clean_table(table, config),
    ensures
        annotated_text(annotated_text(content, table, config), table, skipping(config))
            == annotated_text(content, table, config),
{
    let lines = lines_of(content);
    let n = lines.len();
    let closed = ends_with_line_feed(content);
    let out = emitted(lines, table, config, n);
    let first = annotated_text(content, table, config);
    assert(lines.take(n as int) =~= lines);
    lemma_applied_is_emitted(lines, table, config, n);
    lemma_emitted_settled(lines, table, config, n);
    lemma_lines_are_clean(content);
    lemma_emitted_clean(lines, table, config, n);
    assert(first == text_of(out, closed));
    lemma_lines_of_text(out, closed);
    assert(lines_of(first) == out);
    if !closed && out.len() > 0 {
        lemma_joined_last(out, seq!['\n']);
        assert(out.last().last() != '\n');
    }
    assert(ends_with_line_feed(first) == closed);
    assert(apply_all(out, Seq::<OperationView>::empty()) == out);
}

} // verus!
