//! Comment placement for YAML, done on the text line by line.

use vstd::prelude::*;
use vstd::string::*;
use crate::annotator::yaml_syntax::{parse_yaml, yaml_parses};
use crate::annotator::{
    comment_lines, Annotator, format_comment_lines, AnnotatorConfig, ExistingCommentBehavior,
};
use crate::error::{AnnotatorError, AnnotatorErrorKind, Error};
use crate::schema::annotation::{Annotation, AnnotationMap, AnnotationView};
use crate::text::{
    chars_of, char_is_whitespace, dotted, first_index, indentation, is_blank, is_comment_line,
    is_whitespace, lemma_first_index_is, lemma_leading_whitespace_is,
    ends_with_line_feed, ends_with_newline, join_lines, join_with_line_feeds, lemma_trailing_whitespace_is,
    lines_of, measure_indentation, split_lines, string_of_range, trim,
    trim_end, trim_start, views,
};

verus! {

/// The key that a line of a block mapping starts with: the text before the
/// first colon of the trimmed line, itself trimmed. A sequence item (a line
/// that starts with `-`), a line without a colon and a line with nothing
/// before its colon have no key.
pub open spec fn yaml_key(line: Seq<char>) -> Option<Seq<char>> {
    let t = trim(line);
    if t.len() > 0 && t[0] == '-' {
        None
    } else {
        let colon = first_index(t, ':');
        if colon >= t.len() {
            None
        } else {
            let key = trim(t.take(colon));
            if key.len() == 0 {
                None
            } else {
                Some(key)
            }
        }
    }
}

/// Whether a line opens a nested mapping: it has a colon, and what follows
/// the first colon is empty or only a comment.
pub open spec fn opens_mapping(line: Seq<char>) -> bool {
    let t = trim(line);
    let colon = first_index(t, ':');
    colon < t.len() && {
        let rest = trim(t.skip(colon + 1));
        rest.len() == 0 || rest[0] == '#'
    }
}

/// Bounds of the trimmed form of `chars[from..to]` within `chars`.
fn trim_bounds(chars: &Vec<char>, from: usize, to: usize) -> (r: (usize, usize))
    requires
        from <= to <= chars.len(),
    ensures
        from <= r.0 <= r.1 <= to,
        trim(chars@.subrange(from as int, to as int)) == chars@.subrange(r.0 as int, r.1 as int),
{
    let ghost s = chars@.subrange(from as int, to as int);
    let mut a: usize = from;
    while a < to && char_is_whitespace(chars[a])
        invariant
            from <= a <= to <= chars.len(),
            s == chars@.subrange(from as int, to as int),
            forall|i: int| 0 <= i < a - from ==> is_whitespace(#[trigger] s[i]),
        decreases to - a,
    {
        a += 1;
    }
    proof {
        lemma_leading_whitespace_is(s, a - from);
    }
    let ghost t = trim_start(s);
    assert(t =~= chars@.subrange(a as int, to as int));
    let mut b: usize = to;
    while b > a && char_is_whitespace(chars[b - 1])
        invariant
            a <= b <= to <= chars.len(),
            t == chars@.subrange(a as int, to as int),
            forall|i: int| b - a <= i < to - a ==> is_whitespace(#[trigger] t[i]),
        decreases b - a,
    {
        b -= 1;
    }
    proof {
        lemma_trailing_whitespace_is(t, to - b);
        assert(trim_end(t) =~= chars@.subrange(a as int, b as int));
    }
    (a, b)
}

/// Position of the first `c` in `chars[from..to]`, or `to` if there is none.
fn find_char(chars: &Vec<char>, from: usize, to: usize, c: char) -> (k: usize)
    requires
        from <= to <= chars.len(),
    ensures
        from <= k <= to,
        k - from == first_index(chars@.subrange(from as int, to as int), c),
{
    let ghost s = chars@.subrange(from as int, to as int);
    let mut k: usize = from;
    while k < to && chars[k] != c
        invariant
            from <= k <= to <= chars.len(),
            s == chars@.subrange(from as int, to as int),
            forall|i: int| 0 <= i < k - from ==> #[trigger] s[i] != c,
        decreases to - k,
    {
        k += 1;
    }
    proof {
        lemma_first_index_is(s, c, k - from);
    }
    k
}

/// Extracts the key of a line such as `key: value` or `key:`.
pub fn extract_yaml_key(line: &str) -> (key: Option<String>)
    ensures
        match key {
            Some(k) => yaml_key(line@) == Some(k@),
            None => yaml_key(line@) is None,
        },
{
    let chars = chars_of(line);
    assert(chars@.subrange(0, chars.len() as int) =~= line@);
    let (a, b) = trim_bounds(&chars, 0, chars.len());
    let ghost t = trim(line@);
    if a < b && chars[a] == '-' {
        return None;
    }
    let colon = find_char(&chars, a, b, ':');
    if colon >= b {
        return None;
    }
    assert(t.take(colon - a) =~= chars@.subrange(a as int, colon as int));
    let (ka, kb) = trim_bounds(&chars, a, colon);
    if ka == kb {
        return None;
    }
    Some(string_of_range(&chars, ka, kb))
}

/// Whether a line is a key with no inline value.
pub fn is_mapping_start(line: &str) -> (b: bool)
    ensures
        b == opens_mapping(line@),
{
    let chars = chars_of(line);
    assert(chars@.subrange(0, chars.len() as int) =~= line@);
    let (a, b) = trim_bounds(&chars, 0, chars.len());
    let ghost t = trim(line@);
    let colon = find_char(&chars, a, b, ':');
    if colon >= b {
        return false;
    }
    assert(t.skip(colon - a + 1) =~= chars@.subrange(colon + 1, b as int));
    let (ra, rb) = trim_bounds(&chars, colon + 1, b);
    ra == rb || chars[ra] == '#'
}


/// A key line found in the text: where it stands, the dotted path of its
/// key, its indentation, and whether a comment of its own stands above it.
pub struct LineTarget {
    pub line: nat,
    pub path: Seq<char>,
    pub indent: nat,
    pub has_existing: bool,
}

/// An open mapping: the name of its key and the indentation of that key.
pub struct Scope {
    pub name: Seq<char>,
    pub indent: nat,
}

/// What the first pass knows after some lines: the key lines found so far
/// and the mappings that are still open.
pub struct ScanState {
    pub targets: Seq<LineTarget>,
    pub stack: Seq<Scope>,
}

/// The open mappings that can hold a line at `indent`: those whose key is
/// indented less.
pub open spec fn pop_scopes(stack: Seq<Scope>, indent: nat) -> Seq<Scope>
    decreases stack.len(),
{
    if stack.len() > 0 && indent <= stack.last().indent {
        pop_scopes(stack.drop_last(), indent)
    } else {
        stack
    }
}

/// The names of the open mappings, outermost first.
pub open spec fn scope_names(stack: Seq<Scope>) -> Seq<Seq<char>> {
    Seq::new(stack.len(), |i: int| stack[i].name)
}

/// The path of `key` inside the open mappings.
pub open spec fn path_under(stack: Seq<Scope>, key: Seq<char>) -> Seq<char> {
    dotted(scope_names(stack).push(key))
}

/// Whether the line just above line `n` is a comment at `indent`.
pub open spec fn has_preceding(lines: Seq<Seq<char>>, n: int, indent: nat) -> bool {
    0 < n <= lines.len() && is_comment_line(lines[n - 1]) && indentation(lines[n - 1]) == indent
}

/// The effect of line `i` on the state of the first pass.
pub open spec fn scan_step(lines: Seq<Seq<char>>, i: int, state: ScanState) -> ScanState {
    let line = lines[i];
    if is_blank(line) || is_comment_line(line) {
        state
    } else {
        let indent = indentation(line);
        let stack = pop_scopes(state.stack, indent);
        match yaml_key(line) {
            None => ScanState { targets: state.targets, stack },
            Some(key) => ScanState {
                targets: state.targets.push(
                    LineTarget {
                        line: i as nat,
                        path: path_under(stack, key),
                        indent,
                        has_existing: has_preceding(lines, i, indent),
                    },
                ),
                stack: if opens_mapping(line) {
                    stack.push(Scope { name: key, indent })
                } else {
                    stack
                },
            },
        }
    }
}

/// The state of the first pass after the first `n` lines.
pub open spec fn scan(lines: Seq<Seq<char>>, n: nat) -> ScanState
    decreases n,
{
    if n == 0 {
        ScanState { targets: Seq::empty(), stack: Seq::empty() }
    } else {
        scan_step(lines, n - 1, scan(lines, (n - 1) as nat))
    }
}

/// The key lines of a text, in line order.
pub open spec fn line_targets(lines: Seq<Seq<char>>) -> Seq<LineTarget> {
    scan(lines, lines.len()).targets
}

/// The mathematical value of a stack of open mappings.
pub open spec fn stack_view(stack: Seq<(String, usize)>) -> Seq<Scope> {
    Seq::new(stack.len(), |i: int| Scope { name: stack[i].0@, indent: stack[i].1 as nat })
}

/// The mathematical value of a list of key lines.
pub open spec fn targets_view(targets: Seq<(usize, String, usize, bool)>) -> Seq<LineTarget> {
    Seq::new(
        targets.len(),
        |i: int|
            LineTarget {
                line: targets[i].0 as nat,
                path: targets[i].1@,
                indent: targets[i].2 as nat,
                has_existing: targets[i].3,
            },
    )
}

/// Drops from `stack` the mappings that cannot hold a line at `indent`.
fn pop_to(stack: &mut Vec<(String, usize)>, indent: usize)
    ensures
        stack_view(final(stack)@) == pop_scopes(stack_view(old(stack)@), indent as nat),
{
    while stack.len() > 0 && indent <= stack[stack.len() - 1].1
        invariant
            pop_scopes(stack_view(stack@), indent as nat) == pop_scopes(
                stack_view(old(stack)@),
                indent as nat,
            ),
        decreases stack.len(),
    {
        let ghost before = stack_view(stack@);
        stack.pop();
        assert(stack_view(stack@) =~= before.drop_last());
    }
}

/// The dotted path of `key` inside the open mappings of `stack`.
fn compose_path(stack: &Vec<(String, usize)>, key: &str) -> (path: String)
    ensures
        path@ == path_under(stack_view(stack@), key@),
{
    let ghost names = scope_names(stack_view(stack@)).push(key@);
    let mut path = String::new();
    let mut i: usize = 0;
    proof {
        reveal_strlit(".");
    }
    while i < stack.len()
        invariant
            i <= stack.len(),
            "."@ == seq!['.'],
            names == scope_names(stack_view(stack@)).push(key@),
            path@ == dotted(names.take(i as int)) + if i > 0 {
                seq!['.']
            } else {
                Seq::<char>::empty()
            },
        decreases stack.len() - i,
    {
        path.append(stack[i].0.as_str());
        path.append(".");
        proof {
            let next = names.take(i + 1);
            assert(next.drop_last() =~= names.take(i as int));
            assert(next.last() == stack@[i as int].0@);
            assert(path@ =~= dotted(next) + seq!['.']);
        }
        i += 1;
    }
    path.append(key);
    proof {
        assert(names.take(stack.len() as int) =~= names.drop_last());
        assert(path@ =~= dotted(names));
    }
    path
}

/// Places schema documentation in YAML text as comment lines.
pub struct YamlAnnotator {
    pub config: AnnotatorConfig,
}

impl YamlAnnotator {
    /// An engine that works under `config`.
    pub fn new(config: AnnotatorConfig) -> (a: YamlAnnotator)
        ensures
            a.config == config,
    {
        YamlAnnotator { config }
    }

    /// Whether the line just above line `line_num` is a comment at the
    /// indentation `key_indent`.
    pub fn has_preceding_comment(&self, lines: &Vec<String>, line_num: usize, key_indent: usize) -> (b:
        bool)
        requires
            line_num <= lines.len(),
        ensures
            b == has_preceding(views(lines@), line_num as int, key_indent as nat),
    {
        if line_num == 0 {
            return false;
        }
        let (indent, first) = measure_indentation(lines[line_num - 1].as_str());
        match first {
            Some(c) => c == '#' && indent == key_indent,
            None => false,
        }
    }

    /// The first pass: every key line of `content` with its line number, its
    /// dotted path, its indentation, and whether a comment stands above it.
    pub fn build_line_path_map(&self, content: &str) -> (targets: Vec<(usize, String, usize, bool)>)
        ensures
            targets_view(targets@) == line_targets(lines_of(content@)),
    {
        let lines = split_lines(content);
        let mut targets: Vec<(usize, String, usize, bool)> = Vec::new();
        let mut stack: Vec<(String, usize)> = Vec::new();
        let mut i: usize = 0;
        assert(targets_view(targets@) =~= Seq::<LineTarget>::empty());
        assert(stack_view(stack@) =~= Seq::<Scope>::empty());
        while i < lines.len()
            invariant
                i <= lines.len(),
                views(lines@) == lines_of(content@),
                targets_view(targets@) == scan(views(lines@), i as nat).targets,
                stack_view(stack@) == scan(views(lines@), i as nat).stack,
            decreases lines.len() - i,
        {
            let line = lines[i].as_str();
            assert(line@ == views(lines@)[i as int]);
            let (indent, first) = measure_indentation(line);
            let skip = match first {
                Some(c) => c == '#',
                None => true,
            };
            if !skip {
                pop_to(&mut stack, indent);
                if let Some(key) = extract_yaml_key(line) {
                    let path = compose_path(&stack, key.as_str());
                    let has_existing = self.has_preceding_comment(&lines, i, indent);
                    let ghost before = targets_view(targets@);
                    targets.push((i, path, indent, has_existing));
                    assert(targets_view(targets@) =~= before.push(
                        LineTarget {
                            line: i as nat,
                            path: path@,
                            indent: indent as nat,
                            has_existing,
                        },
                    ));
                    if is_mapping_start(line) {
                        let ghost open = stack_view(stack@);
                        stack.push((key, indent));
                        assert(stack_view(stack@) =~= open.push(
                            Scope { name: key@, indent: indent as nat },
                        ));
                    }
                }
            }
            i += 1;
        }
        targets
    }
}


/// What an operation does with the comment block.
#[derive(Debug, Clone, Copy, PartialEq, Eq, Structural)]
pub enum OperationKind {
    /// Put the block just above the key line.
    Insert,
    /// Put the block in place of the comment lines above the key line.
    Replace,
    /// Put the block between the existing comment and the key line.
    Append,
}

/// One change to the list of lines.
#[derive(Debug)]
pub enum YamlOperation {
    /// Insert comment lines before the target line.
    Insert { line_num: usize, comment: String },
    /// Replace the comment lines above the target line.
    Replace { line_num: usize, comment: String },
    /// Insert comment lines after an existing comment, before the key.
    Append { line_num: usize, comment: String },
}

/// The mathematical value of a [`YamlOperation`].
pub struct OperationView {
    pub kind: OperationKind,
    pub line: nat,
    pub comment: Seq<char>,
}

impl View for YamlOperation {
    type V = OperationView;

    open spec fn view(&self) -> OperationView {
        match self {
            YamlOperation::Insert { line_num, comment } => OperationView {
                kind: OperationKind::Insert,
                line: *line_num as nat,
                comment: comment@,
            },
            YamlOperation::Replace { line_num, comment } => OperationView {
                kind: OperationKind::Replace,
                line: *line_num as nat,
                comment: comment@,
            },
            YamlOperation::Append { line_num, comment } => OperationView {
                kind: OperationKind::Append,
                line: *line_num as nat,
                comment: comment@,
            },
        }
    }
}

/// The views of a list of operations.
pub open spec fn operations_view(ops: Seq<YamlOperation>) -> Seq<OperationView> {
    Seq::new(ops.len(), |i: int| ops[i]@)
}

/// The comment block for a record at `indent`: its comment lines joined by
/// line feeds, or nothing where there is no line.
pub open spec fn comment_block(a: AnnotationView, config: AnnotatorConfig, indent: nat) -> Option<
    Seq<char>,
> {
    let lines = comment_lines(a, config, indent);
    if lines.len() == 0 {
        None
    } else {
        Some(join_lines(lines))
    }
}

/// The operation that a key line calls for, if any.
pub open spec fn operation_for(
    target: LineTarget,
    table: Map<Seq<char>, AnnotationView>,
    config: AnnotatorConfig,
) -> Option<OperationView> {
    if !table.contains_key(target.path) {
        None
    } else {
        match comment_block(table[target.path], config, target.indent) {
            None => None,
            Some(comment) => {
                if !target.has_existing {
                    Some(OperationView { kind: OperationKind::Insert, line: target.line, comment })
                } else {
                    match config.existing_comments {
                        ExistingCommentBehavior::Skip => None,
                        ExistingCommentBehavior::Replace => Some(
                            OperationView { kind: OperationKind::Replace, line: target.line, comment },
                        ),
                        ExistingCommentBehavior::Append => Some(
                            OperationView { kind: OperationKind::Append, line: target.line, comment },
                        ),
                        ExistingCommentBehavior::Prepend => Some(
                            OperationView { kind: OperationKind::Insert, line: target.line, comment },
                        ),
                    }
                }
            },
        }
    }
}

/// The operations that the key lines call for, in line order.
pub open spec fn operations_for(
    targets: Seq<LineTarget>,
    table: Map<Seq<char>, AnnotationView>,
    config: AnnotatorConfig,
) -> Seq<OperationView>
    decreases targets.len(),
{
    if targets.len() == 0 {
        Seq::empty()
    } else {
        let rest = operations_for(targets.drop_last(), table, config);
        match operation_for(targets.last(), table, config) {
            Some(op) => rest.push(op),
            None => rest,
        }
    }
}

/// Where the run of comment lines that ends just above line `s` begins.
pub open spec fn comment_run_start(lines: Seq<Seq<char>>, s: int) -> int
    decreases s,
{
    if 0 < s <= lines.len() && is_comment_line(lines[s - 1]) {
        comment_run_start(lines, s - 1)
    } else {
        s
    }
}

/// The lines after one operation. An operation that points past the end of
/// the list, and a replacement at the first line, change nothing.
pub open spec fn apply_operation(lines: Seq<Seq<char>>, op: OperationView) -> Seq<Seq<char>> {
    let block = lines_of(op.comment);
    let at = op.line as int;
    if at > lines.len() {
        lines
    } else {
        match op.kind {
            OperationKind::Insert => lines.take(at) + block + lines.skip(at),
            OperationKind::Append => lines.take(at) + block + lines.skip(at),
            OperationKind::Replace => if at == 0 {
                lines
            } else {
                lines.take(comment_run_start(lines, at - 1)) + block + lines.skip(at)
            },
        }
    }
}

/// The lines after all operations, the last operation applied first.
pub open spec fn apply_all(lines: Seq<Seq<char>>, ops: Seq<OperationView>) -> Seq<Seq<char>>
    decreases ops.len(),
{
    if ops.len() == 0 {
        lines
    } else {
        apply_all(apply_operation(lines, ops.last()), ops.drop_last())
    }
}

/// The annotated form of a YAML text.
pub open spec fn annotated_text(
    content: Seq<char>,
    table: Map<Seq<char>, AnnotationView>,
    config: AnnotatorConfig,
) -> Seq<char> {
    let lines = lines_of(content);
    let ops = operations_for(line_targets(lines), table, config);
    let text = join_lines(apply_all(lines, ops));
    if ends_with_line_feed(content) {
        text.push('\n')
    } else {
        text
    }
}

/// Appends a copy of `line` to `out`.
fn push_copy(out: &mut Vec<String>, line: &String)
    ensures
        views(final(out)@) == views(old(out)@).push(line@),
{
    out.push(line.clone());
    assert(views(out@) =~= views(old(out)@).push(line@));
}

/// The lines `lines[..start]`, then `block`, then `lines[end..]`.
fn splice(lines: &Vec<String>, start: usize, end: usize, block: &Vec<String>) -> (out: Vec<String>)
    requires
        start <= end <= lines.len(),
    ensures
        views(out@) == views(lines@).take(start as int) + views(block@) + views(lines@).skip(
            end as int,
        ),
{
    let mut out: Vec<String> = Vec::new();
    let mut i: usize = 0;
    while i < start
        invariant
            i <= start <= lines.len(),
            views(out@) =~= views(lines@).take(i as int),
        decreases start - i,
    {
        push_copy(&mut out, &lines[i]);
        i += 1;
    }
    let mut j: usize = 0;
    while j < block.len()
        invariant
            j <= block.len(),
            views(out@) =~= views(lines@).take(start as int) + views(block@).take(j as int),
        decreases block.len() - j,
    {
        push_copy(&mut out, &block[j]);
        j += 1;
    }
    let mut k: usize = end;
    while k < lines.len()
        invariant
            end <= k <= lines.len(),
            views(out@) =~= views(lines@).take(start as int) + views(block@) + views(
                lines@,
            ).subrange(end as int, k as int),
        decreases lines.len() - k,
    {
        push_copy(&mut out, &lines[k]);
        k += 1;
    }
    assert(views(lines@).subrange(end as int, lines.len() as int) =~= views(lines@).skip(
        end as int,
    ));
    out
}

/// Applies one operation to the list of lines.
pub fn apply_one(lines: Vec<String>, op: &YamlOperation) -> (out: Vec<String>)
    ensures
        views(out@) == apply_operation(views(lines@), op@),
{
    match op {
        YamlOperation::Insert { line_num, comment } => {
            if *line_num > lines.len() {
                lines
            } else {
                let block = split_lines(comment.as_str());
                splice(&lines, *line_num, *line_num, &block)
            }
        },
        YamlOperation::Append { line_num, comment } => {
            if *line_num > lines.len() {
                lines
            } else {
                let block = split_lines(comment.as_str());
                splice(&lines, *line_num, *line_num, &block)
            }
        },
        YamlOperation::Replace { line_num, comment } => {
            if *line_num > lines.len() || *line_num == 0 {
                lines
            } else {
                let mut start: usize = *line_num - 1;
                while start > 0 && measure_indentation(lines[start - 1].as_str()).1 == Some('#')
                    invariant
                        start < *line_num <= lines.len(),
                        comment_run_start(views(lines@), start as int) == comment_run_start(
                            views(lines@),
                            line_num - 1,
                        ),
                    decreases start,
                {
                    start -= 1;
                }
                let block = split_lines(comment.as_str());
                splice(&lines, start, *line_num, &block)
            }
        },
    }
}

/// Applies the operations to the list of lines, from the last operation to
/// the first.
pub fn apply_operations(lines: Vec<String>, ops: &Vec<YamlOperation>) -> (out: Vec<String>)
    ensures
        views(out@) == apply_all(views(lines@), operations_view(ops@)),
{
    let ghost all = operations_view(ops@);
    let ghost initial = views(lines@);
    let mut current = lines;
    let mut i: usize = ops.len();
    assert(all.take(i as int) =~= all);
    while i > 0
        invariant
            i <= ops.len(),
            all == operations_view(ops@),
            apply_all(views(current@), all.take(i as int)) == apply_all(initial, all),
        decreases i,
    {
        i -= 1;
        proof {
            let upper = all.take(i + 1);
            assert(upper.last() == ops@[i as int]@);
            assert(upper.drop_last() =~= all.take(i as int));
        }
        current = apply_one(current, &ops[i]);
    }
    assert(all.take(0) =~= Seq::<OperationView>::empty());
    current
}


impl YamlAnnotator {
    /// The comment block for `annotation` at `indent`: its comment lines
    /// joined by line feeds, or nothing where no line is to be emitted.
    pub fn format_comment(&self, annotation: &Annotation, indent: usize) -> (block: Option<String>)
        ensures
            match block {
                Some(text) => comment_block(annotation@, self.config, indent as nat) == Some(
                    text@,
                ),
                None => comment_block(annotation@, self.config, indent as nat) is None,
            },
    {
        let lines = format_comment_lines(annotation, &self.config, indent);
        if lines.len() == 0 {
            None
        } else {
            Some(join_with_line_feeds(&lines))
        }
    }

    /// The second pass, first half: one operation for every key line that has
    /// an annotation with something to emit, unless the line has a comment
    /// of its own and such lines are skipped.
    pub fn collect_operations(
        &self,
        targets: &Vec<(usize, String, usize, bool)>,
        annotations: &AnnotationMap,
    ) -> (ops: Vec<YamlOperation>)
        ensures
            operations_view(ops@) == operations_for(
                targets_view(targets@),
                annotations@,
                self.config,
            ),
    {
        let ghost all = targets_view(targets@);
        let mut ops: Vec<YamlOperation> = Vec::new();
        let mut i: usize = 0;
        assert(all.take(0) =~= Seq::<LineTarget>::empty());
        assert(operations_view(ops@) =~= Seq::<OperationView>::empty());
        while i < targets.len()
            invariant
                i <= targets.len(),
                all == targets_view(targets@),
                operations_view(ops@) == operations_for(
                    all.take(i as int),
                    annotations@,
                    self.config,
                ),
            decreases targets.len() - i,
        {
            let line_num: usize = targets[i].0;
            let indent: usize = targets[i].2;
            let has_existing: bool = targets[i].3;
            proof {
                let upper = all.take(i + 1);
                assert(upper.drop_last() =~= all.take(i as int));
                assert(upper.last() == all[i as int]);
            }
            let ghost before = operations_view(ops@);
            if let Some(annotation) = annotations.get(targets[i].1.as_str()) {
                if let Some(comment) = self.format_comment(annotation, indent) {
                    if !has_existing {
                        ops.push(YamlOperation::Insert { line_num, comment });
                    } else {
                        match self.config.existing_comments {
                            ExistingCommentBehavior::Skip => {},
                            ExistingCommentBehavior::Replace => {
                                ops.push(YamlOperation::Replace { line_num, comment });
                            },
                            ExistingCommentBehavior::Append => {
                                ops.push(YamlOperation::Append { line_num, comment });
                            },
                            ExistingCommentBehavior::Prepend => {
                                ops.push(YamlOperation::Insert { line_num, comment });
                            },
                        }
                    }
                }
            }
            proof {
                match operation_for(all[i as int], annotations@, self.config) {
                    Some(op) => {
                        assert(operations_view(ops@) =~= before.push(op));
                    },
                    None => {
                        assert(operations_view(ops@) =~= before);
                    },
                }
            }
            i += 1;
        }
        assert(all.take(targets.len() as int) =~= all);
        ops
    }
}

impl Annotator for YamlAnnotator {
    open spec fn accepts(&self, content: Seq<char>) -> bool {
        yaml_parses(content)
    }

    open spec fn annotated(&self, content: Seq<char>, table: Map<Seq<char>, AnnotationView>) -> Seq<
        char,
    > {
        annotated_text(content, table, self.config)
    }

    fn annotate(&self, content: &str, annotations: &AnnotationMap) -> (r: Result<
        String,
        AnnotatorError,
    >) {
        match parse_yaml(content) {
            Err(message) => {
                return Err(Error::new(AnnotatorErrorKind::Parse).with_source(message.as_str()));
            },
            Ok(()) => {},
        }
        let targets = self.build_line_path_map(content);
        let ops = self.collect_operations(&targets, annotations);
        let lines = apply_operations(split_lines(content), &ops);
        let mut text = join_with_line_feeds(&lines);
        if ends_with_newline(content) {
            proof {
                reveal_strlit("\n");
            }
            text.append("\n");
            assert(text@ =~= join_lines(views(lines@)).push('\n'));
        }
        Ok(text)
    }
}

} // verus!
