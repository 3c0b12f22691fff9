//! Configuration of the placement engines, and the comment formatter that
//! they share.

pub mod toml;
pub mod toml_laws;
pub mod toml_tree;
pub mod yaml;
pub mod yaml_idempotence;
pub mod yaml_laws;
pub mod yaml_syntax;

use vstd::prelude::*;
use vstd::string::*;
use crate::error::{AnnotatorError, AnnotatorErrorKind};
use crate::schema::annotation::{marked, Annotation, AnnotationMap, AnnotationView};
use crate::text::{repeat_space, spaces, views};
use crate::wrap::{wrap_text, wrapped};

verus! {

/// What to do where the target already has a comment.
#[derive(Debug, Clone, Copy, PartialEq, Eq, Structural)]
pub enum ExistingCommentBehavior {
    /// Leave the target alone.
    Skip,
    /// Put the new comment before the existing one.
    Prepend,
    /// Put the new comment after the existing one.
    Append,
    /// Put the new comment in place of the existing one.
    Replace,
}

impl Default for ExistingCommentBehavior {
    fn default() -> (b: ExistingCommentBehavior)
        ensures
            b == ExistingCommentBehavior::Prepend,
    {
        ExistingCommentBehavior::Prepend
    }
}

/// Which parts of an annotation become comment lines, and how.
#[derive(Debug, Clone, Copy)]
pub struct AnnotatorConfig {
    /// Emit the title.
    pub include_title: bool,
    /// Emit the description.
    pub include_description: bool,
    /// Emit the default value.
    pub include_default: bool,
    /// Width at which descriptions are wrapped; 78 where absent.
    pub max_line_width: Option<usize>,
    /// What to do where the target already has a comment.
    pub existing_comments: ExistingCommentBehavior,
}

impl Default for AnnotatorConfig {
    fn default() -> (c: AnnotatorConfig)
        ensures
            c == (AnnotatorConfig {
                include_title: true,
                include_description: true,
                include_default: false,
                max_line_width: Some(80usize),
                existing_comments: ExistingCommentBehavior::Prepend,
            }),
    {
        AnnotatorConfig {
            include_title: true,
            include_description: true,
            include_default: false,
            max_line_width: Some(80),
            existing_comments: ExistingCommentBehavior::Prepend,
        }
    }
}

impl AnnotatorConfig {
    /// The default configuration without descriptions.
    pub fn titles_only() -> (c: AnnotatorConfig)
        ensures
            c == (AnnotatorConfig {
                include_title: true,
                include_description: false,
                include_default: false,
                max_line_width: Some(80usize),
                existing_comments: ExistingCommentBehavior::Prepend,
            }),
    {
        AnnotatorConfig {
            include_title: true,
            include_description: false,
            include_default: false,
            max_line_width: Some(80),
            existing_comments: ExistingCommentBehavior::Prepend,
        }
    }

    /// The default configuration without titles.
    pub fn descriptions_only() -> (c: AnnotatorConfig)
        ensures
            c == (AnnotatorConfig {
                include_title: false,
                include_description: true,
                include_default: false,
                max_line_width: Some(80usize),
                existing_comments: ExistingCommentBehavior::Prepend,
            }),
    {
        AnnotatorConfig {
            include_title: false,
            include_description: true,
            include_default: false,
            max_line_width: Some(80),
            existing_comments: ExistingCommentBehavior::Prepend,
        }
    }

    /// Width left for the words of a description once the indentation and the
    /// two characters of the marker are taken off the configured width.
    pub open spec fn wrap_width(self, indent: nat) -> nat {
        let full: nat = match self.max_line_width {
            Some(w) => w as nat,
            None => 78,
        };
        if full >= indent + 2 {
            (full - indent - 2) as nat
        } else {
            0
        }
    }
}

/// The text `Default: ` followed by `value`.
pub open spec fn default_note(value: Seq<char>) -> Seq<char> {
    seq!['D', 'e', 'f', 'a', 'u', 'l', 't', ':', ' '] + value
}

/// A comment line: `indent` spaces, the marker, a space and `text`.
pub open spec fn comment_line(indent: nat, text: Seq<char>) -> Seq<char> {
    spaces(indent) + marked(text)
}

/// Every line of `lines` as a comment line at `indent`.
pub open spec fn comment_each(indent: nat, lines: Seq<Seq<char>>) -> Seq<Seq<char>> {
    Seq::new(lines.len(), |i: int| comment_line(indent, lines[i]))
}

/// The comment lines that `config` asks for from the record `a`, indented by
/// `indent` spaces: the title, the wrapped description, the default value.
pub open spec fn comment_lines(a: AnnotationView, config: AnnotatorConfig, indent: nat) -> Seq<
    Seq<char>,
> {
    let title_lines = if config.include_title && a.title is Some {
        seq![comment_line(indent, a.title->0)]
    } else {
        Seq::empty()
    };
    let description_lines = if config.include_description && a.description is Some {
        comment_each(indent, wrapped(a.description->0, config.wrap_width(indent)))
    } else {
        Seq::empty()
    };
    let default_lines = if config.include_default && a.default is Some {
        seq![comment_line(indent, default_note(a.default->0))]
    } else {
        Seq::empty()
    };
    title_lines + description_lines + default_lines
}

/// One comment line at `indent` that holds `text`.
fn make_comment_line(indent: usize, text: &str) -> (line: String)
    ensures
        line@ == comment_line(indent as nat, text@),
{
    let mut line = repeat_space(indent);
    proof {
        reveal_strlit("# ");
    }
    line.append("# ");
    line.append(text);
    assert(line@ =~= comment_line(indent as nat, text@));
    line
}

/// Renders `annotation` into comment lines under `config`, each indented by
/// `indent` spaces. The result is empty where nothing is to be emitted.
pub fn format_comment_lines(annotation: &Annotation, config: &AnnotatorConfig, indent: usize) -> (lines:
    Vec<String>)
    ensures
        views(lines@) == comment_lines(annotation@, *config, indent as nat),
{
    let mut lines: Vec<String> = Vec::new();
    if config.include_title {
        if let Some(title) = &annotation.title {
            lines.push(make_comment_line(indent, title.as_str()));
        }
    }
    let ghost title_lines = views(lines@);
    assert(title_lines =~= if config.include_title && annotation@.title is Some {
        seq![comment_line(indent as nat, annotation@.title->0)]
    } else {
        Seq::empty()
    });
    if config.include_description {
        if let Some(description) = &annotation.description {
            let full: usize = match config.max_line_width {
                Some(w) => w,
                None => 78,
            };
            let width: usize = if full >= indent && full - indent >= 2 {
                full - indent - 2
            } else {
                0
            };
            assert(width == config.wrap_width(indent as nat));
            let pieces = wrap_text(description.as_str(), width);
            let mut i: usize = 0;
            while i < pieces.len()
                invariant
                    i <= pieces.len(),
                    views(lines@) =~= title_lines + comment_each(
                        indent as nat,
                        views(pieces@).take(i as int),
                    ),
                decreases pieces.len() - i,
            {
                let ghost before = views(lines@);
                lines.push(make_comment_line(indent, pieces[i].as_str()));
                proof {
                    let done = views(pieces@).take(i as int);
                    let next = views(pieces@).take(i + 1);
                    let line = comment_line(indent as nat, pieces@[i as int]@);
                    assert(next =~= done.push(pieces@[i as int]@));
                    assert(comment_each(indent as nat, next) =~= comment_each(
                        indent as nat,
                        done,
                    ).push(line));
                    assert(views(lines@) =~= before.push(line));
                }
                i += 1;
            }
            assert(views(pieces@).take(pieces.len() as int) =~= views(pieces@));
        }
    }
    let ghost upper_lines = views(lines@);
    if config.include_default {
        if let Some(default) = &annotation.default {
            let mut note = String::new();
            proof {
                reveal_strlit("Default: ");
            }
            note.append("Default: ");
            note.append(default.as_str());
            assert(note@ =~= default_note(default@));
            lines.push(make_comment_line(indent, note.as_str()));
            assert(views(lines@) =~= upper_lines.push(comment_line(indent as nat, note@)));
        }
    }
    assert(views(lines@) =~= comment_lines(annotation@, *config, indent as nat));
    lines
}


/// A placement engine for one format.
pub trait Annotator {
    /// Whether `content` follows the grammar of the engine's format.
    spec fn accepts(&self, content: Seq<char>) -> bool;

    /// The text that the engine makes of `content` and the table.
    spec fn annotated(&self, content: Seq<char>, table: Map<Seq<char>, AnnotationView>) -> Seq<
        char,
    >;

    /// Places the annotations of the table in `content` as comments. A text
    /// that does not follow the grammar is refused as a parse error that
    /// carries the message of the parser; there is no partial output.
    fn annotate(&self, content: &str, annotations: &AnnotationMap) -> (r: Result<
        String,
        AnnotatorError,
    >)
        ensures
            match r {
                Ok(text) => self.accepts(content@) && text@ == self.annotated(
                    content@,
                    annotations@,
                ),
                Err(e) => !self.accepts(content@) && e.kind == AnnotatorErrorKind::Parse
                    && e.context@.len() == 0 && e.source is Some,
            },
    ;
}

} // verus!
