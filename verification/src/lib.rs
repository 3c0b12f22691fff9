//! Schema documentation as comments in TOML and YAML documents.
//!
//! A schema is flattened into a table of annotations, one per dotted path,
//! and a placement engine for the target's format writes them into the
//! target text as comments.

pub mod annotator;
pub mod error;
pub mod format;
pub mod schema;
pub mod text;
pub mod wrap;

pub use annotator::toml::TomlAnnotator;
pub use annotator::yaml::YamlAnnotator;
pub use annotator::{Annotator, AnnotatorConfig, ExistingCommentBehavior};
pub use error::{AnnotatorError, AnnotatorErrorKind, Error, ResultExt, SchemaError, SchemaErrorKind};
pub use format::TargetFormat;
pub use schema::annotation::{Annotation, AnnotationMap};
pub use schema::parser::extract_annotations;
pub use schema::refs::resolve_refs;
pub use schema::value::SchemaValue;

use vstd::prelude::*;
use schema::annotation::AnnotationView;
use schema::json::schema_model;
use schema::parser::annotations_of;

verus! {

/// Whether `content` follows the grammar of `format`.
pub open spec fn accepted(content: Seq<char>, format: TargetFormat, config: AnnotatorConfig) -> bool {
    match format {
        TargetFormat::Toml => (TomlAnnotator { config }).accepts(content),
        TargetFormat::Yaml => (YamlAnnotator { config }).accepts(content),
    }
}

/// The text that the engine for `format` makes of `content` and the table.
pub open spec fn annotated_with(
    content: Seq<char>,
    format: TargetFormat,
    table: Map<Seq<char>, AnnotationView>,
    config: AnnotatorConfig,
) -> Seq<char> {
    match format {
        TargetFormat::Toml => (TomlAnnotator { config }).annotated(content, table),
        TargetFormat::Yaml => (YamlAnnotator { config }).annotated(content, table),
    }
}

/// Annotates the target document with the documentation of the schema:
/// the schema's titles, descriptions and default values become comments
/// above the keys of `target` that they belong to. A target that does not
/// follow the grammar of `target_format` is refused as a parse error.
pub fn annotate(
    schema: &schemars::Schema,
    target: &str,
    target_format: TargetFormat,
    config: AnnotatorConfig,
) -> (r: Result<String, AnnotatorError>)
    ensures
        match r {
            Ok(text) => accepted(target@, target_format, config) && text@ == annotated_with(
                target@,
                target_format,
                annotations_of(schema_model(*schema)),
                config,
            ),
            Err(e) => !accepted(target@, target_format, config) && e.kind
                == AnnotatorErrorKind::Parse && e.context@.len() == 0 && e.source is Some,
        },
{
    let annotations = extract_annotations(schema);
    match target_format {
        TargetFormat::Toml => {
            let annotator = TomlAnnotator::new(config);
            annotator.annotate(target, &annotations)
        },
        TargetFormat::Yaml => {
            let annotator = YamlAnnotator::new(config);
            annotator.annotate(target, &annotations)
        },
    }
}

} // verus!
