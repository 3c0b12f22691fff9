use jsonschema_annotator::{
    AnnotatorError, AnnotatorErrorKind, Error, ResultExt, SchemaError, SchemaErrorKind,
};

#[test]
fn error_text_lists_context_most_recent_first() {
    let error: AnnotatorError = Error::new(AnnotatorErrorKind::Io);
    assert_eq!(error.render(), "I/O error");
    let error = error.add_context("reading file").add_context("loading config");
    assert_eq!(error.render(), "I/O error context: [loading config, reading file]");
    assert_eq!(error.context, vec!["reading file".to_string(), "loading config".to_string()]);
}

#[test]
fn error_kinds_have_their_texts() {
    let texts = [
        (SchemaErrorKind::Io, "I/O error"),
        (SchemaErrorKind::ValueParse, "failed to parse value"),
        (SchemaErrorKind::InvalidSchema, "invalid schema"),
        (SchemaErrorKind::RefResolution, "failed to resolve $ref"),
    ];
    for (kind, text) in texts {
        let error: SchemaError = Error::new(kind);
        assert_eq!(error.render(), text);
    }
    let parse: AnnotatorError = AnnotatorErrorKind::Parse.into();
    assert_eq!(parse.render(), "failed to parse target document");
    assert!(parse.context.is_empty());
    assert!(parse.source.is_none());
}

#[test]
fn map_kind_keeps_context_and_source() {
    let error: SchemaError = Error::new(SchemaErrorKind::Io)
        .add_context("outer")
        .with_source("disk on fire");
    let mapped: AnnotatorError = error.map_kind(|_| AnnotatorErrorKind::Io);
    assert_eq!(mapped.kind, AnnotatorErrorKind::Io);
    assert_eq!(mapped.context, vec!["outer".to_string()]);
    assert_eq!(mapped.source, Some("disk on fire".to_string()));
    let boxed = mapped.with_boxed_source(Box::new("other".to_string()));
    assert_eq!(boxed.source, Some("other".to_string()));
}

#[test]
fn result_context_touches_errors_only() {
    let ok: Result<u8, AnnotatorError> = Ok(7);
    assert_eq!(ok.add_context("unused").unwrap(), 7);
    let ok: Result<u8, AnnotatorError> = Ok(7);
    assert_eq!(ok.add_context_fn(|| panic!("not called")).unwrap(), 7);

    let failed: Result<u8, AnnotatorError> = Err(Error::new(AnnotatorErrorKind::Parse));
    let error = failed.add_context("first").add_context_fn(|| "second".to_string()).unwrap_err();
    assert_eq!(error.render(), "failed to parse target document context: [second, first]");
}
