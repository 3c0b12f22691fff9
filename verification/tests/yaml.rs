use jsonschema_annotator::{
    Annotation, AnnotationMap, Annotator, AnnotatorConfig, AnnotatorErrorKind,
    ExistingCommentBehavior, YamlAnnotator,
};

fn make_annotations(items: &[(&str, Option<&str>, Option<&str>)]) -> AnnotationMap {
    let mut map = AnnotationMap::new();
    for (path, title, desc) in items {
        let mut ann = Annotation::new(path);
        if let Some(t) = title {
            ann = ann.with_title(t);
        }
        if let Some(d) = desc {
            ann = ann.with_description(d);
        }
        map.insert(ann);
    }
    map
}

#[test]
fn yaml_test_simple_annotation() {
    let content = "port: 8080\n";
    let annotations = make_annotations(&[("port", Some("Port"), Some("Server port number"))]);

    let annotator = YamlAnnotator::new(AnnotatorConfig::default());
    let result = annotator.annotate(content, &annotations).unwrap();

    assert_eq!(result, "# Port\n# Server port number\nport: 8080\n");
}

#[test]
fn test_nested_mapping() {
    let content = "server:\n  port: 8080\n  host: localhost\n";
    let annotations = make_annotations(&[
        ("server", Some("Server Config"), None),
        ("server.port", Some("Port"), Some("The port to listen on")),
        ("server.host", Some("Host"), None),
    ]);

    let annotator = YamlAnnotator::new(AnnotatorConfig::default());
    let result = annotator.annotate(content, &annotations).unwrap();

    assert_eq!(
        result,
        "# Server Config\nserver:\n  # Port\n  # The port to listen on\n  port: 8080\n  # Host\n  host: localhost\n"
    );
}

#[test]
fn yaml_test_title_only() {
    let content = "name: test\n";
    let annotations = make_annotations(&[("name", Some("Name"), Some("Full description"))]);

    let annotator = YamlAnnotator::new(AnnotatorConfig::titles_only());
    let result = annotator.annotate(content, &annotations).unwrap();

    assert_eq!(result, "# Name\nname: test\n");
}

#[test]
fn yaml_test_description_only() {
    let content = "name: test\n";
    let annotations = make_annotations(&[("name", Some("Name"), Some("Full description"))]);

    let annotator = YamlAnnotator::new(AnnotatorConfig::descriptions_only());
    let result = annotator.annotate(content, &annotations).unwrap();

    assert_eq!(result, "# Full description\nname: test\n");
}

#[test]
fn yaml_test_preserve_existing_comments() {
    let content = "# Existing comment\nport: 8080\n";
    let annotations = make_annotations(&[("port", Some("Port"), None)]);

    let annotator = YamlAnnotator::new(AnnotatorConfig::default());
    let result = annotator.annotate(content, &annotations).unwrap();

    assert_eq!(result, "# Existing comment\n# Port\nport: 8080\n");
}

#[test]
fn yaml_test_no_matching_annotations() {
    let content = "name: test\nage: 30\n";
    let annotations = make_annotations(&[("other", Some("Other"), None)]);

    let annotator = YamlAnnotator::new(AnnotatorConfig::default());
    let result = annotator.annotate(content, &annotations).unwrap();

    assert_eq!(result, "name: test\nage: 30\n");
}

#[test]
fn yaml_test_deeply_nested() {
    let content = "database:\n  connection:\n    host: localhost\n    port: 5432\n";
    let annotations = make_annotations(&[
        ("database", Some("Database"), None),
        ("database.connection", Some("Connection Settings"), None),
        ("database.connection.host", Some("Host"), Some("Database server hostname")),
        ("database.connection.port", Some("Port"), None),
    ]);

    let annotator = YamlAnnotator::new(AnnotatorConfig::default());
    let result = annotator.annotate(content, &annotations).unwrap();

    assert_eq!(
        result,
        "# Database\ndatabase:\n  # Connection Settings\n  connection:\n    # Host\n    # Database server hostname\n    host: localhost\n    # Port\n    port: 5432\n"
    );
}

#[test]
fn test_inline_values() {
    let content = "server:\n  host: localhost\n  port: 8080\n  enabled: true\n";
    let annotations = make_annotations(&[
        ("server.host", Some("Hostname"), None),
        ("server.port", Some("Port Number"), None),
        ("server.enabled", Some("Enabled"), Some("Whether the server is enabled")),
    ]);

    let annotator = YamlAnnotator::new(AnnotatorConfig::default());
    let result = annotator.annotate(content, &annotations).unwrap();

    assert_eq!(
        result,
        "server:\n  # Hostname\n  host: localhost\n  # Port Number\n  port: 8080\n  # Enabled\n  # Whether the server is enabled\n  enabled: true\n"
    );
}

#[test]
fn yaml_test_skip_existing_comments() {
    let content = "# Existing comment\nport: 8080\nhost: localhost\n";
    let annotations =
        make_annotations(&[("port", Some("Port"), None), ("host", Some("Host"), None)]);

    let mut config = AnnotatorConfig::default();
    config.existing_comments = ExistingCommentBehavior::Skip;
    let annotator = YamlAnnotator::new(config);
    let result = annotator.annotate(content, &annotations).unwrap();

    assert_eq!(result, "# Existing comment\nport: 8080\n# Host\nhost: localhost\n");
}

#[test]
fn yaml_test_append_to_existing_comments() {
    let content = "# Existing comment\nport: 8080\n";
    let annotations = make_annotations(&[("port", Some("Port"), None)]);

    let mut config = AnnotatorConfig::default();
    config.existing_comments = ExistingCommentBehavior::Append;
    let annotator = YamlAnnotator::new(config);
    let result = annotator.annotate(content, &annotations).unwrap();

    assert_eq!(result, "# Existing comment\n# Port\nport: 8080\n");
}

#[test]
fn yaml_test_replace_existing_comments() {
    let content = "# Existing comment\nport: 8080\n";
    let annotations = make_annotations(&[("port", Some("Port"), None)]);

    let mut config = AnnotatorConfig::default();
    config.existing_comments = ExistingCommentBehavior::Replace;
    let annotator = YamlAnnotator::new(config);
    let result = annotator.annotate(content, &annotations).unwrap();

    assert_eq!(result, "# Port\nport: 8080\n");
}

#[test]
fn yaml_replace_takes_the_whole_comment_run() {
    let content = "a: 1\n# one\n  # two\n# three\nport: 8080\n";
    let annotations = make_annotations(&[("port", Some("Port"), None)]);

    let mut config = AnnotatorConfig::default();
    config.existing_comments = ExistingCommentBehavior::Replace;
    let annotator = YamlAnnotator::new(config);
    let result = annotator.annotate(content, &annotations).unwrap();

    assert_eq!(result, "a: 1\n# Port\nport: 8080\n");
}

#[test]
fn yaml_comment_at_other_indentation_is_not_existing() {
    let content = "server:\n# note\n  port: 8080\n";
    let annotations = make_annotations(&[("server.port", Some("Port"), None)]);

    let mut config = AnnotatorConfig::default();
    config.existing_comments = ExistingCommentBehavior::Skip;
    let annotator = YamlAnnotator::new(config);
    let result = annotator.annotate(content, &annotations).unwrap();

    assert_eq!(result, "server:\n# note\n  # Port\n  port: 8080\n");
}

#[test]
fn yaml_indentation_scoping() {
    let content = "server:\n  port: 8080\n";
    let annotations = make_annotations(&[
        ("server", Some("Server"), None),
        ("server.port", Some("Port"), None),
    ]);
    let annotator = YamlAnnotator::new(AnnotatorConfig::default());
    let result = annotator.annotate(content, &annotations).unwrap();
    assert_eq!(result, "# Server\nserver:\n  # Port\n  port: 8080\n");
}

#[test]
fn yaml_empty_table_returns_input() {
    let annotator = YamlAnnotator::new(AnnotatorConfig::default());
    let table = AnnotationMap::new();
    for content in ["a: 1\nb:\n  c: 2\n", "a: 1", "", "a: 1\n\n", "# only\n"] {
        assert_eq!(annotator.annotate(content, &table).unwrap(), content);
    }
}

#[test]
fn yaml_second_run_with_skip_changes_nothing() {
    let content = "# Existing comment\nport: 8080\nserver:\n  host: localhost\n";
    let annotations = make_annotations(&[
        ("port", Some("Port"), Some("The port")),
        ("server", Some("Server"), None),
        ("server.host", Some("Host"), None),
    ]);
    let first = YamlAnnotator::new(AnnotatorConfig::default())
        .annotate(content, &annotations)
        .unwrap();
    let mut config = AnnotatorConfig::default();
    config.existing_comments = ExistingCommentBehavior::Skip;
    let second = YamlAnnotator::new(config).annotate(&first, &annotations).unwrap();
    assert_eq!(second, first);
}

#[test]
fn yaml_sequence_items_are_not_targets() {
    let content = "items:\n  - name: a\n  - name: b\n";
    let annotations = make_annotations(&[
        ("items", Some("Items"), None),
        ("items.name", Some("Name"), None),
    ]);
    let annotator = YamlAnnotator::new(AnnotatorConfig::default());
    let result = annotator.annotate(content, &annotations).unwrap();
    assert_eq!(result, "# Items\nitems:\n  - name: a\n  - name: b\n");
}

#[test]
fn yaml_scope_closes_at_same_indentation() {
    let content = "a:\n  b: 1\nc: 2\n";
    let annotator = YamlAnnotator::new(AnnotatorConfig::default());
    let targets = annotator.build_line_path_map(content);
    assert_eq!(
        targets,
        vec![
            (0, "a".to_string(), 0, false),
            (1, "a.b".to_string(), 2, false),
            (2, "c".to_string(), 0, false),
        ]
    );
}

#[test]
fn yaml_invalid_text_is_a_parse_error() {
    let annotator = YamlAnnotator::new(AnnotatorConfig::default());
    let table = AnnotationMap::new();
    let error = annotator.annotate("a: [1, 2\n", &table).unwrap_err();
    assert_eq!(error.kind, AnnotatorErrorKind::Parse);
    assert!(error.source.is_some());
    assert!(error.context.is_empty());
}

#[test]
fn yaml_default_value_line() {
    let mut map = AnnotationMap::new();
    map.insert(Annotation::new("port").with_title("Port").with_default("3000"));
    let mut config = AnnotatorConfig::default();
    config.include_default = true;
    let result = YamlAnnotator::new(config).annotate("port: 8080\n", &map).unwrap();
    assert_eq!(result, "# Port\n# Default: 3000\nport: 8080\n");
}

#[test]
fn yaml_line_endings_become_line_feeds() {
    let annotator = YamlAnnotator::new(AnnotatorConfig::default());
    let table = AnnotationMap::new();
    assert_eq!(annotator.annotate("a: 1\r\nb: 2\r\n", &table).unwrap(), "a: 1\nb: 2\n");
}

#[test]
fn yaml_prepend_goes_between_a_long_comment_and_its_key() {
    let content = "# one\n# two\nport: 8080\n";
    let annotations = make_annotations(&[("port", Some("Port"), None)]);
    let annotator = YamlAnnotator::new(AnnotatorConfig::default());
    let result = annotator.annotate(content, &annotations).unwrap();
    assert_eq!(result, "# one\n# two\n# Port\nport: 8080\n");
}
