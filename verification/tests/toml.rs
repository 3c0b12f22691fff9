use jsonschema_annotator::annotator::toml::merge_prefix;
use jsonschema_annotator::{
    Annotation, AnnotationMap, Annotator, AnnotatorConfig, AnnotatorErrorKind,
    ExistingCommentBehavior, TomlAnnotator,
};

fn make_annotations(items: &[(&str, Option<&str>, Option<&str>)]) -> AnnotationMap {
    let mut map = AnnotationMap::new();
    for (path, title, desc) in items {
        let mut ann = Annotation::new(path);
        if let Some(t) = title {
            ann = ann.with_title(t);
        }
        if let Some(d) = desc {
            ann = ann.with_description(d);
        }
        map.insert(ann);
    }
    map
}

fn with_behavior(behavior: ExistingCommentBehavior) -> AnnotatorConfig {
    let mut config = AnnotatorConfig::default();
    config.existing_comments = behavior;
    config
}

#[test]
fn toml_test_simple_annotation() {
    let content = "port = 8080\n";
    let annotations = make_annotations(&[("port", Some("Port"), Some("Server port number"))]);

    let annotator = TomlAnnotator::new(AnnotatorConfig::default());
    let result = annotator.annotate(content, &annotations).unwrap();

    assert_eq!(result, "# Port\n# Server port number\nport = 8080\n");
}

#[test]
fn test_nested_table() {
    let content = "[server]\nport = 8080\nhost = \"localhost\"\n";
    let annotations = make_annotations(&[
        ("server", Some("Server Config"), None),
        ("server.port", Some("Port"), Some("The port to listen on")),
        ("server.host", Some("Host"), None),
    ]);

    let annotator = TomlAnnotator::new(AnnotatorConfig::default());
    let result = annotator.annotate(content, &annotations).unwrap();

    assert_eq!(
        result,
        "# Server Config\n[server]\n# Port\n# The port to listen on\nport = 8080\n# Host\nhost = \"localhost\"\n"
    );
}

#[test]
fn toml_test_title_only() {
    let content = "name = \"test\"\n";
    let annotations = make_annotations(&[("name", Some("Name"), Some("Full description"))]);

    let annotator = TomlAnnotator::new(AnnotatorConfig::titles_only());
    let result = annotator.annotate(content, &annotations).unwrap();

    assert_eq!(result, "# Name\nname = \"test\"\n");
}

#[test]
fn toml_test_description_only() {
    let content = "name = \"test\"\n";
    let annotations = make_annotations(&[("name", Some("Name"), Some("Full description"))]);

    let annotator = TomlAnnotator::new(AnnotatorConfig::descriptions_only());
    let result = annotator.annotate(content, &annotations).unwrap();

    assert_eq!(result, "# Full description\nname = \"test\"\n");
}

#[test]
fn toml_test_preserve_existing_comments() {
    let content = "# Existing comment\nport = 8080\n";
    let annotations = make_annotations(&[("port", Some("Port"), None)]);

    let annotator = TomlAnnotator::new(AnnotatorConfig::default());
    let result = annotator.annotate(content, &annotations).unwrap();

    assert_eq!(result, "# Port\n# Existing comment\nport = 8080\n");
}

#[test]
fn toml_test_no_matching_annotations() {
    let content = "name = \"test\"\nage = 30\n";
    let annotations = make_annotations(&[("other", Some("Other"), None)]);

    let annotator = TomlAnnotator::new(AnnotatorConfig::default());
    let result = annotator.annotate(content, &annotations).unwrap();

    assert_eq!(result, "name = \"test\"\nage = 30\n");
}

#[test]
fn toml_test_deeply_nested() {
    let content = "[database]\n[database.connection]\nhost = \"localhost\"\nport = 5432\n";
    let annotations = make_annotations(&[
        ("database", Some("Database"), None),
        ("database.connection", Some("Connection Settings"), None),
        ("database.connection.host", Some("Host"), Some("Database server hostname")),
        ("database.connection.port", Some("Port"), None),
    ]);

    let annotator = TomlAnnotator::new(AnnotatorConfig::default());
    let result = annotator.annotate(content, &annotations).unwrap();

    assert_eq!(
        result,
        "# Database\n[database]\n# Connection Settings\n[database.connection]\n# Host\n# Database server hostname\nhost = \"localhost\"\n# Port\nport = 5432\n"
    );
}

#[test]
fn test_long_description_wrapping() {
    let content = "name = \"test\"\n";
    let long_desc = "This is a very long description that should be wrapped across multiple lines when the max line width is set to a reasonable value";
    let annotations = make_annotations(&[("name", None, Some(long_desc))]);

    let mut config = AnnotatorConfig::default();
    config.max_line_width = Some(40);
    let annotator = TomlAnnotator::new(config);
    let result = annotator.annotate(content, &annotations).unwrap();

    let lines: Vec<&str> = result.lines().collect();
    assert!(lines.len() > 2);
    assert_eq!(lines[lines.len() - 1], "name = \"test\"");
    let mut words: Vec<&str> = Vec::new();
    for line in &lines[..lines.len() - 1] {
        assert!(line.starts_with("# "));
        assert!(line.len() <= 40);
        words.extend(line[2..].split(' '));
    }
    assert_eq!(words.join(" "), long_desc);
    assert_eq!(
        result,
        "# This is a very long description that\n# should be wrapped across multiple\n# lines when the max line width is set\n# to a reasonable value\nname = \"test\"\n"
    );
}

#[test]
fn toml_test_skip_existing_comments() {
    let content = "# Existing comment\nport = 8080\nhost = \"localhost\"\n";
    let annotations =
        make_annotations(&[("port", Some("Port"), None), ("host", Some("Host"), None)]);

    let annotator = TomlAnnotator::new(with_behavior(ExistingCommentBehavior::Skip));
    let result = annotator.annotate(content, &annotations).unwrap();

    assert_eq!(result, "# Existing comment\nport = 8080\n# Host\nhost = \"localhost\"\n");
}

#[test]
fn toml_test_append_to_existing_comments() {
    let content = "# Existing comment\nport = 8080\n";
    let annotations = make_annotations(&[("port", Some("Port"), None)]);

    let annotator = TomlAnnotator::new(with_behavior(ExistingCommentBehavior::Append));
    let result = annotator.annotate(content, &annotations).unwrap();

    assert_eq!(result, "# Existing comment\n# Port\nport = 8080\n");
}

#[test]
fn toml_test_replace_existing_comments() {
    let content = "# Existing comment\nport = 8080\n";
    let annotations = make_annotations(&[("port", Some("Port"), None)]);

    let annotator = TomlAnnotator::new(with_behavior(ExistingCommentBehavior::Replace));
    let result = annotator.annotate(content, &annotations).unwrap();

    assert_eq!(result, "# Port\nport = 8080\n");
}

#[test]
fn test_include_default_value() {
    let content = "port = 8080\n";

    let mut map = AnnotationMap::new();
    map.insert(
        Annotation::new("port")
            .with_title("Port")
            .with_description("The port number")
            .with_default("3000"),
    );

    let mut config = AnnotatorConfig::default();
    config.include_default = true;
    let annotator = TomlAnnotator::new(config);
    let result = annotator.annotate(content, &map).unwrap();

    assert_eq!(result, "# Port\n# The port number\n# Default: 3000\nport = 8080\n");
}

#[test]
fn test_default_value_disabled_by_default() {
    let content = "port = 8080\n";

    let mut map = AnnotationMap::new();
    map.insert(Annotation::new("port").with_title("Port").with_default("3000"));

    let annotator = TomlAnnotator::new(AnnotatorConfig::default());
    let result = annotator.annotate(content, &map).unwrap();

    assert_eq!(result, "# Port\nport = 8080\n");
}

#[test]
fn toml_inline_tables_are_left_alone() {
    let content = "server = { port = 8080 }\n";
    let annotations = make_annotations(&[
        ("server", Some("Server"), None),
        ("server.port", Some("Port"), None),
    ]);
    let annotator = TomlAnnotator::new(AnnotatorConfig::default());
    let result = annotator.annotate(content, &annotations).unwrap();
    assert_eq!(result, content);
}

#[test]
fn toml_empty_table_round_trips() {
    let annotator = TomlAnnotator::new(AnnotatorConfig::default());
    let table = AnnotationMap::new();
    for content in [
        "port = 8080\n",
        "# c\n[a]\nb = 1 # trailing\n\n[a.c]\nd = [1, 2]\n",
        "",
        "a.b = 1\n",
    ] {
        assert_eq!(annotator.annotate(content, &table).unwrap(), content);
    }
}

#[test]
fn toml_second_run_with_skip_changes_nothing() {
    let content = "# Existing comment\nport = 8080\n[server]\nhost = \"localhost\"\n";
    let annotations = make_annotations(&[
        ("port", Some("Port"), Some("The port")),
        ("server", Some("Server"), None),
        ("server.host", Some("Host"), None),
    ]);
    let first = TomlAnnotator::new(AnnotatorConfig::default())
        .annotate(content, &annotations)
        .unwrap();
    let second = TomlAnnotator::new(with_behavior(ExistingCommentBehavior::Skip))
        .annotate(&first, &annotations)
        .unwrap();
    assert_eq!(second, first);
}

#[test]
fn toml_invalid_text_is_a_parse_error() {
    let annotator = TomlAnnotator::new(AnnotatorConfig::default());
    let table = AnnotationMap::new();
    let error = annotator.annotate("port = = 1\n", &table).unwrap_err();
    assert_eq!(error.kind, AnnotatorErrorKind::Parse);
    assert!(error.source.is_some());
    assert!(error.context.is_empty());
}

#[test]
fn toml_table_header_comments_follow_the_policy() {
    let content = "# About the server\n[server]\nport = 8080\n";
    let annotations = make_annotations(&[("server", Some("Server"), None)]);
    let run = |behavior| {
        TomlAnnotator::new(with_behavior(behavior)).annotate(content, &annotations).unwrap()
    };
    assert_eq!(run(ExistingCommentBehavior::Skip), content);
    assert_eq!(
        run(ExistingCommentBehavior::Prepend),
        "# Server\n# About the server\n[server]\nport = 8080\n"
    );
    assert_eq!(
        run(ExistingCommentBehavior::Append),
        "# About the server\n# Server\n[server]\nport = 8080\n"
    );
    assert_eq!(run(ExistingCommentBehavior::Replace), "# Server\n[server]\nport = 8080\n");
}

#[test]
fn toml_blank_lines_are_no_comment() {
    let content = "a = 1\n\n[server]\nport = 8080\n";
    let annotations = make_annotations(&[("server", Some("Server"), None)]);
    let result = TomlAnnotator::new(with_behavior(ExistingCommentBehavior::Skip))
        .annotate(content, &annotations)
        .unwrap();
    assert_eq!(result, "a = 1\n# Server\n[server]\nport = 8080\n");
}

#[test]
fn toml_tables_in_arrays_are_not_entered() {
    let content = "[[servers]]\nname = \"a\"\n";
    let annotations = make_annotations(&[("servers.name", Some("Name"), None)]);
    let result =
        TomlAnnotator::new(AnnotatorConfig::default()).annotate(content, &annotations).unwrap();
    assert_eq!(result, content);
}

#[test]
fn merge_policies_on_one_decoration() {
    let existing = "# Existing comment\n";
    let comment = "# Port\n";
    assert_eq!(merge_prefix(existing, comment, ExistingCommentBehavior::Skip), None);
    assert_eq!(
        merge_prefix(existing, comment, ExistingCommentBehavior::Prepend),
        Some("# Port\n# Existing comment\n".to_string())
    );
    assert_eq!(
        merge_prefix(existing, comment, ExistingCommentBehavior::Append),
        Some("# Existing comment\n# Port\n".to_string())
    );
    assert_eq!(
        merge_prefix(existing, comment, ExistingCommentBehavior::Replace),
        Some("# Port\n".to_string())
    );
    for behavior in [
        ExistingCommentBehavior::Skip,
        ExistingCommentBehavior::Prepend,
        ExistingCommentBehavior::Append,
        ExistingCommentBehavior::Replace,
    ] {
        assert_eq!(merge_prefix("", comment, behavior), Some(comment.to_string()));
        assert_eq!(merge_prefix("\n  \n", comment, behavior), Some(comment.to_string()));
    }
    assert_eq!(merge_prefix("\n  # c\n", comment, ExistingCommentBehavior::Skip), None);
    let written =
        merge_prefix(existing, comment, ExistingCommentBehavior::Append).unwrap();
    assert_eq!(merge_prefix(&written, comment, ExistingCommentBehavior::Skip), None);
}
