use jsonschema_annotator::{annotate, AnnotatorConfig, AnnotatorErrorKind, TargetFormat};
use schemars::Schema;

const SERVER_SCHEMA: &str = r#"{
    "properties": {
        "server": {
            "title": "Server",
            "description": "Server configuration",
            "properties": {
                "port": {
                    "title": "Port",
                    "description": "The port to listen on"
                }
            }
        }
    }
}"#;

#[test]
fn test_annotate_toml() {
    let schema: Schema = serde_json::from_str(SERVER_SCHEMA).unwrap();
    let config = "[server]\nport = 8080\n";

    let result = annotate(&schema, config, TargetFormat::Toml, AnnotatorConfig::default()).unwrap();
    assert_eq!(
        result,
        "# Server\n# Server configuration\n[server]\n# Port\n# The port to listen on\nport = 8080\n"
    );
}

#[test]
fn test_annotate_yaml() {
    let schema: Schema = serde_json::from_str(SERVER_SCHEMA).unwrap();
    let config = "server:\n  port: 8080\n";

    let result = annotate(&schema, config, TargetFormat::Yaml, AnnotatorConfig::default()).unwrap();
    assert_eq!(
        result,
        "# Server\n# Server configuration\nserver:\n  # Port\n  # The port to listen on\n  port: 8080\n"
    );
}

#[test]
fn test_annotate_with_refs() {
    let schema_json = r##"{
        "$defs": {
            "Port": {
                "title": "Port",
                "description": "A network port number"
            }
        },
        "properties": {
            "http_port": { "$ref": "#/$defs/Port" },
            "https_port": { "$ref": "#/$defs/Port" }
        }
    }"##;

    let schema: Schema = serde_json::from_str(schema_json).unwrap();
    let config = "http_port = 80\nhttps_port = 443\n";

    let result = annotate(&schema, config, TargetFormat::Toml, AnnotatorConfig::default()).unwrap();
    assert_eq!(
        result,
        "# Port\n# A network port number\nhttp_port = 80\n# Port\n# A network port number\nhttps_port = 443\n"
    );
}

#[test]
fn annotate_refuses_text_of_the_other_format() {
    let schema: Schema = serde_json::from_str(SERVER_SCHEMA).unwrap();
    let error = annotate(
        &schema,
        "server:\n  port: 8080\n",
        TargetFormat::Toml,
        AnnotatorConfig::default(),
    )
    .unwrap_err();
    assert_eq!(error.kind, AnnotatorErrorKind::Parse);
    assert_eq!(error.render(), "failed to parse target document");
}
