use jsonschema_annotator::{extract_annotations, resolve_refs, SchemaValue};
use schemars::Schema;

fn schema(text: &str) -> Schema {
    serde_json::from_str(text).unwrap()
}

fn at<'a>(value: &'a SchemaValue, keys: &[&str]) -> &'a SchemaValue {
    let mut current = value;
    for key in keys {
        current = current.get(key).unwrap();
    }
    current
}

#[test]
fn test_resolve_refs_simple() {
    let schema = schema(
        r##"{
            "$defs": {
                "Name": {
                    "type": "string",
                    "title": "Name",
                    "description": "A person's name"
                }
            },
            "properties": {
                "firstName": {"$ref": "#/$defs/Name"},
                "lastName": {"$ref": "#/$defs/Name"}
            }
        }"##,
    );
    let resolved = resolve_refs(&schema);

    let first_name = at(&resolved, &["properties", "firstName"]);
    assert_eq!(at(first_name, &["type"]).as_str(), Some("string"));
    assert_eq!(at(first_name, &["title"]).as_str(), Some("Name"));

    let last_name = at(&resolved, &["properties", "lastName"]);
    assert_eq!(at(last_name, &["type"]).as_str(), Some("string"));
    assert_eq!(at(last_name, &["title"]).as_str(), Some("Name"));
}

#[test]
fn test_resolve_refs_nested() {
    let schema = schema(
        r##"{
            "$defs": {
                "Address": {
                    "type": "object",
                    "title": "Address",
                    "properties": {
                        "city": {"type": "string"}
                    }
                }
            },
            "properties": {
                "home": {"$ref": "#/$defs/Address"},
                "work": {"$ref": "#/$defs/Address"}
            }
        }"##,
    );
    let resolved = resolve_refs(&schema);

    let home = at(&resolved, &["properties", "home"]);
    assert_eq!(at(home, &["type"]).as_str(), Some("object"));
    assert_eq!(at(home, &["title"]).as_str(), Some("Address"));
    assert_eq!(at(home, &["properties", "city", "type"]).as_str(), Some("string"));
}

#[test]
fn test_resolve_refs_external_ignored() {
    let schema = schema(
        r##"{
            "properties": {
                "external": {"$ref": "http://example.com/schema.json"}
            }
        }"##,
    );
    let resolved = resolve_refs(&schema);

    assert_eq!(
        at(&resolved, &["properties", "external", "$ref"]).as_str(),
        Some("http://example.com/schema.json")
    );
}

#[test]
fn test_resolve_refs_not_found() {
    let schema = schema(
        r##"{
            "properties": {
                "missing": {"$ref": "#/$defs/DoesNotExist"}
            }
        }"##,
    );
    let resolved = resolve_refs(&schema);

    assert_eq!(
        at(&resolved, &["properties", "missing", "$ref"]).as_str(),
        Some("#/$defs/DoesNotExist")
    );
}

#[test]
fn resolved_target_is_not_resolved_again() {
    let schema = schema(
        r##"{
            "$defs": {
                "A": {"title": "A", "properties": {"b": {"$ref": "#/$defs/B"}}},
                "B": {"title": "B"}
            },
            "properties": {"a": {"$ref": "#/$defs/A"}}
        }"##,
    );
    let resolved = resolve_refs(&schema);
    assert_eq!(
        at(&resolved, &["properties", "a", "properties", "b", "$ref"]).as_str(),
        Some("#/$defs/B")
    );
    assert_eq!(at(&resolved, &["$defs", "A", "properties", "b", "title"]).as_str(), Some("B"));
}

#[test]
fn pointer_is_percent_decoded() {
    let schema = schema(
        r##"{
            "$defs": {"a b": {"title": "Spaced"}},
            "properties": {"x": {"$ref": "#/$defs/a%20b"}}
        }"##,
    );
    let annotations = extract_annotations(&schema);
    assert_eq!(annotations.get("x").unwrap().title, Some("Spaced".to_string()));
}

#[test]
fn unresolved_references_give_no_annotation() {
    let schema = schema(
        r##"{
            "properties": {
                "external": {"$ref": "http://example.com/x"},
                "missing": {"$ref": "#/$defs/DoesNotExist"}
            }
        }"##,
    );
    let resolved = resolve_refs(&schema);
    assert_eq!(resolved, jsonschema_annotator::schema::json::schema_tree(&schema));
    let annotations = extract_annotations(&schema);
    assert!(annotations.is_empty());
}

#[test]
fn test_extract_simple() {
    let schema = schema(
        r#"{
            "properties": {
                "name": {
                    "title": "Name",
                    "description": "User's full name"
                },
                "age": {
                    "title": "Age"
                }
            }
        }"#,
    );
    let annotations = extract_annotations(&schema);

    assert_eq!(annotations.len(), 2);

    let name = annotations.get("name").unwrap();
    assert_eq!(name.title, Some("Name".to_string()));
    assert_eq!(name.description, Some("User's full name".to_string()));

    let age = annotations.get("age").unwrap();
    assert_eq!(age.title, Some("Age".to_string()));
    assert_eq!(age.description, None);
}

#[test]
fn test_extract_nested() {
    let schema = schema(
        r#"{
            "properties": {
                "server": {
                    "title": "Server",
                    "description": "Server configuration",
                    "properties": {
                        "host": {
                            "title": "Host",
                            "description": "Server hostname"
                        },
                        "port": {
                            "title": "Port"
                        }
                    }
                }
            }
        }"#,
    );
    let annotations = extract_annotations(&schema);

    assert_eq!(annotations.len(), 3);

    let server = annotations.get("server").unwrap();
    assert_eq!(server.title, Some("Server".to_string()));

    let host = annotations.get("server.host").unwrap();
    assert_eq!(host.title, Some("Host".to_string()));
    assert_eq!(host.description, Some("Server hostname".to_string()));

    let port = annotations.get("server.port").unwrap();
    assert_eq!(port.title, Some("Port".to_string()));
}

#[test]
fn test_extract_with_refs() {
    let schema = schema(
        r##"{
            "$defs": {
                "Address": {
                    "title": "Address",
                    "description": "A physical address",
                    "properties": {
                        "city": {
                            "title": "City"
                        }
                    }
                }
            },
            "properties": {
                "home": {"$ref": "#/$defs/Address"},
                "work": {"$ref": "#/$defs/Address"}
            }
        }"##,
    );
    let annotations = extract_annotations(&schema);

    let home = annotations.get("home").unwrap();
    assert_eq!(home.title, Some("Address".to_string()));

    let home_city = annotations.get("home.city").unwrap();
    assert_eq!(home_city.title, Some("City".to_string()));

    let work = annotations.get("work").unwrap();
    assert_eq!(work.title, Some("Address".to_string()));
}

#[test]
fn test_extract_root_annotation() {
    let schema = schema(
        r#"{
            "title": "Config",
            "description": "Application configuration",
            "properties": {
                "debug": {
                    "title": "Debug Mode"
                }
            }
        }"#,
    );
    let annotations = extract_annotations(&schema);

    let root = annotations.get("").unwrap();
    assert_eq!(root.title, Some("Config".to_string()));
    assert_eq!(root.description, Some("Application configuration".to_string()));

    let debug = annotations.get("debug").unwrap();
    assert_eq!(debug.title, Some("Debug Mode".to_string()));
}

#[test]
fn test_extract_no_annotations() {
    let schema = schema(
        r#"{
            "properties": {
                "name": {"type": "string"},
                "age": {"type": "number"}
            }
        }"#,
    );
    let annotations = extract_annotations(&schema);

    assert!(annotations.is_empty());
}

#[test]
fn test_extract_array_items() {
    let schema = schema(
        r#"{
            "properties": {
                "users": {
                    "title": "Users",
                    "description": "List of users",
                    "items": {
                        "properties": {
                            "name": {
                                "title": "User Name"
                            }
                        }
                    }
                }
            }
        }"#,
    );
    let annotations = extract_annotations(&schema);

    let users = annotations.get("users").unwrap();
    assert_eq!(users.title, Some("Users".to_string()));

    let user_name = annotations.get("users.name").unwrap();
    assert_eq!(user_name.title, Some("User Name".to_string()));
}

#[test]
fn test_extract_oneof() {
    let schema = schema(
        r#"{
            "properties": {
                "value": {
                    "title": "Value",
                    "oneOf": [
                        {
                            "properties": {
                                "string_val": {
                                    "title": "String Value",
                                    "description": "A string value"
                                }
                            }
                        },
                        {
                            "properties": {
                                "number_val": {
                                    "title": "Number Value"
                                }
                            }
                        }
                    ]
                }
            }
        }"#,
    );
    let annotations = extract_annotations(&schema);

    let value = annotations.get("value").unwrap();
    assert_eq!(value.title, Some("Value".to_string()));

    let string_val = annotations.get("value.string_val").unwrap();
    assert_eq!(string_val.title, Some("String Value".to_string()));
    assert_eq!(string_val.description, Some("A string value".to_string()));

    let number_val = annotations.get("value.number_val").unwrap();
    assert_eq!(number_val.title, Some("Number Value".to_string()));
}

#[test]
fn test_extract_allof() {
    let schema = schema(
        r#"{
            "allOf": [
                {
                    "properties": {
                        "base": {
                            "title": "Base Property"
                        }
                    }
                },
                {
                    "properties": {
                        "extended": {
                            "title": "Extended Property"
                        }
                    }
                }
            ]
        }"#,
    );
    let annotations = extract_annotations(&schema);

    let base = annotations.get("base").unwrap();
    assert_eq!(base.title, Some("Base Property".to_string()));

    let extended = annotations.get("extended").unwrap();
    assert_eq!(extended.title, Some("Extended Property".to_string()));
}

#[test]
fn test_extract_anyof() {
    let schema = schema(
        r#"{
            "properties": {
                "config": {
                    "title": "Config",
                    "anyOf": [
                        {
                            "properties": {
                                "simple": {
                                    "title": "Simple Mode"
                                }
                            }
                        },
                        {
                            "properties": {
                                "advanced": {
                                    "title": "Advanced Mode",
                                    "description": "For power users"
                                }
                            }
                        }
                    ]
                }
            }
        }"#,
    );
    let annotations = extract_annotations(&schema);

    let config = annotations.get("config").unwrap();
    assert_eq!(config.title, Some("Config".to_string()));

    let simple = annotations.get("config.simple").unwrap();
    assert_eq!(simple.title, Some("Simple Mode".to_string()));

    let advanced = annotations.get("config.advanced").unwrap();
    assert_eq!(advanced.title, Some("Advanced Mode".to_string()));
    assert_eq!(advanced.description, Some("For power users".to_string()));
}

#[test]
fn test_extract_default_values() {
    let schema = schema(
        r#"{
            "properties": {
                "port": {
                    "title": "Port",
                    "description": "The port number",
                    "default": 8080
                },
                "host": {
                    "title": "Host",
                    "default": "localhost"
                },
                "enabled": {
                    "title": "Enabled",
                    "default": true
                },
                "tags": {
                    "title": "Tags",
                    "default": ["web", "api"]
                }
            }
        }"#,
    );
    let annotations = extract_annotations(&schema);

    let port = annotations.get("port").unwrap();
    assert_eq!(port.title, Some("Port".to_string()));
    assert_eq!(port.default, Some("8080".to_string()));

    let host = annotations.get("host").unwrap();
    assert_eq!(host.default, Some("\"localhost\"".to_string()));

    let enabled = annotations.get("enabled").unwrap();
    assert_eq!(enabled.default, Some("true".to_string()));

    let tags = annotations.get("tags").unwrap();
    assert_eq!(tags.default, Some("[\"web\", \"api\"]".to_string()));
}

#[test]
fn test_extract_only_default() {
    let schema = schema(
        r#"{
            "properties": {
                "timeout": {
                    "default": 30
                }
            }
        }"#,
    );
    let annotations = extract_annotations(&schema);

    let timeout = annotations.get("timeout").unwrap();
    assert_eq!(timeout.title, None);
    assert_eq!(timeout.description, None);
    assert_eq!(timeout.default, Some("30".to_string()));
}

#[test]
fn default_values_of_every_shape() {
    let schema = schema(
        r#"{
            "properties": {
                "a": {"default": null},
                "b": {"default": false},
                "c": {"default": -1.5},
                "d": {"default": []},
                "e": {"default": {"k": [1, "x"], "m": {}}},
                "f": {"default": ""}
            }
        }"#,
    );
    let annotations = extract_annotations(&schema);
    let default = |path: &str| annotations.get(path).unwrap().default.clone().unwrap();
    assert_eq!(default("a"), "null");
    assert_eq!(default("b"), "false");
    assert_eq!(default("c"), "-1.5");
    assert_eq!(default("d"), "[]");
    assert_eq!(default("e"), "{k: [1, \"x\"], m: {}}");
    assert_eq!(default("f"), "\"\"");
}

#[test]
fn path_fidelity() {
    let schema = schema(
        r#"{"properties":{"server":{"title":"Server","properties":{"port":{"title":"Port"}}}}}"#,
    );
    let annotations = extract_annotations(&schema);
    assert_eq!(annotations.len(), 2);
    let server = annotations.get("server").unwrap();
    assert_eq!(server.title, Some("Server".to_string()));
    assert_eq!(server.description, None);
    assert_eq!(server.default, None);
    let port = annotations.get("server.port").unwrap();
    assert_eq!(port.title, Some("Port".to_string()));
    assert_eq!(port.path, "server.port");
}

#[test]
fn ref_expansion() {
    let schema = schema(
        r##"{
            "$defs": {"Port": {"title": "Port"}},
            "properties": {
                "http_port": {"$ref": "#/$defs/Port"},
                "https_port": {"$ref": "#/$defs/Port"}
            }
        }"##,
    );
    let annotations = extract_annotations(&schema);
    assert_eq!(annotations.get("http_port").unwrap().title, Some("Port".to_string()));
    assert_eq!(annotations.get("https_port").unwrap().title, Some("Port".to_string()));
    assert_eq!(annotations.len(), 2);
}

#[test]
fn additional_properties_and_later_writers() {
    let schema = schema(
        r#"{
            "properties": {
                "m": {
                    "title": "Map",
                    "additionalProperties": {"description": "Any value"},
                    "allOf": [{"title": "Last"}]
                },
                "n": {"title": "N", "additionalProperties": true}
            }
        }"#,
    );
    let annotations = extract_annotations(&schema);
    let m = annotations.get("m").unwrap();
    assert_eq!(m.title, Some("Last".to_string()));
    assert_eq!(m.description, None);
    assert_eq!(annotations.get("n").unwrap().title, Some("N".to_string()));
}

#[test]
fn bool_schema_has_no_annotations() {
    let schema: Schema = true.into();
    assert!(extract_annotations(&schema).is_empty());
    assert_eq!(resolve_refs(&schema), SchemaValue::Bool(true));
}
