use jsonschema_annotator::{Annotation, AnnotationMap};

#[test]
fn test_annotation_builder() {
    let ann = Annotation::new("server.port")
        .with_title("Port")
        .with_description("The server port number");

    assert_eq!(ann.path, "server.port");
    assert_eq!(ann.title, Some("Port".to_string()));
    assert_eq!(ann.description, Some("The server port number".to_string()));
}

#[test]
fn test_annotation_to_comment_lines() {
    let ann = Annotation::new("test").with_title("Title").with_description("Description");

    let lines = ann.to_comment_lines(None);
    assert_eq!(lines, vec!["# Title", "# Description"]);
}

#[test]
fn test_annotation_to_comment_lines_wrapping() {
    let ann = Annotation::new("test")
        .with_description("This is a very long description that should be wrapped");

    let lines = ann.to_comment_lines(Some(30));
    assert!(lines.len() > 1);
    for line in &lines {
        assert!(line.len() <= 32); // 30 + "# " prefix
    }
}

#[test]
fn test_annotation_map() {
    let mut map = AnnotationMap::new();

    map.insert(Annotation::new("a").with_title("A"));
    map.insert(Annotation::new("b").with_title("B"));

    assert_eq!(map.len(), 2);
    assert_eq!(map.get("a").unwrap().title, Some("A".to_string()));
    assert_eq!(map.get("b").unwrap().title, Some("B".to_string()));
    assert!(map.get("c").is_none());
}

#[test]
fn test_empty_annotation_not_inserted() {
    let mut map = AnnotationMap::new();
    map.insert(Annotation::new("empty"));
    assert!(map.is_empty());
}

#[test]
fn insert_replaces_the_record_of_a_path() {
    let mut map = AnnotationMap::new();
    map.insert(Annotation::new("a").with_title("first"));
    map.insert(Annotation::new("b").with_title("B"));
    map.insert(Annotation::new("a").with_description("second"));
    assert_eq!(map.len(), 2);
    let a = map.get("a").unwrap();
    assert_eq!(a.title, None);
    assert_eq!(a.description, Some("second".to_string()));
    let paths: Vec<String> = map.iter().into_iter().map(|(p, _)| p.clone()).collect();
    assert_eq!(paths, vec!["a".to_string(), "b".to_string()]);
}

#[test]
fn default_alone_makes_a_record() {
    let mut map = AnnotationMap::new();
    map.insert(Annotation::new("t").with_default("30"));
    assert_eq!(map.len(), 1);
    assert!(!map.get("t").unwrap().is_empty());
    assert!(Annotation::new("t").is_empty());
    let copy = map.get("t").unwrap().duplicate();
    assert_eq!(&copy, map.get("t").unwrap());
}

#[test]
fn a_copy_of_the_table_holds_the_same_records() {
    let mut map = AnnotationMap::new();
    map.insert(Annotation::new("a").with_title("A"));
    map.insert(Annotation::new("b").with_description("B"));
    let copy = map.clone();
    map.insert(Annotation::new("c").with_title("C"));
    assert_eq!(copy.len(), 2);
    assert_eq!(copy.get("a"), Some(&Annotation::new("a").with_title("A")));
    assert_eq!(copy.get("b").unwrap().description, Some("B".to_string()));
    assert!(copy.get("c").is_none());
    assert!(AnnotationMap::default().is_empty());
}
