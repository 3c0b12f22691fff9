use jsonschema_annotator::annotator::yaml::{
    apply_operations, extract_yaml_key, is_mapping_start, YamlOperation,
};
use jsonschema_annotator::text::{
    char_is_whitespace, char_width, dotted_path, ends_with_newline, join_strings,
    join_with_line_feeds, measure_indentation, repeat_space, split_lines, starts_with_char,
};
use jsonschema_annotator::{AnnotatorConfig, YamlAnnotator};

#[test]
fn whitespace_is_the_unicode_property() {
    let mut c = 0u32;
    while c <= 0x10FFFF {
        if let Some(ch) = char::from_u32(c) {
            assert_eq!(char_is_whitespace(ch), ch.is_whitespace(), "U+{:04X}", c);
            assert_eq!(char_width(ch), ch.len_utf8(), "U+{:04X}", c);
        }
        c += 1;
    }
}

#[test]
fn lines_end_at_line_feeds() {
    let split = |text: &str| split_lines(text);
    assert_eq!(split(""), Vec::<String>::new());
    assert_eq!(split("\n"), vec![""]);
    assert_eq!(split("a"), vec!["a"]);
    assert_eq!(split("a\n"), vec!["a"]);
    assert_eq!(split("a\n\nb"), vec!["a", "", "b"]);
    assert_eq!(split("a\r\nb\n"), vec!["a", "b"]);
    assert_eq!(split("a\r"), vec!["a\r"]);
    assert_eq!(split("a\r\r\n"), vec!["a\r"]);
    for text in ["", "\n", "a", "a\n", "a\n\nb", "a\r\nb\n", "a\r", "x\ny\r\n\r\nz"] {
        let expected: Vec<String> = text.lines().map(String::from).collect();
        assert_eq!(split_lines(text), expected);
    }
}

#[test]
fn joining_puts_separators_between() {
    let parts = vec!["a".to_string(), "".to_string(), "c".to_string()];
    assert_eq!(join_strings(&parts, ", "), "a, , c");
    assert_eq!(join_with_line_feeds(&parts), "a\n\nc");
    assert_eq!(join_strings(&Vec::new(), "x"), "");
    assert_eq!(join_strings(&vec!["only".to_string()], "x"), "only");
    assert_eq!(dotted_path(&vec!["a".to_string(), "b".to_string()], "c"), "a.b.c");
    assert_eq!(dotted_path(&Vec::new(), "c"), "c");
}

#[test]
fn indentation_is_measured_in_bytes() {
    assert_eq!(measure_indentation("  key: 1"), (2, Some('k')));
    assert_eq!(measure_indentation("\tkey"), (1, Some('k')));
    assert_eq!(measure_indentation("\u{3000}# c"), (3, Some('#')));
    assert_eq!(measure_indentation("   "), (3, None));
    assert_eq!(measure_indentation(""), (0, None));
    assert_eq!(repeat_space(3), "   ");
    assert_eq!(repeat_space(0), "");
    assert!(ends_with_newline("a\n"));
    assert!(!ends_with_newline("a\n "));
    assert!(!ends_with_newline(""));
    assert!(starts_with_char("#/a", '#'));
    assert!(!starts_with_char("", '#'));
    assert!(!starts_with_char("a#", '#'));
}

#[test]
fn keys_are_taken_before_the_first_colon() {
    assert_eq!(extract_yaml_key("key: value"), Some("key".to_string()));
    assert_eq!(extract_yaml_key("  key:"), Some("key".to_string()));
    assert_eq!(extract_yaml_key("a b : c: d"), Some("a b".to_string()));
    assert_eq!(extract_yaml_key("- item: 1"), None);
    assert_eq!(extract_yaml_key("  - item"), None);
    assert_eq!(extract_yaml_key(": value"), None);
    assert_eq!(extract_yaml_key("no colon"), None);
    assert_eq!(extract_yaml_key(""), None);
    assert_eq!(extract_yaml_key("   "), None);
}

#[test]
fn a_mapping_opens_where_nothing_follows_the_colon() {
    assert!(is_mapping_start("key:"));
    assert!(is_mapping_start("  key:   "));
    assert!(is_mapping_start("key: # note"));
    assert!(!is_mapping_start("key: value"));
    assert!(!is_mapping_start("key: value:"));
    assert!(!is_mapping_start("no colon"));
    assert!(!is_mapping_start(""));
}

#[test]
fn a_comment_above_counts_at_the_same_indentation_only() {
    let annotator = YamlAnnotator::new(AnnotatorConfig::default());
    let lines: Vec<String> =
        ["# top", "a:", "  # inner", "  b: 1", "# outer", "  c: 2", "", "d: 3"]
            .iter()
            .map(|l| l.to_string())
            .collect();
    assert!(!annotator.has_preceding_comment(&lines, 0, 0));
    assert!(annotator.has_preceding_comment(&lines, 1, 0));
    assert!(annotator.has_preceding_comment(&lines, 3, 2));
    assert!(!annotator.has_preceding_comment(&lines, 5, 2));
    assert!(!annotator.has_preceding_comment(&lines, 7, 0));
    assert!(!annotator.has_preceding_comment(&lines, 8, 0));
}

#[test]
fn operations_are_applied_from_the_last_to_the_first() {
    let lines: Vec<String> =
        ["a: 1", "# old", "# older", "b: 2", "c: 3"].iter().map(|l| l.to_string()).collect();
    let ops = vec![
        YamlOperation::Insert { line_num: 0, comment: "# A\n# more".to_string() },
        YamlOperation::Replace { line_num: 3, comment: "# B".to_string() },
        YamlOperation::Append { line_num: 4, comment: "# C".to_string() },
    ];
    assert_eq!(
        apply_operations(lines.clone(), &ops),
        vec!["# A", "# more", "a: 1", "# B", "b: 2", "# C", "c: 3"]
    );
    let past_the_end = vec![YamlOperation::Insert { line_num: 9, comment: "# X".to_string() }];
    assert_eq!(apply_operations(lines.clone(), &past_the_end), lines);
    let at_the_end = vec![YamlOperation::Insert { line_num: 5, comment: "# X".to_string() }];
    assert_eq!(apply_operations(lines.clone(), &at_the_end).last().unwrap(), "# X");
}

#[test]
fn description_width_shrinks_with_the_indentation() {
    let annotator = YamlAnnotator::new(AnnotatorConfig {
        max_line_width: Some(20),
        ..AnnotatorConfig::default()
    });
    let annotation =
        jsonschema_annotator::Annotation::new("a.b").with_description("one two three four five");
    let flat = annotator.format_comment(&annotation, 0).unwrap();
    for line in flat.lines() {
        assert!(line.starts_with("# "));
        assert!(line.len() <= 20);
    }
    let deep = annotator.format_comment(&annotation, 8).unwrap();
    for line in deep.lines() {
        assert!(line.starts_with("        # "));
        assert!(line.len() <= 20);
    }
    assert!(deep.lines().count() > flat.lines().count());
    let bare = jsonschema_annotator::Annotation::new("a.b");
    assert_eq!(annotator.format_comment(&bare, 0), None);
}
