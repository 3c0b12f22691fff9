use jsonschema_annotator::TargetFormat;
use std::path::Path;

#[test]
fn test_from_extension() {
    assert_eq!(TargetFormat::from_extension("toml"), Some(TargetFormat::Toml));
    assert_eq!(TargetFormat::from_extension("yaml"), Some(TargetFormat::Yaml));
    assert_eq!(TargetFormat::from_extension("yml"), Some(TargetFormat::Yaml));
    assert_eq!(TargetFormat::from_extension("TOML"), Some(TargetFormat::Toml));
    assert_eq!(TargetFormat::from_extension("json"), None);
}

#[test]
fn test_from_path() {
    assert_eq!(
        TargetFormat::from_path(&Path::new("config.toml").to_path_buf()),
        Some(TargetFormat::Toml)
    );
    assert_eq!(
        TargetFormat::from_path(&Path::new("config.yaml").to_path_buf()),
        Some(TargetFormat::Yaml)
    );
    assert_eq!(
        TargetFormat::from_path(&Path::new("config.yml").to_path_buf()),
        Some(TargetFormat::Yaml)
    );
    assert_eq!(TargetFormat::from_path(&Path::new("config.json").to_path_buf()), None);
    assert_eq!(TargetFormat::from_path(&Path::new("noext").to_path_buf()), None);
}

#[test]
fn extension_is_case_insensitive_and_exact() {
    assert_eq!(TargetFormat::from_extension("YmL"), Some(TargetFormat::Yaml));
    assert_eq!(TargetFormat::from_extension("Yaml"), Some(TargetFormat::Yaml));
    assert_eq!(TargetFormat::from_extension("tomll"), None);
    assert_eq!(TargetFormat::from_extension(""), None);
    assert_eq!(TargetFormat::from_extension(".toml"), None);
}

#[test]
fn canonical_extension() {
    assert_eq!(TargetFormat::Toml.extension(), "toml");
    assert_eq!(TargetFormat::Yaml.extension(), "yaml");
    assert_eq!(
        TargetFormat::from_extension(TargetFormat::Toml.extension()),
        Some(TargetFormat::Toml)
    );
    assert_eq!(
        TargetFormat::from_extension(TargetFormat::Yaml.extension()),
        Some(TargetFormat::Yaml)
    );
}

#[test]
fn extension_matches_unicode_lower_case() {
    for word in ["toml", "yaml", "yml"] {
        let letters: Vec<char> = word.chars().collect();
        for position in 0..letters.len() {
            let mut c = 0u32;
            while c <= 0x10FFFF {
                if let Some(ch) = char::from_u32(c) {
                    let mut changed = letters.clone();
                    changed[position] = ch;
                    let text: String = changed.into_iter().collect();
                    let lowered = text.to_lowercase();
                    let expected = match lowered.as_str() {
                        "toml" => Some(TargetFormat::Toml),
                        "yaml" | "yml" => Some(TargetFormat::Yaml),
                        _ => None,
                    };
                    assert_eq!(TargetFormat::from_extension(&text), expected, "{:?}", text);
                }
                c += 1;
            }
        }
    }
}
