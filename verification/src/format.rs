//! The formats of target documents, and how a file name tells them apart.

use vstd::prelude::*;
use vstd::string::*;
use crate::text::chars_of;

verus! {

/// `std::path::PathBuf`, a file path.
#[verifier::external_type_specification]
#[verifier::external_body]
pub struct ExPathBuf(std::path::PathBuf);

/// Format of the document that receives the comments.
#[derive(Debug, Clone, Copy, PartialEq, Eq, Structural)]
pub enum TargetFormat {
    Toml,
    Yaml,
}

/// The lower-case form of an ASCII capital letter; any other character
/// stays as it is.
pub open spec fn lower(c: char) -> char {
    if 'A' <= c <= 'Z' {
        ((c as u8) + 32) as char
    } else {
        c
    }
}

/// The text with its ASCII capital letters in lower case.
pub open spec fn lowered(s: Seq<char>) -> Seq<char> {
    Seq::new(s.len(), |i: int| lower(s[i]))
}

/// The format that a file extension stands for, whatever its letter case.
pub open spec fn format_of_extension(ext: Seq<char>) -> Option<TargetFormat> {
    let e = lowered(ext);
    if e == seq!['t', 'o', 'm', 'l'] {
        Some(TargetFormat::Toml)
    } else if e == seq!['y', 'a', 'm', 'l'] || e == seq!['y', 'm', 'l'] {
        Some(TargetFormat::Yaml)
    } else {
        None
    }
}

/// The extension of the path's file name, if it has one that is valid
/// Unicode.
pub uninterp spec fn path_extension(path: &std::path::PathBuf) -> Option<Seq<char>>;

/// `Path::extension` and `OsStr::to_str`, on the path that the buffer holds: the extension of the file name,
/// without its dot, where there is one and it is valid Unicode.
#[verifier::external_body]
fn extension_of(path: &std::path::PathBuf) -> (ext: Option<String>)
    ensures
        match ext {
            Some(e) => path_extension(path) == Some(e@),
            None => path_extension(path) is None,
        },
{
    path.extension().and_then(|e| e.to_str()).map(|e| e.to_string())
}

/// Whether `chars`, in lower case, spells `word`.
fn spells(chars: &Vec<char>, word: &Vec<char>) -> (b: bool)
    ensures
        b == (lowered(chars@) == word@),
{
    if chars.len() != word.len() {
        return false;
    }
    let mut i: usize = 0;
    while i < chars.len()
        invariant
            i <= chars.len(),
            chars.len() == word.len(),
            forall|j: int| 0 <= j < i ==> lowered(chars@)[j] == word@[j],
        decreases chars.len() - i,
    {
        let c = chars[i];
        let l: char = if 'A' <= c && c <= 'Z' {
            ((c as u8) + 32) as char
        } else {
            c
        };
        if l != word[i] {
            assert(lowered(chars@)[i as int] != word@[i as int]);
            return false;
        }
        i += 1;
    }
    assert(lowered(chars@) =~= word@);
    true
}

impl TargetFormat {
    /// The format that the extension of `path` stands for.
    pub fn from_path(path: &std::path::PathBuf) -> (format: Option<TargetFormat>)
        ensures
            format == match path_extension(path) {
                Some(ext) => format_of_extension(ext),
                None => None,
            },
    {
        match extension_of(path) {
            Some(ext) => TargetFormat::from_extension(ext.as_str()),
            None => None,
        }
    }

    /// The format that the extension `ext` stands for: `toml` for TOML,
    /// `yaml` and `yml` for YAML, in any letter case.
    pub fn from_extension(ext: &str) -> (format: Option<TargetFormat>)
        ensures
            format == format_of_extension(ext@),
    {
        let chars = chars_of(ext);
        let toml: Vec<char> = vec!['t', 'o', 'm', 'l'];
        let yaml: Vec<char> = vec!['y', 'a', 'm', 'l'];
        let yml: Vec<char> = vec!['y', 'm', 'l'];
        if spells(&chars, &toml) {
            Some(TargetFormat::Toml)
        } else if spells(&chars, &yaml) || spells(&chars, &yml) {
            Some(TargetFormat::Yaml)
        } else {
            None
        }
    }

    /// The usual file extension of the format.
    pub fn extension(&self) -> (ext: &'static str)
        ensures
            ext@ == match self {
                TargetFormat::Toml => "toml"@,
                TargetFormat::Yaml => "yaml"@,
            },
    {
        match self {
            TargetFormat::Toml => "toml",
            TargetFormat::Yaml => "yaml",
        }
    }
}

} // verus!
