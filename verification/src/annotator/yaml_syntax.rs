//! The YAML grammar, as the `serde_yaml` crate reads it.

use vstd::prelude::*;

verus! {

/// Whether `serde_yaml` reads `content` as a YAML document.
pub uninterp spec fn yaml_parses(content: Seq<char>) -> bool;

/// `serde_yaml::from_str` into a `serde_yaml::Value`, which is dropped: the
/// call succeeds exactly on the texts that the crate accepts as YAML. A
/// failure comes back as the message of the crate's error.
#[verifier::external_body]
pub(crate) fn parse_yaml(content: &str) -> (r: Result<(), String>)
    ensures
        r is Ok == yaml_parses(content@),
{
    match serde_yaml::from_str::<serde_yaml::Value>(content) {
        Ok(_) => Ok(()),
        Err(error) => Err(error.to_string()),
    }
}

} // verus!
