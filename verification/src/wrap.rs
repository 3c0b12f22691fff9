//! Word wrapping of prose, done by the `textwrap` crate.

use vstd::prelude::*;
use crate::text::views;

verus! {

/// The lines that `textwrap::wrap` breaks `text` into for lines of at most
/// `width` columns.
pub uninterp spec fn wrapped(text: Seq<char>, width: nat) -> Seq<Seq<char>>;

/// `textwrap::wrap` with a plain width: the text broken into lines at word
/// boundaries. The contract only names the result.
#[verifier::external_body]
pub(crate) fn wrap_text(text: &str, width: usize) -> (lines: Vec<String>)
    ensures
        views(lines@) == wrapped(text@, width as nat),
{
    textwrap::wrap(text, width).into_iter().map(|line| line.into_owned()).collect()
}

} // verus!
