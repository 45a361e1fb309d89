//! The morphological analyzer: lindera with the IPADIC dictionary.
use vstd::prelude::*;
use std::borrow::Cow;
use lindera::dictionary::Dictionary;
use lindera::segmenter::Segmenter;
use crate::annotate::{word_views, Word};

verus! {

#[verifier::external_type_specification]
#[verifier::external_body]
pub struct ExDictionary(lindera::dictionary::Dictionary);

#[verifier::external_type_specification]
#[verifier::external_body]
pub struct ExSegmenter(lindera::segmenter::Segmenter);

/// The words, as (surface, reading) pairs, into which the IPADIC analyzer in
/// normal mode splits a text.
pub uninterp spec fn analysis_of(text: Seq<char>) -> Seq<(Seq<char>, Option<Seq<char>>)>;

/// Relies on lindera::dictionary::load_dictionary for the IPADIC dictionary
/// built into the binary; it fails where that dictionary was not built in.
#[verifier::external_body]
pub(crate) fn load_ipadic() -> (r: Result<Dictionary, String>) {
    lindera::dictionary::load_dictionary("embedded://ipadic").map_err(
        |e| format!("Failed to load dictionary: {}", e),
    )
}

/// Relies on lindera::segmenter::Segmenter::new: a segmenter in normal mode
/// without a user dictionary.
#[verifier::external_body]
pub(crate) fn segmenter_of(dictionary: Dictionary) -> (r: Segmenter) {
    Segmenter::new(lindera::mode::Mode::Normal, dictionary, None)
}

/// Relies on lindera::segmenter::Segmenter::segment over the IPADIC
/// dictionary: each token gives its surface and the reading field of its
/// details (the eighth), where it has one.
#[verifier::external_body]
pub(crate) fn analyze(segmenter: &Segmenter, text: &str) -> (r: Result<Vec<Word>, String>)
    ensures
        r matches Ok(ws) ==> word_views(ws@) == analysis_of(text@),
{
    let tokens = segmenter.segment(Cow::Borrowed(text)).map_err(
        |e| format!("Tokenization failed: {}", e),
    )?;
    Ok(tokens.into_iter().map(|mut t| Word {
        reading: t.get_detail(7).map(|d| d.to_string()),
        surface: t.surface.to_string(),
    }).collect())
}

} // verus!
