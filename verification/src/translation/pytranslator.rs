//! What a translator written as a script hands back.

use crate::translation::TranslationResult;
use vstd::prelude::*;

verus! {

/// The result that a script makes from the text of a value.
#[derive(Debug)]
pub struct PyTranslationResult(pub TranslationResult);

impl PyTranslationResult {
    /// A result that holds `val_str` and has no fields.
    pub fn new(val_str: &str) -> (result: Self)
        ensures
            result.0.val@ == val_str@,
            result.0.subfields@.len() == 0,
    {
        PyTranslationResult(TranslationResult { val: val_str.to_owned(), subfields: Vec::new() })
    }
}

} // verus!
