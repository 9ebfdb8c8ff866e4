//! The ways in which compiling a scene fails.

use vstd::prelude::*;

verus! {

/// Why a scene could not be compiled. Every one of them is fatal: there is
/// no partial result.
#[derive(Clone, Copy, PartialEq, Eq, Structural, Debug)]
pub enum ModelError {
    /// The document is no well-formed stream of elements, or an attribute is
    /// no text.
    Parse,
    /// An element stands where it cannot: without a parent, under a parent
    /// that does not take it, or closed by a tag that does not match.
    Structure,
    /// A numeric attribute has the wrong number of values or one that is no
    /// number.
    AttributeValue,
    /// A mesh, material or texture is referred to by a name that no asset has.
    AssetResolution,
}

impl ModelError {
    /// A sentence for the one who reads the failure.
    pub fn message(&self) -> (r: String)
        ensures
            r@ == match self {
                ModelError::Parse => "the document is malformed"@,
                ModelError::Structure => "an element stands where it cannot"@,
                ModelError::AttributeValue => "an attribute value is malformed"@,
                ModelError::AssetResolution => "a named asset is missing"@,
            },
    {
        match self {
            ModelError::Parse => "the document is malformed".to_owned(),
            ModelError::Structure => "an element stands where it cannot".to_owned(),
            ModelError::AttributeValue => "an attribute value is malformed".to_owned(),
            ModelError::AssetResolution => "a named asset is missing".to_owned(),
        }
    }
}

} // verus!
