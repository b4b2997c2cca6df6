//! Why a conversion stops.

use vstd::prelude::*;

verus! {

/// The failures of a conversion. Each one ends it.
#[derive(Clone, Copy, Debug, PartialEq, Eq, Structural)]
pub enum ConvertError {
    /// The markup itself could not be read.
    MalformedMarkup,
    /// A `transform` attribute is no list of transforms.
    MalformedTransform,
    /// A non-empty declaration of a style has no colon.
    MalformedStyleSyntax,
    /// A numeric attribute or style property is no number, or it or what is
    /// computed from it is beyond the range of numbers.
    MalformedNumeric,
    /// The data of a path could not be read.
    MalformedPath,
    /// Text stands in a text element that has no position for it.
    MissingTextAnchor,
    /// Text stands outside every text element.
    MissingTextContainer,
}

/// What to tell a reader about a failure.
pub open spec fn message_text(e: ConvertError) -> Seq<char> {
    match e {
        ConvertError::MalformedMarkup => "the markup cannot be read"@,
        ConvertError::MalformedTransform => "a transform attribute is no list of transforms"@,
        ConvertError::MalformedStyleSyntax => "a declaration of a style has no colon"@,
        ConvertError::MalformedNumeric => "a numeric value is no number or out of range"@,
        ConvertError::MalformedPath => "the data of a path cannot be read"@,
        ConvertError::MissingTextAnchor => "no position found for text"@,
        ConvertError::MissingTextContainer => "no text element found around text"@,
    }
}

impl ConvertError {
    /// A sentence that says what went wrong.
    pub fn message(&self) -> (r: String)
        ensures
            r@ == message_text(*self),
    {
        match self {
            ConvertError::MalformedMarkup => "the markup cannot be read".to_owned(),
            ConvertError::MalformedTransform => "a transform attribute is no list of transforms".to_owned(),
            ConvertError::MalformedStyleSyntax => "a declaration of a style has no colon".to_owned(),
            ConvertError::MalformedNumeric => "a numeric value is no number or out of range".to_owned(),
            ConvertError::MalformedPath => "the data of a path cannot be read".to_owned(),
            ConvertError::MissingTextAnchor => "no position found for text".to_owned(),
            ConvertError::MissingTextContainer => "no text element found around text".to_owned(),
        }
    }
}

} // verus!
