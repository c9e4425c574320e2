use vstd::prelude::*;
use vstd::string::StringExecFns;

verus! {

/// Why a load produced no sub-image.
#[derive(Debug)]
pub enum AtlasError {
    /// The file could not be opened.
    Open(String),
    /// The file could not be read.
    Read(String),
    /// The URL's data could not be retrieved.
    Fetch(String),
    /// The bytes carry no known image signature.
    UnknownFormat(String),
    /// The bytes could not be decoded.
    Decode(String),
    /// The image does not fit in an empty page.
    NoSpace,
    /// The sub-image or page ids are used up.
    IdsExhausted,
}

/// The text a caller sees for an error: a fixed lead followed by the
/// underlying cause, if there is one.
pub open spec fn message_of(e: AtlasError) -> Seq<char> {
    match e {
        AtlasError::Open(d) => "Failed to open file: "@ + d@,
        AtlasError::Read(d) => "Failed to read file: "@ + d@,
        AtlasError::Fetch(d) => "Failed to retreive url data: "@ + d@,
        AtlasError::UnknownFormat(d) => "Failed to guess image type for data: "@ + d@,
        AtlasError::Decode(d) => "Failed to read image: "@ + d@,
        AtlasError::NoSpace => "No space for image."@,
        AtlasError::IdsExhausted => "No ids left for image."@,
    }
}

impl AtlasError {
    /// The error as text.
    pub fn message(&self) -> (r: String)
        ensures
            r@ == message_of(*self),
    {
        match self {
            AtlasError::Open(d) => lead_with("Failed to open file: ", d),
            AtlasError::Read(d) => lead_with("Failed to read file: ", d),
            AtlasError::Fetch(d) => lead_with("Failed to retreive url data: ", d),
            AtlasError::UnknownFormat(d) => lead_with("Failed to guess image type for data: ", d),
            AtlasError::Decode(d) => lead_with("Failed to read image: ", d),
            AtlasError::NoSpace => String::from_str("No space for image."),
            AtlasError::IdsExhausted => String::from_str("No ids left for image."),
        }
    }
}

/// `lead` followed by `detail`.
fn lead_with(lead: &str, detail: &String) -> (r: String)
    ensures
        r@ == lead@ + detail@,
{
    let mut out = String::from_str(lead);
    out.append(detail.as_str());
    out
}

} // verus!
