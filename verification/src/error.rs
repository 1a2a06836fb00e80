//! The error kinds a conversion run can fail with.

use vstd::prelude::*;

verus! {

/// Why a conversion run stopped. Every kind is fatal to the run; a
/// malformed front-matter block is not an error but is recovered from
/// during parsing.
#[derive(Debug, PartialEq, Eq)]
pub enum ConvertError {
    /// A source file or standard input could not be read.
    Input(String),
    /// A destination could not be written or a directory not created.
    Output(String),
    /// A file name could not be determined for this path.
    Path(String),
    /// Two distinct inputs collide on one output name: the path that first
    /// claimed the name, and the path that collided with it.
    DuplicateName(String, String),
    /// The external formatter rejected its configuration or input.
    Format(String),
    /// The given mode flags conflict.
    Usage(String),
}

/// The mathematical value of a `ConvertError`.
pub ghost enum ConvertErrorView {
    Input(Seq<char>),
    Output(Seq<char>),
    Path(Seq<char>),
    DuplicateName(Seq<char>, Seq<char>),
    Format(Seq<char>),
    Usage(Seq<char>),
}

impl View for ConvertError {
    type V = ConvertErrorView;

    open spec fn view(&self) -> ConvertErrorView {
        match self {
            ConvertError::Input(m) => ConvertErrorView::Input(m@),
            ConvertError::Output(m) => ConvertErrorView::Output(m@),
            ConvertError::Path(m) => ConvertErrorView::Path(m@),
            ConvertError::DuplicateName(a, b) => ConvertErrorView::DuplicateName(a@, b@),
            ConvertError::Format(m) => ConvertErrorView::Format(m@),
            ConvertError::Usage(m) => ConvertErrorView::Usage(m@),
        }
    }
}

/// The human-readable message of an error.
pub open spec fn spec_message(e: ConvertErrorView) -> Seq<char> {
    match e {
        ConvertErrorView::Input(m) => m,
        ConvertErrorView::Output(m) => m,
        ConvertErrorView::Path(p) => "failed to determine the file name for "@ + p,
        ConvertErrorView::DuplicateName(a, b) => "duplicate file names:\n- "@ + a + "\n- "@ + b,
        ConvertErrorView::Format(m) => "formatting error: "@ + m,
        ConvertErrorView::Usage(m) => m,
    }
}

impl ConvertError {
    /// The human-readable message reported on standard error.
    pub fn message(&self) -> (r: String)
        ensures
            r@ == spec_message(self@),
    {
        match self {
            ConvertError::Input(m) => m.clone(),
            ConvertError::Output(m) => m.clone(),
            ConvertError::Path(p) => {
                let mut r = String::from_str("failed to determine the file name for ");
                r.append(p.as_str());
                r
            },
            ConvertError::DuplicateName(a, b) => {
                let mut r = String::from_str("duplicate file names:\n- ");
                r.append(a.as_str());
                r.append("\n- ");
                r.append(b.as_str());
                r
            },
            ConvertError::Format(m) => {
                let mut r = String::from_str("formatting error: ");
                r.append(m.as_str());
                r
            },
            ConvertError::Usage(m) => m.clone(),
        }
    }
}

} // verus!
