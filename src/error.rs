use vstd::prelude::*;

verus! {

/// The kinds of failure that the decoder reports.
#[derive(Clone, Copy, Debug, PartialEq, Eq, Structural)]
pub enum Error {
    /// A structure extends past the end of the file.
    Io,
    /// A signature, a version or a field value is not what the format allows.
    Format,
    /// A construct of the format that this decoder does not implement.
    Unsupported,
    /// The requested element type disagrees with the dataset's datatype.
    TypeMismatch,
    /// A name is absent from a group.
    NotFound,
    /// A zlib stream could not be inflated.
    Decompression,
    /// An array's shape disagrees with the number of its elements.
    Shape,
    /// Name bytes are not valid UTF-8.
    Utf8,
}

impl Error {
    /// A short description of the failure.
    pub fn message(&self) -> (r: String) {
        let s = match self {
            Error::Io => "structure extends past the end of the file",
            Error::Format => "malformed or unexpected file content",
            Error::Unsupported => "construct not supported by this decoder",
            Error::TypeMismatch => "element type does not match the stored datatype",
            Error::NotFound => "name not found in group",
            Error::Decompression => "zlib stream could not be inflated",
            Error::Shape => "array shape does not match its element count",
            Error::Utf8 => "name is not valid UTF-8",
        };
        s.to_owned()
    }
}

} // verus!
