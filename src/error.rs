use vstd::prelude::*;
use vstd::string::StringExecFns;

verus! {

/// The failures the hub reports to clients and to the HTTP layer.
#[derive(Debug, PartialEq, Eq)]
pub enum ServerError {
    InternalServerError,
    NotFound,
    BadRequest(String),
    IndexOutOfBounds,
    ChunkMissing,
    FileReassemblyError,
    MetadataParsingError,
    InvalidFile,
}

impl ServerError {
    /// The HTTP status that reports this error.
    pub fn status_code(&self) -> (r: u16)
        ensures
            r == match self {
                ServerError::InternalServerError => 500u16,
                ServerError::NotFound => 404u16,
                _ => 400u16,
            },
    {
        match self {
            ServerError::InternalServerError => 500,
            ServerError::NotFound => 404,
            _ => 400,
        }
    }

    /// The text that describes this error.
    pub fn message(&self) -> (r: String)
        ensures
            match self {
                ServerError::InternalServerError => r@ == "Internal Server Error"@,
                ServerError::NotFound => r@ == "Not Found"@,
                ServerError::BadRequest(m) => r@ == "Bad Request: "@ + m@,
                ServerError::IndexOutOfBounds => r@ == "Index out of bounds"@,
                ServerError::ChunkMissing => r@ == "Chunk Missing"@,
                ServerError::FileReassemblyError => r@ == "File Reassembly Error"@,
                ServerError::MetadataParsingError => r@ == "Metadata Parsing Error"@,
                ServerError::InvalidFile => r@ == "Invalid File"@,
            },
    {
        match self {
            ServerError::InternalServerError => String::from_str("Internal Server Error"),
            ServerError::NotFound => String::from_str("Not Found"),
            ServerError::BadRequest(m) => {
                let mut s = String::from_str("Bad Request: ");
                s.append(m.as_str());
                s
            },
            ServerError::IndexOutOfBounds => String::from_str("Index out of bounds"),
            ServerError::ChunkMissing => String::from_str("Chunk Missing"),
            ServerError::FileReassemblyError => String::from_str("File Reassembly Error"),
            ServerError::MetadataParsingError => String::from_str("Metadata Parsing Error"),
            ServerError::InvalidFile => String::from_str("Invalid File"),
        }
    }

    /// The plain-text body of the HTTP response that reports this error: the
    /// message itself for a bad request, the description otherwise.
    pub fn body(&self) -> (r: String)
        ensures
            match self {
                ServerError::BadRequest(m) => r@ == m@,
                ServerError::InternalServerError => r@ == "Internal Server Error"@,
                ServerError::NotFound => r@ == "Not Found"@,
                ServerError::IndexOutOfBounds => r@ == "Index out of bounds"@,
                ServerError::ChunkMissing => r@ == "Chunk Missing"@,
                ServerError::FileReassemblyError => r@ == "File Reassembly Error"@,
                ServerError::MetadataParsingError => r@ == "Metadata Parsing Error"@,
                ServerError::InvalidFile => r@ == "Invalid File"@,
            },
    {
        match self {
            ServerError::BadRequest(m) => m.clone(),
            _ => self.message(),
        }
    }
}

} // verus!
