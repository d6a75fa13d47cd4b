//! What can go wrong.
use crate::text;
use vstd::prelude::*;

verus! {

/// Why an operation failed. The errors of other libraries are held as their messages.
#[derive(Debug)]
pub enum AppError {
    NetworkError(String),
    FileNotFound(u64),
    AlreadyExists,
    IncompleteTransfer { expected: u64, got: u64 },
    IoError(String),
    JsonError(String),
    Utf8Error(String),
    InvalidFileName,
    InvalidInput(String),
    ServerNotFound,
    QuinnConnectionError(String),
    QuinnConnectError(String),
    QuinnReadExactError(String),
    QuinnReadToEndError(String),
    QuinnWriteError(String),
    RustlsError(String),
    TokioJoinError(String),
}

impl AppError {
    /// The text that tells a user what went wrong.
    pub open spec fn spec_message(&self) -> Seq<char> {
        match self {
            AppError::NetworkError(m) => "Network Error: "@ + m@,
            AppError::FileNotFound(id) => "File ID "@ + text::decimal(*id as nat) + " not found"@,
            AppError::AlreadyExists => "File already exists"@,
            AppError::IncompleteTransfer { expected, got } => "Incomplete transfer: expected "@
                + text::decimal(*expected as nat) + " bytes, got "@ + text::decimal(*got as nat),
            AppError::IoError(m) => "I/O Error: "@ + m@,
            AppError::JsonError(m) => "JSON Error: "@ + m@,
            AppError::Utf8Error(m) => "UTF-8 Conversion Error: "@ + m@,
            AppError::InvalidFileName => "Invalid file name"@,
            AppError::InvalidInput(m) => "Invalid input: "@ + m@,
            AppError::ServerNotFound => "Selected server not found"@,
            AppError::QuinnConnectionError(m) => "QUIC Connection Error: "@ + m@,
            AppError::QuinnConnectError(m) => "QUIC Connect Error: "@ + m@,
            AppError::QuinnReadExactError(m) => "QUIC Read Error: "@ + m@,
            AppError::QuinnReadToEndError(m) => "QUIC Read-to-End Error: "@ + m@,
            AppError::QuinnWriteError(m) => "QUIC Write Error: "@ + m@,
            AppError::RustlsError(m) => "TLS Error: "@ + m@,
            AppError::TokioJoinError(m) => "Task Join Error: "@ + m@,
        }
    }

    /// The text that tells a user what went wrong.
    pub fn message(&self) -> (r: String)
        ensures
            r@ == self.spec_message(),
    {
        match self {
            AppError::NetworkError(m) => text::concat("Network Error: ", m.as_str()),
            AppError::FileNotFound(id) => text::concat3(
                "File ID ",
                text::decimal_text(*id as u128).as_str(),
                " not found",
            ),
            AppError::AlreadyExists => "File already exists".to_owned(),
            AppError::IncompleteTransfer { expected, got } => {
                let head = text::concat3(
                    "Incomplete transfer: expected ",
                    text::decimal_text(*expected as u128).as_str(),
                    " bytes, got ",
                );
                text::concat(head.as_str(), text::decimal_text(*got as u128).as_str())
            },
            AppError::IoError(m) => text::concat("I/O Error: ", m.as_str()),
            AppError::JsonError(m) => text::concat("JSON Error: ", m.as_str()),
            AppError::Utf8Error(m) => text::concat("UTF-8 Conversion Error: ", m.as_str()),
            AppError::InvalidFileName => "Invalid file name".to_owned(),
            AppError::InvalidInput(m) => text::concat("Invalid input: ", m.as_str()),
            AppError::ServerNotFound => "Selected server not found".to_owned(),
            AppError::QuinnConnectionError(m) => text::concat(
                "QUIC Connection Error: ",
                m.as_str(),
            ),
            AppError::QuinnConnectError(m) => text::concat("QUIC Connect Error: ", m.as_str()),
            AppError::QuinnReadExactError(m) => text::concat("QUIC Read Error: ", m.as_str()),
            AppError::QuinnReadToEndError(m) => text::concat(
                "QUIC Read-to-End Error: ",
                m.as_str(),
            ),
            AppError::QuinnWriteError(m) => text::concat("QUIC Write Error: ", m.as_str()),
            AppError::RustlsError(m) => text::concat("TLS Error: ", m.as_str()),
            AppError::TokioJoinError(m) => text::concat("Task Join Error: ", m.as_str()),
        }
    }
}

/// Each error tells its whole cause, behind the words that say what kind of error it is.
pub proof fn law_message_tells_the_cause(m: String, id: u64, expected: u64, got: u64)
    ensures
        AppError::NetworkError(m).spec_message() == "Network Error: "@ + m@,
        AppError::FileNotFound(id).spec_message() == "File ID "@ + text::decimal(id as nat)
            + " not found"@,
        AppError::AlreadyExists.spec_message() == "File already exists"@,
        (AppError::IncompleteTransfer { expected, got }).spec_message()
            == "Incomplete transfer: expected "@ + text::decimal(expected as nat)
            + " bytes, got "@ + text::decimal(got as nat),
        AppError::IoError(m).spec_message() == "I/O Error: "@ + m@,
        AppError::JsonError(m).spec_message() == "JSON Error: "@ + m@,
        AppError::Utf8Error(m).spec_message() == "UTF-8 Conversion Error: "@ + m@,
        AppError::InvalidFileName.spec_message() == "Invalid file name"@,
        AppError::InvalidInput(m).spec_message() == "Invalid input: "@ + m@,
        AppError::ServerNotFound.spec_message() == "Selected server not found"@,
        AppError::QuinnConnectionError(m).spec_message() == "QUIC Connection Error: "@ + m@,
        AppError::QuinnConnectError(m).spec_message() == "QUIC Connect Error: "@ + m@,
        AppError::QuinnReadExactError(m).spec_message() == "QUIC Read Error: "@ + m@,
        AppError::QuinnReadToEndError(m).spec_message() == "QUIC Read-to-End Error: "@ + m@,
        AppError::QuinnWriteError(m).spec_message() == "QUIC Write Error: "@ + m@,
        AppError::RustlsError(m).spec_message() == "TLS Error: "@ + m@,
        AppError::TokioJoinError(m).spec_message() == "Task Join Error: "@ + m@,
{
}

} // verus!
