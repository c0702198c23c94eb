//! What a request is answered: the success envelope, or the reason for a
//! refusal.

use crate::table::FurDBError;
use tonic::Code;
use vstd::prelude::*;

verus! {

/// Marks a response envelope as successful.
pub const RESULT_SUCCESS: &'static str = "success";

/// The status every successful response reports in its envelope. gRPC has its
/// own status codes, but the `statusCode`/`status` pair is part of the
/// message structure.
#[derive(Clone, Copy, Debug, PartialEq, Eq, Structural)]
pub enum SuccessStatus {
    OK,
    Created,
}

impl SuccessStatus {
    pub open spec fn spec_status_code(self) -> u32 {
        match self {
            SuccessStatus::OK => 200,
            SuccessStatus::Created => 201,
        }
    }

    pub open spec fn spec_status(self) -> Seq<char> {
        match self {
            SuccessStatus::OK => "OK"@,
            SuccessStatus::Created => "Created"@,
        }
    }

    pub fn get_status_code(&self) -> (code: u32)
        ensures
            code == self.spec_status_code(),
    {
        match self {
            SuccessStatus::OK => 200,
            SuccessStatus::Created => 201,
        }
    }

    pub fn get_status(&self) -> (status: String)
        ensures
            status@ == self.spec_status(),
    {
        match self {
            SuccessStatus::OK => "OK".to_owned(),
            SuccessStatus::Created => "Created".to_owned(),
        }
    }
}

#[verifier::external_type_specification]
#[verifier::external_body]
pub struct ExCode(Code);

/// The gRPC status code that `tonic::Code::from_i32` gives for a number.
pub uninterp spec fn grpc_code(number: i32) -> Code;

/// Calls `tonic::Code::from_i32`; its result is named `grpc_code(number)`.
/// Which variant that is, the contract leaves unsaid: the type is opaque here.
#[verifier::external_body]
fn code_from_number(number: i32) -> (code: Code)
    ensures
        code == grpc_code(number),
{
    Code::from_i32(number)
}

/// Why a request was refused.
#[derive(Debug, Clone, PartialEq, Eq)]
pub enum ErrorResponse {
    NotFound(String),
    BadRequest(String),
    Conflict(String),
    InternalServerError,
}

impl ErrorResponse {
    /// The number of the gRPC status code a refusal travels as: `NOT_FOUND`
    /// (5), `INVALID_ARGUMENT` (3), `ALREADY_EXISTS` (6) or `INTERNAL` (13).
    pub open spec fn grpc_code_number(self) -> i32 {
        match self {
            ErrorResponse::NotFound(_) => 5,
            ErrorResponse::BadRequest(_) => 3,
            ErrorResponse::Conflict(_) => 6,
            ErrorResponse::InternalServerError => 13,
        }
    }

    pub open spec fn spec_status_code(self) -> Seq<char> {
        match self {
            ErrorResponse::NotFound(_) => "404"@,
            ErrorResponse::BadRequest(_) => "400"@,
            ErrorResponse::Conflict(_) => "409"@,
            ErrorResponse::InternalServerError => "500"@,
        }
    }

    pub open spec fn spec_status(self) -> Seq<char> {
        match self {
            ErrorResponse::NotFound(_) => "Not Found"@,
            ErrorResponse::BadRequest(_) => "Bad Request"@,
            ErrorResponse::Conflict(_) => "Conflict"@,
            ErrorResponse::InternalServerError => "Internal Server Error"@,
        }
    }

    /// The message a refusal carries; an internal error tells nothing more
    /// than that it happened.
    pub open spec fn spec_message(self) -> Seq<char> {
        match self {
            ErrorResponse::NotFound(m) => m@,
            ErrorResponse::BadRequest(m) => m@,
            ErrorResponse::Conflict(m) => m@,
            ErrorResponse::InternalServerError => "Internal Server Error"@,
        }
    }

    /// The gRPC status code the refusal travels as.
    pub fn get_code(&self) -> (code: Code)
        ensures
            code == grpc_code(self.grpc_code_number()),
    {
        let number: i32 = match self {
            ErrorResponse::NotFound(_) => 5,
            ErrorResponse::BadRequest(_) => 3,
            ErrorResponse::Conflict(_) => 6,
            ErrorResponse::InternalServerError => 13,
        };
        code_from_number(number)
    }

    pub fn get_status_code(&self) -> (code: &'static str)
        ensures
            code@ == self.spec_status_code(),
    {
        match self {
            ErrorResponse::NotFound(_) => "404",
            ErrorResponse::BadRequest(_) => "400",
            ErrorResponse::Conflict(_) => "409",
            ErrorResponse::InternalServerError => "500",
        }
    }

    pub fn get_status(&self) -> (status: &'static str)
        ensures
            status@ == self.spec_status(),
    {
        match self {
            ErrorResponse::NotFound(_) => "Not Found",
            ErrorResponse::BadRequest(_) => "Bad Request",
            ErrorResponse::Conflict(_) => "Conflict",
            ErrorResponse::InternalServerError => "Internal Server Error",
        }
    }

    pub fn get_message(&self) -> (message: String)
        ensures
            message@ == self.spec_message(),
    {
        match self {
            ErrorResponse::NotFound(message) => message.clone(),
            ErrorResponse::BadRequest(message) => message.clone(),
            ErrorResponse::Conflict(message) => message.clone(),
            ErrorResponse::InternalServerError => "Internal Server Error".to_owned(),
        }
    }

    /// How a refusal reads in a log: its status, and for all but an internal
    /// error, its message.
    pub fn to_string(&self) -> (text: String)
        ensures
            text@ == match self {
                ErrorResponse::InternalServerError => self.spec_status(),
                _ => self.spec_status() + ": "@ + self.spec_message(),
            },
    {
        match self {
            ErrorResponse::InternalServerError => self.get_status().to_owned(),
            _ => {
                let mut text = self.get_status().to_owned();
                text.append(": ");
                let message = self.get_message();
                text.append(message.as_str());
                text
            },
        }
    }

    /// The refusal that answers an error of the engine: a missing database
    /// or table is not found, an existing one conflicts, anything else is a
    /// bad request; the message says which error it was.
    pub open spec fn answers(self, error: FurDBError) -> bool {
        match error {
            FurDBError::DatabaseNotFound | FurDBError::TableNotFound => self matches ErrorResponse::NotFound(
                m,
            ) && m@ == error_message(error),
            FurDBError::DatabaseExists | FurDBError::TableExists => self matches ErrorResponse::Conflict(
                m,
            ) && m@ == error_message(error),
            _ => self matches ErrorResponse::BadRequest(m) && m@ == error_message(error),
        }
    }

    /// The refusal that answers an error of the engine.
    pub fn from(error: FurDBError) -> (r: Self)
        ensures
            r.answers(error),
    {
        match error {
            FurDBError::InvalidId => ErrorResponse::BadRequest(
                "Invalid ID: only ASCII letters, digits, `_` and `-` are allowed".to_owned(),
            ),
            FurDBError::DatabaseNotFound => ErrorResponse::NotFound(
                "Database not found".to_owned(),
            ),
            FurDBError::DatabaseExists => ErrorResponse::Conflict(
                "Database already exists".to_owned(),
            ),
            FurDBError::TableNotFound => ErrorResponse::NotFound("Table not found".to_owned()),
            FurDBError::TableExists => ErrorResponse::Conflict("Table already exists".to_owned()),
            FurDBError::ColumnsUnfit => ErrorResponse::BadRequest(
                "Columns must each be at most 128 bits wide and fill a whole, non-zero number of bytes".to_owned(),
            ),
            FurDBError::ColumnMismatch => ErrorResponse::BadRequest(
                "Entry does not have one value per column".to_owned(),
            ),
            FurDBError::ColumnOverflow => ErrorResponse::BadRequest(
                "Value does not fit in its column".to_owned(),
            ),
            FurDBError::InvalidIndex => ErrorResponse::BadRequest(
                "Entry index out of range".to_owned(),
            ),
            FurDBError::InvalidColumn => ErrorResponse::BadRequest(
                "Column index out of range".to_owned(),
            ),
        }
    }
}

/// The message that answers an error of the engine.
pub open spec fn error_message(error: FurDBError) -> Seq<char> {
    match error {
        FurDBError::InvalidId => "Invalid ID: only ASCII letters, digits, `_` and `-` are allowed"@,
        FurDBError::DatabaseNotFound => "Database not found"@,
        FurDBError::DatabaseExists => "Database already exists"@,
        FurDBError::TableNotFound => "Table not found"@,
        FurDBError::TableExists => "Table already exists"@,
        FurDBError::ColumnsUnfit => "Columns must each be at most 128 bits wide and fill a whole, non-zero number of bytes"@,
        FurDBError::ColumnMismatch => "Entry does not have one value per column"@,
        FurDBError::ColumnOverflow => "Value does not fit in its column"@,
        FurDBError::InvalidIndex => "Entry index out of range"@,
        FurDBError::InvalidColumn => "Column index out of range"@,
    }
}

} // verus!
