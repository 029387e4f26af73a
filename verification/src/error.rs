use vstd::prelude::*;

verus! {

/// The stable error classes every boundary reports.
#[derive(Debug, Clone, Copy, PartialEq, Eq, Structural, Hash)]
pub enum ErrorCode {
    InvalidRequest,
    Unauthorized,
    Forbidden,
    NotFound,
    Conflict,
    NotReady,
    CapabilityMissing,
    DependencyUnavailable,
    Internal,
}

/// The HTTP status each error class maps to.
pub open spec fn status_of(code: ErrorCode) -> u16 {
    match code {
        ErrorCode::InvalidRequest => 400,
        ErrorCode::Unauthorized => 401,
        ErrorCode::Forbidden => 403,
        ErrorCode::NotFound => 404,
        ErrorCode::Conflict => 409,
        ErrorCode::NotReady => 503,
        ErrorCode::CapabilityMissing => 503,
        ErrorCode::DependencyUnavailable => 503,
        ErrorCode::Internal => 500,
    }
}

/// Whether a client may retry a request that failed with this class.
pub open spec fn is_retryable(code: ErrorCode) -> bool {
    code == ErrorCode::NotReady || code == ErrorCode::CapabilityMissing
        || code == ErrorCode::DependencyUnavailable
}

impl ErrorCode {
    pub fn default_status(self) -> (status: u16)
        ensures
            status == status_of(self),
    {
        match self {
            ErrorCode::InvalidRequest => 400,
            ErrorCode::Unauthorized => 401,
            ErrorCode::Forbidden => 403,
            ErrorCode::NotFound => 404,
            ErrorCode::Conflict => 409,
            ErrorCode::NotReady => 503,
            ErrorCode::CapabilityMissing => 503,
            ErrorCode::DependencyUnavailable => 503,
            ErrorCode::Internal => 500,
        }
    }

    pub fn retryable(self) -> (retryable: bool)
        ensures
            retryable == is_retryable(self),
    {
        match self {
            ErrorCode::NotReady | ErrorCode::CapabilityMissing | ErrorCode::DependencyUnavailable => true,
            _ => false,
        }
    }

    /// The wire name of the class.
    pub fn as_str(self) -> (name: &'static str)
        ensures
            name@ == code_name(self),
    {
        match self {
            ErrorCode::InvalidRequest => "invalid_request",
            ErrorCode::Unauthorized => "unauthorized",
            ErrorCode::Forbidden => "forbidden",
            ErrorCode::NotFound => "not_found",
            ErrorCode::Conflict => "conflict",
            ErrorCode::NotReady => "not_ready",
            ErrorCode::CapabilityMissing => "capability_missing",
            ErrorCode::DependencyUnavailable => "dependency_unavailable",
            ErrorCode::Internal => "internal",
        }
    }
}

pub open spec fn code_name(code: ErrorCode) -> Seq<char> {
    match code {
        ErrorCode::InvalidRequest => "invalid_request"@,
        ErrorCode::Unauthorized => "unauthorized"@,
        ErrorCode::Forbidden => "forbidden"@,
        ErrorCode::NotFound => "not_found"@,
        ErrorCode::Conflict => "conflict"@,
        ErrorCode::NotReady => "not_ready"@,
        ErrorCode::CapabilityMissing => "capability_missing"@,
        ErrorCode::DependencyUnavailable => "dependency_unavailable"@,
        ErrorCode::Internal => "internal"@,
    }
}

/// The one structured detail the domain attaches to an error: the field that
/// broke a limit and that limit.
#[derive(Debug)]
pub struct ErrorDetails {
    pub field: String,
    pub max: u64,
}

/// A typed application error.
#[derive(Debug)]
pub struct AppError {
    pub code: ErrorCode,
    pub message: String,
    pub details: Option<ErrorDetails>,
}

/// The abstract value of an error: its class, message and details.
pub struct ErrorV {
    pub code: ErrorCode,
    pub message: Seq<char>,
    pub details: Option<(Seq<char>, u64)>,
}

pub open spec fn err(code: ErrorCode, message: Seq<char>) -> ErrorV {
    ErrorV { code, message, details: None }
}

impl View for AppError {
    type V = ErrorV;

    open spec fn view(&self) -> ErrorV {
        ErrorV {
            code: self.code,
            message: self.message@,
            details: match self.details {
                Some(d) => Some((d.field@, d.max)),
                None => None,
            },
        }
    }
}

impl ErrorDetails {
    pub fn copy(&self) -> (r: Self)
        ensures
            r == *self,
    {
        ErrorDetails { field: self.field.clone(), max: self.max }
    }
}

impl AppError {
    pub fn new(code: ErrorCode, message: &str) -> (e: Self)
        ensures
            e@ == err(code, message@),
    {
        AppError { code, message: message.to_owned(), details: None }
    }

    pub fn with_message(code: ErrorCode, message: String) -> (e: Self)
        ensures
            e@ == err(code, message@),
    {
        AppError { code, message, details: None }
    }

    pub fn invalid_request(message: &str) -> (e: Self)
        ensures
            e@ == err(ErrorCode::InvalidRequest, message@),
    {
        Self::new(ErrorCode::InvalidRequest, message)
    }

    pub fn conflict(message: &str) -> (e: Self)
        ensures
            e@ == err(ErrorCode::Conflict, message@),
    {
        Self::new(ErrorCode::Conflict, message)
    }

    pub fn not_found(message: &str) -> (e: Self)
        ensures
            e@ == err(ErrorCode::NotFound, message@),
    {
        Self::new(ErrorCode::NotFound, message)
    }

    pub fn unauthorized(message: &str) -> (e: Self)
        ensures
            e@ == err(ErrorCode::Unauthorized, message@),
    {
        Self::new(ErrorCode::Unauthorized, message)
    }

    pub fn forbidden(message: &str) -> (e: Self)
        ensures
            e@ == err(ErrorCode::Forbidden, message@),
    {
        Self::new(ErrorCode::Forbidden, message)
    }

    pub fn not_ready(message: &str) -> (e: Self)
        ensures
            e@ == err(ErrorCode::NotReady, message@),
    {
        Self::new(ErrorCode::NotReady, message)
    }

    pub fn capability_missing(message: &str) -> (e: Self)
        ensures
            e@ == err(ErrorCode::CapabilityMissing, message@),
    {
        Self::new(ErrorCode::CapabilityMissing, message)
    }

    /// Attaches the field and limit a rejected value broke.
    pub fn with_details(self, field: &str, max: u64) -> (e: Self)
        ensures
            e@ == (ErrorV { details: Some((field@, max)), ..self@ }),
    {
        AppError {
            code: self.code,
            message: self.message,
            details: Some(ErrorDetails { field: field.to_owned(), max }),
        }
    }

    pub fn copy(&self) -> (r: Self)
        ensures
            r == *self,
    {
        AppError {
            code: self.code,
            message: self.message.clone(),
            details: match &self.details {
                Some(d) => Some(d.copy()),
                None => None,
            },
        }
    }
}

} // verus!
