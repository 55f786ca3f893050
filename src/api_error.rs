//! Errors reported to clients, with the text shown for each.
use vstd::prelude::*;
use vstd::string::StringExecFns;

verus! {

/// Errors reported to clients of the file-sharing service.
#[derive(Debug, Clone, PartialEq, Eq)]
pub enum ApiError {
    Unauthorized,
    Forbidden,
    InvalidCredentials,
    TokenExpired,
    MfaRequired,
    FileNotFound,
    FileAlreadyExists,
    InsufficientStorage,
    FileTooLarge,
    InvalidFileName,
    AccessDenied,
    SyncConflict,
    InvalidSyncToken,
    DeviceNotFound,
    WebDavMethodNotAllowed,
    WebDavPreconditionFailed,
    WebDavLocked,
    WebDavConflict,
    CalendarNotFound,
    EventNotFound,
    InvalidCalendarData,
    CalendarConflict,
    InternalError,
    ServiceUnavailable,
    DatabaseError,
    StorageError,
    NetworkError,
    ValidationError { field: String, message: String },
    InvalidRequest { message: String },
    RateLimitExceeded,
    Custom { code: String, message: String },
}

/// The text shown for an error.
pub open spec fn api_error_message(e: ApiError) -> Seq<char> {
    match e {
        ApiError::Unauthorized => "Unauthorized access"@,
        ApiError::Forbidden => "Access forbidden"@,
        ApiError::InvalidCredentials => "Invalid username or password"@,
        ApiError::TokenExpired => "Authentication token has expired"@,
        ApiError::MfaRequired => "Multi-factor authentication required"@,
        ApiError::FileNotFound => "File not found"@,
        ApiError::FileAlreadyExists => "File already exists"@,
        ApiError::InsufficientStorage => "Insufficient storage space"@,
        ApiError::FileTooLarge => "File is too large"@,
        ApiError::InvalidFileName => "Invalid file name"@,
        ApiError::AccessDenied => "Access denied"@,
        ApiError::SyncConflict => "Synchronization conflict detected"@,
        ApiError::InvalidSyncToken => "Invalid synchronization token"@,
        ApiError::DeviceNotFound => "Device not found"@,
        ApiError::WebDavMethodNotAllowed => "WebDAV method not allowed"@,
        ApiError::WebDavPreconditionFailed => "WebDAV precondition failed"@,
        ApiError::WebDavLocked => "Resource is locked"@,
        ApiError::WebDavConflict => "WebDAV conflict"@,
        ApiError::CalendarNotFound => "Calendar not found"@,
        ApiError::EventNotFound => "Event not found"@,
        ApiError::InvalidCalendarData => "Invalid calendar data"@,
        ApiError::CalendarConflict => "Calendar conflict"@,
        ApiError::InternalError => "Internal server error"@,
        ApiError::ServiceUnavailable => "Service temporarily unavailable"@,
        ApiError::DatabaseError => "Database error"@,
        ApiError::StorageError => "Storage error"@,
        ApiError::NetworkError => "Network error"@,
        ApiError::ValidationError { field, message } => "Validation error in field '"@ + field@ + "': "@
            + message@,
        ApiError::InvalidRequest { message } => "Invalid request: "@ + message@,
        ApiError::RateLimitExceeded => "Rate limit exceeded"@,
        ApiError::Custom { code, message } => code@ + ": "@ + message@,
    }
}

impl ApiError {
    /// The text shown for this error.
    pub fn message(&self) -> (r: String)
        ensures
            r@ == api_error_message(*self),
    {
        match self {
            ApiError::Unauthorized => String::from_str("Unauthorized access"),
            ApiError::Forbidden => String::from_str("Access forbidden"),
            ApiError::InvalidCredentials => String::from_str("Invalid username or password"),
            ApiError::TokenExpired => String::from_str("Authentication token has expired"),
            ApiError::MfaRequired => String::from_str("Multi-factor authentication required"),
            ApiError::FileNotFound => String::from_str("File not found"),
            ApiError::FileAlreadyExists => String::from_str("File already exists"),
            ApiError::InsufficientStorage => String::from_str("Insufficient storage space"),
            ApiError::FileTooLarge => String::from_str("File is too large"),
            ApiError::InvalidFileName => String::from_str("Invalid file name"),
            ApiError::AccessDenied => String::from_str("Access denied"),
            ApiError::SyncConflict => String::from_str("Synchronization conflict detected"),
            ApiError::InvalidSyncToken => String::from_str("Invalid synchronization token"),
            ApiError::DeviceNotFound => String::from_str("Device not found"),
            ApiError::WebDavMethodNotAllowed => String::from_str("WebDAV method not allowed"),
            ApiError::WebDavPreconditionFailed => String::from_str("WebDAV precondition failed"),
            ApiError::WebDavLocked => String::from_str("Resource is locked"),
            ApiError::WebDavConflict => String::from_str("WebDAV conflict"),
            ApiError::CalendarNotFound => String::from_str("Calendar not found"),
            ApiError::EventNotFound => String::from_str("Event not found"),
            ApiError::InvalidCalendarData => String::from_str("Invalid calendar data"),
            ApiError::CalendarConflict => String::from_str("Calendar conflict"),
            ApiError::InternalError => String::from_str("Internal server error"),
            ApiError::ServiceUnavailable => String::from_str("Service temporarily unavailable"),
            ApiError::DatabaseError => String::from_str("Database error"),
            ApiError::StorageError => String::from_str("Storage error"),
            ApiError::NetworkError => String::from_str("Network error"),
            ApiError::ValidationError { field, message } => {
                let mut text = String::from_str("Validation error in field '");
                text.append(field.as_str());
                text.append("': ");
                text.append(message.as_str());
                text
            },
            ApiError::InvalidRequest { message } => {
                let mut text = String::from_str("Invalid request: ");
                text.append(message.as_str());
                text
            },
            ApiError::RateLimitExceeded => String::from_str("Rate limit exceeded"),
            ApiError::Custom { code, message } => {
                let mut text = String::from_str(code.as_str());
                text.append(": ");
                text.append(message.as_str());
                text
            },
        }
    }
}

} // verus!
