//! The error taxonomy of the core: one case per kind, each carrying
//! exactly the data callers need. Validation failures are rejected
//! before any persistence work; infrastructure failures carry no
//! internal detail.

use vstd::prelude::*;

verus! {

/// The cause of a rejected request, named so that callers can render
/// the matching message.
#[derive(Clone, Copy, Debug, PartialEq, Eq, Structural)]
pub enum ValidationKind {
    /// An event needs at least one candidate time slot.
    NoTimeSlots,
    /// A submitted range does not satisfy `start_at < end_at`.
    InvertedTimeRange,
    /// The slot duration must be a positive number of minutes.
    NonPositiveSlotDuration,
    /// A participant name may not be empty or all whitespace.
    BlankParticipantName,
    /// A text field exceeds its configured maximum length.
    OversizedField,
    /// A batch status request names more tokens than permitted.
    BatchTooLarge,
    /// No writes are accepted once an event is closed.
    EventClosed,
}

#[derive(Clone, Copy, Debug, PartialEq, Eq, Structural)]
pub enum AppError {
    /// A persistence failure, surfaced as an opaque failure.
    Database,
    /// An unknown public or organizer token.
    NotFound,
    /// A request rejected before touching persistence.
    BadRequest(ValidationKind),
    /// The participant cap was reached; carries the configured limit.
    ParticipantLimitReached(i64),
}

impl AppError {
    /// The stable machine-readable code of this error.
    pub fn code(&self) -> (code: &'static str)
        ensures
            code@ == match self {
                AppError::Database => "INTERNAL_SERVER_ERROR"@,
                AppError::NotFound => "NOT_FOUND"@,
                AppError::BadRequest(_) => "BAD_REQUEST"@,
                AppError::ParticipantLimitReached(_) => "PARTICIPANT_LIMIT_REACHED"@,
            },
    {
        match self {
            AppError::Database => "INTERNAL_SERVER_ERROR",
            AppError::NotFound => "NOT_FOUND",
            AppError::BadRequest(_) => "BAD_REQUEST",
            AppError::ParticipantLimitReached(_) => "PARTICIPANT_LIMIT_REACHED",
        }
    }

    /// The HTTP status this error is reported under.
    pub fn http_status(&self) -> (status: u16)
        ensures
            status == match self {
                AppError::Database => 500u16,
                AppError::NotFound => 404u16,
                AppError::BadRequest(_) => 400u16,
                AppError::ParticipantLimitReached(_) => 400u16,
            },
    {
        match self {
            AppError::Database => 500,
            AppError::NotFound => 404,
            AppError::BadRequest(_) => 400,
            AppError::ParticipantLimitReached(_) => 400,
        }
    }
}

pub type AppResult<T> = Result<T, AppError>;

} // verus!
