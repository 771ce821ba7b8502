//! Admission control: the per-event participant cap.
//!
//! The decision is taken against a participant count read under the
//! persistence layer's per-event transactional exclusion, so that two
//! concurrent submissions cannot both observe a count below the cap.

use vstd::prelude::*;

use crate::error::AppError;

verus! {

/// What a submission does to the participant table.
#[derive(Clone, Copy, Debug, PartialEq, Eq, Structural)]
pub enum ParticipantAction {
    /// The submitter already exists (matched by name or token); update
    /// it in place. Carries the existing participant's identity.
    UpdateExisting(i64),
    /// Insert the submitter as a new participant.
    InsertNew,
}

/// Decides a submission against the participant cap: a resubmission by
/// an existing participant always updates in place, regardless of the
/// count; a new participant is admitted exactly when the current count
/// is below the cap, and otherwise denied with the configured limit.
pub fn admission_decision(
    existing: Option<i64>,
    current_count: i64,
    max_participants: i64,
) -> (decision: Result<ParticipantAction, AppError>)
    ensures
        decision == match existing {
            Some(id) => Ok::<ParticipantAction, AppError>(ParticipantAction::UpdateExisting(id)),
            None => if current_count >= max_participants {
                Err::<ParticipantAction, AppError>(
                    AppError::ParticipantLimitReached(max_participants),
                )
            } else {
                Ok::<ParticipantAction, AppError>(ParticipantAction::InsertNew)
            },
        },
{
    match existing {
        Some(id) => Ok(ParticipantAction::UpdateExisting(id)),
        None => {
            if current_count >= max_participants {
                Err(AppError::ParticipantLimitReached(max_participants))
            } else {
                Ok(ParticipantAction::InsertNew)
            }
        },
    }
}

} // verus!
