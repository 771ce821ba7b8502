//! Validation and planning of writes: event creation and availability
//! submission. Each function rejects invalid input before any
//! persistence work, with the cause pinned down exactly, and hands back
//! everything the persistence step needs.

use vstd::prelude::*;
use vstd::string::StrSliceExecFns;

use crate::admission::{ParticipantAction, admission_decision};
use crate::clock::now_timestamp;
use crate::error::{AppError, ValidationKind};
use crate::interval::{TimeRangeRequest, all_ranges_valid, is_merge_of, merge_time_ranges,
    range_valid};
use crate::models::{CreateEventRequest, Event, EventState, SubmitAvailabilityRequest};
use crate::token::{generate_token, new_event_id};

verus! {

/// Participants permitted per event, the organizer included.
pub const MAX_PARTICIPANTS_PER_EVENT: i64 = 10;

/// Slot duration in minutes when the creation request names none.
pub const DEFAULT_SLOT_DURATION: i32 = 60;

/// Maximum length of an event title, in characters.
pub const MAX_TITLE_LEN: usize = 100;

/// Maximum length of a display name, in characters.
pub const MAX_NAME_LEN: usize = 50;

/// Maximum length of a participant comment, in characters.
pub const MAX_COMMENT_LEN: usize = 500;

/// Maximum number of tokens in one batch status request.
pub const MAX_BATCH_TOKENS: usize = 50;

pub open spec fn is_blank_char(c: char) -> bool {
    c == ' ' || c == '\t' || c == '\n' || c == '\r'
}

/// A string is blank when every character is whitespace.
pub open spec fn is_blank(s: Seq<char>) -> bool {
    forall|i: int| 0 <= i < s.len() ==> is_blank_char(#[trigger] s[i])
}

fn is_blank_exec(s: &str) -> (blank: bool)
    ensures
        blank == is_blank(s@),
{
    let n = s.unicode_len();
    let mut i: usize = 0;
    while i < n
        invariant
            0 <= i <= n,
            n == s@.len(),
            forall|j: int| 0 <= j < i ==> is_blank_char(#[trigger] s@[j]),
        decreases n - i,
    {
        let c = s.get_char(i);
        if !(c == ' ' || c == '\t' || c == '\n' || c == '\r') {
            return false;
        }
        i += 1;
    }
    true
}

/// The slot duration an event is created with.
pub open spec fn spec_slot_duration(requested: Option<i32>) -> int {
    match requested {
        Some(d) => d as int,
        None => DEFAULT_SLOT_DURATION as int,
    }
}

/// Why a creation request is rejected, or `None` when it is accepted.
/// The checks run in this order; the first failure wins.
pub open spec fn create_event_error(req: CreateEventRequest) -> Option<AppError> {
    if req.time_slots@.len() == 0 {
        Some(AppError::BadRequest(ValidationKind::NoTimeSlots))
    } else if !all_ranges_valid(req.time_slots@) {
        Some(AppError::BadRequest(ValidationKind::InvertedTimeRange))
    } else if spec_slot_duration(req.slot_duration) <= 0 {
        Some(AppError::BadRequest(ValidationKind::NonPositiveSlotDuration))
    } else if req.title@.len() > MAX_TITLE_LEN {
        Some(AppError::BadRequest(ValidationKind::OversizedField))
    } else if req.organizer_name@.len() > MAX_NAME_LEN {
        Some(AppError::BadRequest(ValidationKind::OversizedField))
    } else {
        None
    }
}

/// Everything the persistence step needs to create an event in one unit
/// of work: the event row, the organizer's name, and the merged slots,
/// which double as the organizer's initial availability.
#[derive(Debug)]
pub struct PreparedEvent {
    pub event: Event,
    pub organizer_name: String,
    pub merged_slots: Vec<TimeRangeRequest>,
}

/// Validates a creation request and prepares the new event: fresh
/// identity and tokens, open state, the requested or default slot
/// duration, and the candidate slots in merged form.
pub fn prepare_event(req: CreateEventRequest) -> (prepared: Result<PreparedEvent, AppError>)
    ensures
        match prepared {
            Err(e) => create_event_error(req) == Some(e),
            Ok(p) => {
                &&& create_event_error(req) is None
                &&& p.event.wf()
                &&& p.event.title == req.title
                &&& p.event.description == req.description
                &&& p.event.time_zone == req.time_zone
                &&& p.event.state == EventState::Open
                &&& p.event.slot_duration == spec_slot_duration(req.slot_duration)
                &&& p.event.created_at == p.event.updated_at
                &&& p.event.public_token@.len() == 36
                &&& p.event.organizer_token@.len() == 36
                &&& p.organizer_name == req.organizer_name
                &&& is_merge_of(req.time_slots@, p.merged_slots@)
            },
        },
{
    if req.time_slots.len() == 0 {
        return Err(AppError::BadRequest(ValidationKind::NoTimeSlots));
    }
    let mut i: usize = 0;
    while i < req.time_slots.len()
        invariant
            0 <= i <= req.time_slots@.len(),
            forall|j: int| 0 <= j < i ==> range_valid(#[trigger] req.time_slots@[j]),
        decreases req.time_slots@.len() - i,
    {
        if req.time_slots[i].start_at >= req.time_slots[i].end_at {
            return Err(AppError::BadRequest(ValidationKind::InvertedTimeRange));
        }
        i += 1;
    }
    let slot_duration = match req.slot_duration {
        Some(d) => d,
        None => DEFAULT_SLOT_DURATION,
    };
    if slot_duration <= 0 {
        return Err(AppError::BadRequest(ValidationKind::NonPositiveSlotDuration));
    }
    if req.title.as_str().unicode_len() > MAX_TITLE_LEN {
        return Err(AppError::BadRequest(ValidationKind::OversizedField));
    }
    if req.organizer_name.as_str().unicode_len() > MAX_NAME_LEN {
        return Err(AppError::BadRequest(ValidationKind::OversizedField));
    }

    let now = now_timestamp();
    let merged_slots = merge_time_ranges(req.time_slots);
    let event = Event {
        id: new_event_id(),
        public_token: generate_token(),
        organizer_token: generate_token(),
        title: req.title,
        description: req.description,
        state: EventState::Open,
        time_zone: req.time_zone,
        slot_duration,
        created_at: now,
        updated_at: now,
    };
    Ok(PreparedEvent { event, organizer_name: req.organizer_name, merged_slots })
}

/// Why a submission is rejected, or `None` when it is accepted. The
/// checks run in this order; the first failure wins. `existing` is the
/// identity of the participant already holding the submitted name (or
/// token), read in the same transaction as `current_count`.
pub open spec fn submission_error(
    event_state: EventState,
    req: SubmitAvailabilityRequest,
    existing: Option<i64>,
    current_count: i64,
) -> Option<AppError> {
    if event_state != EventState::Open {
        Some(AppError::BadRequest(ValidationKind::EventClosed))
    } else if is_blank(req.participant_name@) {
        Some(AppError::BadRequest(ValidationKind::BlankParticipantName))
    } else if req.participant_name@.len() > MAX_NAME_LEN {
        Some(AppError::BadRequest(ValidationKind::OversizedField))
    } else if match req.comment {
        Some(c) => c@.len() > MAX_COMMENT_LEN,
        None => false,
    } {
        Some(AppError::BadRequest(ValidationKind::OversizedField))
    } else if !all_ranges_valid(req.availabilities@) {
        Some(AppError::BadRequest(ValidationKind::InvertedTimeRange))
    } else if existing is None && current_count >= MAX_PARTICIPANTS_PER_EVENT {
        Some(AppError::ParticipantLimitReached(MAX_PARTICIPANTS_PER_EVENT as i64))
    } else {
        None
    }
}

/// Everything the persistence step needs to apply a submission in one
/// transaction: whether to update the existing participant or insert a
/// new one, and the full replacement range list in merged form.
#[derive(Debug)]
pub struct SubmissionPlan {
    pub action: ParticipantAction,
    pub merged_availabilities: Vec<TimeRangeRequest>,
}

/// Validates an availability submission against the event state and the
/// participant cap, and plans the write: an existing participant is
/// updated in place whatever the count; a new one is admitted only
/// below the cap; the stored ranges are the submission in merged form.
pub fn plan_submission(
    event_state: EventState,
    req: SubmitAvailabilityRequest,
    existing: Option<i64>,
    current_count: i64,
) -> (plan: Result<SubmissionPlan, AppError>)
    ensures
        match plan {
            Err(e) => submission_error(event_state, req, existing, current_count) == Some(e),
            Ok(p) => {
                &&& submission_error(event_state, req, existing, current_count) is None
                &&& p.action == match existing {
                    Some(id) => ParticipantAction::UpdateExisting(id),
                    None => ParticipantAction::InsertNew,
                }
                &&& is_merge_of(req.availabilities@, p.merged_availabilities@)
            },
        },
{
    if !matches!(event_state, EventState::Open) {
        return Err(AppError::BadRequest(ValidationKind::EventClosed));
    }
    if is_blank_exec(req.participant_name.as_str()) {
        return Err(AppError::BadRequest(ValidationKind::BlankParticipantName));
    }
    if req.participant_name.as_str().unicode_len() > MAX_NAME_LEN {
        return Err(AppError::BadRequest(ValidationKind::OversizedField));
    }
    if let Some(comment) = &req.comment {
        if comment.as_str().unicode_len() > MAX_COMMENT_LEN {
            return Err(AppError::BadRequest(ValidationKind::OversizedField));
        }
    }
    let mut i: usize = 0;
    while i < req.availabilities.len()
        invariant
            0 <= i <= req.availabilities@.len(),
            forall|j: int| 0 <= j < i ==> range_valid(#[trigger] req.availabilities@[j]),
            event_state == EventState::Open,
            !is_blank(req.participant_name@),
            req.participant_name@.len() <= MAX_NAME_LEN,
            (match req.comment {
                Some(c) => c@.len() <= MAX_COMMENT_LEN,
                None => true,
            }),
        decreases req.availabilities@.len() - i,
    {
        if req.availabilities[i].start_at >= req.availabilities[i].end_at {
            return Err(AppError::BadRequest(ValidationKind::InvertedTimeRange));
        }
        i += 1;
    }
    let action = match admission_decision(existing, current_count, MAX_PARTICIPANTS_PER_EVENT) {
        Ok(action) => action,
        Err(e) => {
            return Err(e);
        },
    };
    let merged_availabilities = merge_time_ranges(req.availabilities);
    Ok(SubmissionPlan { action, merged_availabilities })
}

/// Why an update of a participant's name and comment is rejected, or
/// `None` when it is accepted. The checks run in this order; the first
/// failure wins.
pub open spec fn participant_update_error(
    name: Seq<char>,
    comment: Option<Seq<char>>,
) -> Option<AppError> {
    if is_blank(name) {
        Some(AppError::BadRequest(ValidationKind::BlankParticipantName))
    } else if name.len() > MAX_NAME_LEN {
        Some(AppError::BadRequest(ValidationKind::OversizedField))
    } else if match comment {
        Some(c) => c.len() > MAX_COMMENT_LEN,
        None => false,
    } {
        Some(AppError::BadRequest(ValidationKind::OversizedField))
    } else {
        None
    }
}

/// Validates the fields of a participant update: the display name may
/// not be blank or oversized, and a comment may not be oversized.
pub fn validate_participant_update(name: &String, comment: &Option<String>) -> (outcome: Result<
    (),
    AppError,
>)
    ensures
        outcome == match participant_update_error(
            name@,
            match comment {
                Some(c) => Some(c@),
                None => None,
            },
        ) {
            Some(e) => Err::<(), AppError>(e),
            None => Ok::<(), AppError>(()),
        },
{
    if is_blank_exec(name.as_str()) {
        return Err(AppError::BadRequest(ValidationKind::BlankParticipantName));
    }
    if name.as_str().unicode_len() > MAX_NAME_LEN {
        return Err(AppError::BadRequest(ValidationKind::OversizedField));
    }
    if let Some(comment_text) = comment {
        if comment_text.as_str().unicode_len() > MAX_COMMENT_LEN {
            return Err(AppError::BadRequest(ValidationKind::OversizedField));
        }
    }
    Ok(())
}

/// Accepts a batch status request only up to the configured number of
/// tokens.
pub fn validate_batch_tokens(tokens: &Vec<String>) -> (outcome: Result<(), AppError>)
    ensures
        outcome == if tokens@.len() > MAX_BATCH_TOKENS {
            Err::<(), AppError>(AppError::BadRequest(ValidationKind::BatchTooLarge))
        } else {
            Ok::<(), AppError>(())
        },
{
    if tokens.len() > MAX_BATCH_TOKENS {
        Err(AppError::BadRequest(ValidationKind::BatchTooLarge))
    } else {
        Ok(())
    }
}

} // verus!
