use agreed_time_backend::admission::{ParticipantAction, admission_decision};
use agreed_time_backend::error::{AppError, ValidationKind};
use agreed_time_backend::interval::TimeRangeRequest;
use agreed_time_backend::models::{CreateEventRequest, EventState, SubmitAvailabilityRequest};
use agreed_time_backend::validation::{
    MAX_PARTICIPANTS_PER_EVENT, plan_submission, prepare_event, validate_batch_tokens,
};

fn range(start_at: i64, end_at: i64) -> TimeRangeRequest {
    TimeRangeRequest { start_at, end_at }
}

fn create_request(time_slots: Vec<TimeRangeRequest>) -> CreateEventRequest {
    CreateEventRequest {
        title: "Team Meeting".to_string(),
        description: Some("Discuss Q1 plans".to_string()),
        organizer_name: "Alice".to_string(),
        time_zone: Some("UTC".to_string()),
        slot_duration: None,
        time_slots,
    }
}

fn submit_request(name: &str, availabilities: Vec<TimeRangeRequest>) -> SubmitAvailabilityRequest {
    SubmitAvailabilityRequest {
        participant_name: name.to_string(),
        availabilities,
        comment: None,
    }
}

#[test]
fn test_prepare_event_happy_path() {
    let req = create_request(vec![range(3000, 4000), range(1000, 2000)]);
    let prepared = prepare_event(req).unwrap();

    assert_eq!(prepared.event.title, "Team Meeting");
    assert_eq!(prepared.event.description.as_deref(), Some("Discuss Q1 plans"));
    assert_eq!(prepared.event.state, EventState::Open);
    assert_eq!(prepared.event.slot_duration, 60);
    assert_eq!(prepared.event.created_at, prepared.event.updated_at);
    assert_eq!(prepared.event.public_token.len(), 36);
    assert_eq!(prepared.event.organizer_token.len(), 36);
    assert_ne!(prepared.event.public_token, prepared.event.organizer_token);
    assert_eq!(prepared.organizer_name, "Alice");
    assert_eq!(prepared.merged_slots, vec![range(1000, 2000), range(3000, 4000)]);
}

#[test]
fn test_prepare_event_merges_overlapping_slots() {
    let req = create_request(vec![range(1000, 3000), range(2000, 4000)]);
    let prepared = prepare_event(req).unwrap();
    assert_eq!(prepared.merged_slots, vec![range(1000, 4000)]);
}

#[test]
fn test_prepare_event_requires_slots() {
    let err = prepare_event(create_request(Vec::new())).unwrap_err();
    assert_eq!(err, AppError::BadRequest(ValidationKind::NoTimeSlots));
}

#[test]
fn test_prepare_event_rejects_inverted_range() {
    let err = prepare_event(create_request(vec![range(2000, 1000)])).unwrap_err();
    assert_eq!(err, AppError::BadRequest(ValidationKind::InvertedTimeRange));
    let err = prepare_event(create_request(vec![range(1000, 1000)])).unwrap_err();
    assert_eq!(err, AppError::BadRequest(ValidationKind::InvertedTimeRange));
}

#[test]
fn test_prepare_event_rejects_nonpositive_duration() {
    let mut req = create_request(vec![range(1000, 2000)]);
    req.slot_duration = Some(0);
    let err = prepare_event(req).unwrap_err();
    assert_eq!(err, AppError::BadRequest(ValidationKind::NonPositiveSlotDuration));
}

#[test]
fn test_prepare_event_keeps_requested_duration() {
    let mut req = create_request(vec![range(1000, 2000)]);
    req.slot_duration = Some(30);
    assert_eq!(prepare_event(req).unwrap().event.slot_duration, 30);
}

#[test]
fn test_input_length_validation_create_event() {
    let mut req = create_request(vec![range(1000, 2000)]);
    req.title = "a".repeat(101);
    let err = prepare_event(req).unwrap_err();
    assert_eq!(err, AppError::BadRequest(ValidationKind::OversizedField));

    let mut req = create_request(vec![range(1000, 2000)]);
    req.title = "a".repeat(100);
    assert!(prepare_event(req).is_ok());

    let mut req = create_request(vec![range(1000, 2000)]);
    req.organizer_name = "n".repeat(51);
    let err = prepare_event(req).unwrap_err();
    assert_eq!(err, AppError::BadRequest(ValidationKind::OversizedField));
}

#[test]
fn test_input_length_validation_submit_availability() {
    let req = submit_request(&"u".repeat(51), vec![range(1000, 2000)]);
    let err = plan_submission(EventState::Open, req, None, 0).unwrap_err();
    assert_eq!(err, AppError::BadRequest(ValidationKind::OversizedField));

    let mut req = submit_request("User", vec![range(1000, 2000)]);
    req.comment = Some("c".repeat(501));
    let err = plan_submission(EventState::Open, req, None, 0).unwrap_err();
    assert_eq!(err, AppError::BadRequest(ValidationKind::OversizedField));

    let mut req = submit_request("User", vec![range(1000, 2000)]);
    req.comment = Some("c".repeat(500));
    assert!(plan_submission(EventState::Open, req, None, 0).is_ok());
}

#[test]
fn test_plan_submission_blank_name_rejected() {
    let req = submit_request("  \t ", vec![range(1000, 2000)]);
    let err = plan_submission(EventState::Open, req, None, 0).unwrap_err();
    assert_eq!(err, AppError::BadRequest(ValidationKind::BlankParticipantName));
}

#[test]
fn test_plan_submission_rejects_closed_event() {
    let req = submit_request("Bob", vec![range(1000, 2000)]);
    let err = plan_submission(EventState::Closed, req, None, 0).unwrap_err();
    assert_eq!(err, AppError::BadRequest(ValidationKind::EventClosed));
}

#[test]
fn test_plan_submission_rejects_inverted_range() {
    let req = submit_request("Bob", vec![range(1000, 2000), range(900, 100)]);
    let err = plan_submission(EventState::Open, req, None, 0).unwrap_err();
    assert_eq!(err, AppError::BadRequest(ValidationKind::InvertedTimeRange));
}

#[test]
fn test_plan_submission_merges_availabilities() {
    let req = submit_request("Bob", vec![range(1000, 3000), range(2000, 4000)]);
    let plan = plan_submission(EventState::Open, req, None, 0).unwrap();
    assert_eq!(plan.action, ParticipantAction::InsertNew);
    assert_eq!(plan.merged_availabilities, vec![range(1000, 4000)]);
}

#[test]
fn test_participant_limit() {
    // With max-1 existing participants a new submission succeeds.
    let req = submit_request("Guest 10", vec![range(1000, 2000)]);
    let plan = plan_submission(EventState::Open, req, None, MAX_PARTICIPANTS_PER_EVENT - 1);
    assert_eq!(plan.unwrap().action, ParticipantAction::InsertNew);

    // At the cap a new submission is denied with the configured limit.
    let req = submit_request("Guest 11", vec![range(1000, 2000)]);
    let err = plan_submission(EventState::Open, req, None, MAX_PARTICIPANTS_PER_EVENT).unwrap_err();
    assert_eq!(err, AppError::ParticipantLimitReached(10));
    assert_eq!(err.code(), "PARTICIPANT_LIMIT_REACHED");

    // A resubmission by an existing participant succeeds regardless.
    let req = submit_request("Guest 3", vec![range(1000, 2000)]);
    let plan = plan_submission(EventState::Open, req, Some(3), MAX_PARTICIPANTS_PER_EVENT);
    assert_eq!(plan.unwrap().action, ParticipantAction::UpdateExisting(3));
}

#[test]
fn test_admission_decision_cases() {
    assert_eq!(admission_decision(None, 9, 10), Ok(ParticipantAction::InsertNew));
    assert_eq!(admission_decision(None, 10, 10), Err(AppError::ParticipantLimitReached(10)));
    assert_eq!(admission_decision(None, 11, 10), Err(AppError::ParticipantLimitReached(10)));
    assert_eq!(admission_decision(Some(7), 10, 10), Ok(ParticipantAction::UpdateExisting(7)));
    assert_eq!(admission_decision(Some(7), 0, 10), Ok(ParticipantAction::UpdateExisting(7)));
}

#[test]
fn test_batch_check_limit() {
    let tokens: Vec<String> = (0..51).map(|i| format!("token-{}", i)).collect();
    assert_eq!(
        validate_batch_tokens(&tokens),
        Err(AppError::BadRequest(ValidationKind::BatchTooLarge))
    );

    let tokens: Vec<String> = (0..50).map(|i| format!("token-{}", i)).collect();
    assert_eq!(validate_batch_tokens(&tokens), Ok(()));
}
