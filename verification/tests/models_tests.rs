use agreed_time_backend::aggregate::ParticipantAvailability;
use agreed_time_backend::error::{AppError, ValidationKind};
use agreed_time_backend::interval::TimeRangeRequest;
use agreed_time_backend::middleware::security_headers;
use agreed_time_backend::models::{
    Event, EventSlot, EventState, build_event_response, build_event_results_response,
    build_organizer_event_response, to_create_response,
};

fn sample_event() -> Event {
    Event {
        id: 7,
        public_token: "public123".to_string(),
        organizer_token: "organizer456".to_string(),
        title: "Planning Session".to_string(),
        description: Some("Discuss Q1 plans".to_string()),
        state: EventState::Open,
        time_zone: Some("UTC".to_string()),
        slot_duration: 60,
        created_at: 1000,
        updated_at: 1000,
    }
}

fn sample_slot() -> EventSlot {
    EventSlot { id: 1, event_id: 7, start_at: 1678886400, end_at: 1678890000 }
}

fn sample_participant(name: &str, is_organizer: bool) -> ParticipantAvailability {
    ParticipantAvailability {
        name: name.to_string(),
        is_organizer,
        comment: None,
        availabilities: vec![TimeRangeRequest { start_at: 1678886400, end_at: 1678890000 }],
    }
}

#[test]
fn test_create_event_response_fields() {
    let response = to_create_response(&sample_event());
    assert_eq!(response.id, 7);
    assert_eq!(response.public_token, "public123");
    assert_eq!(response.organizer_token, "organizer456");
}

#[test]
fn test_event_response_fields() {
    let response = build_event_response(sample_event(), vec![sample_slot()], "Alice".to_string());
    assert_eq!(response.id, 7);
    assert_eq!(response.title, "Planning Session");
    assert_eq!(response.slot_duration, 60);
    assert_eq!(response.state, EventState::Open);
    assert_eq!(response.event_slots, vec![sample_slot()]);
    assert_eq!(response.organizer_name, "Alice");
}

#[test]
fn test_event_results_response_structure() {
    let participants = vec![sample_participant("Alice", true), sample_participant("Bob", false)];
    let response = build_event_results_response(sample_event(), vec![sample_slot()], participants);
    assert_eq!(response.total_participants, 2);
    assert_eq!(response.participants.len(), 2);
    assert_eq!(response.participants[0].name, "Alice");
    assert!(response.participants[0].is_organizer);
    assert_eq!(response.participants[1].name, "Bob");
    assert!(!response.participants[1].is_organizer);
    assert_eq!(response.time_zone.as_deref(), Some("UTC"));
}

#[test]
fn test_organizer_event_response_includes_created_at() {
    let response = build_organizer_event_response(
        sample_event(),
        vec![sample_slot()],
        vec![sample_participant("Alice", true)],
    );
    assert_eq!(response.public_token, "public123");
    assert_eq!(response.organizer_token, "organizer456");
    assert_eq!(response.created_at, 1000);
    assert_eq!(response.total_participants, 1);
}

#[test]
fn test_event_close_transition() {
    let mut event = sample_event();
    event.close(2000);
    assert_eq!(event.state, EventState::Closed);
    assert_eq!(event.updated_at, 2000);
    assert_eq!(event.created_at, 1000);
    assert_eq!(event.title, "Planning Session");
}

#[test]
fn test_error_codes_and_statuses() {
    assert_eq!(AppError::Database.code(), "INTERNAL_SERVER_ERROR");
    assert_eq!(AppError::NotFound.code(), "NOT_FOUND");
    assert_eq!(AppError::BadRequest(ValidationKind::NoTimeSlots).code(), "BAD_REQUEST");
    assert_eq!(AppError::ParticipantLimitReached(10).code(), "PARTICIPANT_LIMIT_REACHED");

    assert_eq!(AppError::Database.http_status(), 500);
    assert_eq!(AppError::NotFound.http_status(), 404);
    assert_eq!(AppError::BadRequest(ValidationKind::BatchTooLarge).http_status(), 400);
    assert_eq!(AppError::ParticipantLimitReached(10).http_status(), 400);
}

#[test]
fn test_security_headers() {
    let headers = security_headers();
    assert_eq!(headers.len(), 2);
    assert_eq!(headers[0], ("X-Content-Type-Options", "nosniff"));
    assert_eq!(
        headers[1],
        ("Strict-Transport-Security", "max-age=31536000; includeSubDomains")
    );
}
