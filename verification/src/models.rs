//! The data model: events, candidate slots, and the request/response
//! shapes of the HTTP-facing surface. Identifiers are plain integers
//! and instants are seconds since the Unix epoch; the transport layer
//! converts to and from its own types at the boundary.

use vstd::prelude::*;

use crate::aggregate::ParticipantAvailability;
use crate::interval::TimeRangeRequest;

verus! {

/// The lifecycle state of an event: created open, closed once, never
/// reopened.
#[derive(Clone, Copy, Debug, PartialEq, Eq, Structural)]
pub enum EventState {
    Open,
    Closed,
}

/// One scheduling poll.
#[derive(Clone, Debug)]
pub struct Event {
    pub id: u128,
    pub public_token: String,
    pub organizer_token: String,
    pub title: String,
    pub description: Option<String>,
    pub state: EventState,
    pub time_zone: Option<String>,
    /// Positive number of minutes.
    pub slot_duration: i32,
    pub created_at: i64,
    pub updated_at: i64,
}

impl Event {
    /// A well-formed event has a positive slot duration.
    pub open spec fn wf(self) -> bool {
        self.slot_duration > 0
    }

    /// The one permitted mutation: the open-to-closed transition. Every
    /// other field is kept; the update instant is recorded.
    pub fn close(&mut self, now: i64)
        ensures
            final(self).state == EventState::Closed,
            final(self).updated_at == now,
            final(self).id == old(self).id,
            final(self).public_token == old(self).public_token,
            final(self).organizer_token == old(self).organizer_token,
            final(self).title == old(self).title,
            final(self).description == old(self).description,
            final(self).time_zone == old(self).time_zone,
            final(self).slot_duration == old(self).slot_duration,
            final(self).created_at == old(self).created_at,
    {
        self.state = EventState::Closed;
        self.updated_at = now;
    }
}

/// A candidate window proposed by the organizer at creation; immutable
/// afterwards.
#[derive(Clone, Copy, Debug, PartialEq, Eq, Structural)]
pub struct EventSlot {
    pub id: i64,
    pub event_id: u128,
    pub start_at: i64,
    pub end_at: i64,
}

#[derive(Clone, Debug)]
pub struct CreateEventRequest {
    pub title: String,
    pub description: Option<String>,
    pub organizer_name: String,
    pub time_zone: Option<String>,
    pub slot_duration: Option<i32>,
    pub time_slots: Vec<TimeRangeRequest>,
}

#[derive(Clone, Debug)]
pub struct CreateEventResponse {
    pub id: u128,
    pub public_token: String,
    pub organizer_token: String,
}

#[derive(Clone, Debug)]
pub struct SubmitAvailabilityRequest {
    pub participant_name: String,
    pub availabilities: Vec<TimeRangeRequest>,
    pub comment: Option<String>,
}

#[derive(Clone, Debug)]
pub struct EventResponse {
    pub id: u128,
    pub title: String,
    pub description: Option<String>,
    pub time_zone: Option<String>,
    pub slot_duration: i32,
    pub state: EventState,
    pub event_slots: Vec<EventSlot>,
    pub organizer_name: String,
}

#[derive(Clone, Debug)]
pub struct EventResultsResponse {
    pub id: u128,
    pub title: String,
    pub description: Option<String>,
    pub time_zone: Option<String>,
    pub slot_duration: i32,
    pub state: EventState,
    pub event_slots: Vec<EventSlot>,
    pub participants: Vec<ParticipantAvailability>,
    pub total_participants: i64,
}

#[derive(Clone, Debug)]
pub struct OrganizerEventResponse {
    pub id: u128,
    pub public_token: String,
    pub organizer_token: String,
    pub title: String,
    pub description: Option<String>,
    pub time_zone: Option<String>,
    pub slot_duration: i32,
    pub state: EventState,
    pub event_slots: Vec<EventSlot>,
    pub participants: Vec<ParticipantAvailability>,
    pub total_participants: i64,
    pub created_at: i64,
}

/// The creation response: the new event's identity and both capability
/// tokens.
pub fn to_create_response(event: &Event) -> (response: CreateEventResponse)
    ensures
        response.id == event.id,
        response.public_token == event.public_token,
        response.organizer_token == event.organizer_token,
{
    CreateEventResponse {
        id: event.id,
        public_token: event.public_token.clone(),
        organizer_token: event.organizer_token.clone(),
    }
}

/// The public view of an event: its fields, its candidate slots, and
/// the organizer's display name; tokens stay private.
pub fn build_event_response(
    event: Event,
    event_slots: Vec<EventSlot>,
    organizer_name: String,
) -> (response: EventResponse)
    ensures
        response.id == event.id,
        response.title == event.title,
        response.description == event.description,
        response.time_zone == event.time_zone,
        response.slot_duration == event.slot_duration,
        response.state == event.state,
        response.event_slots == event_slots,
        response.organizer_name == organizer_name,
{
    EventResponse {
        id: event.id,
        title: event.title,
        description: event.description,
        time_zone: event.time_zone,
        slot_duration: event.slot_duration,
        state: event.state,
        event_slots,
        organizer_name,
    }
}

/// The public results view: the event, its slots, the aggregated
/// participants in aggregation order, and the distinct-participant
/// count.
pub fn build_event_results_response(
    event: Event,
    event_slots: Vec<EventSlot>,
    participants: Vec<ParticipantAvailability>,
) -> (response: EventResultsResponse)
    requires
        participants@.len() <= i64::MAX,
    ensures
        response.id == event.id,
        response.title == event.title,
        response.description == event.description,
        response.time_zone == event.time_zone,
        response.slot_duration == event.slot_duration,
        response.state == event.state,
        response.event_slots == event_slots,
        response.participants == participants,
        response.total_participants == participants@.len(),
{
    let total_participants = participants.len() as i64;
    EventResultsResponse {
        id: event.id,
        title: event.title,
        description: event.description,
        time_zone: event.time_zone,
        slot_duration: event.slot_duration,
        state: event.state,
        event_slots,
        participants,
        total_participants,
    }
}

/// The organizer's results view: as the public one, with both tokens
/// and the creation instant.
pub fn build_organizer_event_response(
    event: Event,
    event_slots: Vec<EventSlot>,
    participants: Vec<ParticipantAvailability>,
) -> (response: OrganizerEventResponse)
    requires
        participants@.len() <= i64::MAX,
    ensures
        response.id == event.id,
        response.public_token == event.public_token,
        response.organizer_token == event.organizer_token,
        response.title == event.title,
        response.description == event.description,
        response.time_zone == event.time_zone,
        response.slot_duration == event.slot_duration,
        response.state == event.state,
        response.event_slots == event_slots,
        response.participants == participants,
        response.total_participants == participants@.len(),
        response.created_at == event.created_at,
{
    let total_participants = participants.len() as i64;
    OrganizerEventResponse {
        id: event.id,
        public_token: event.public_token,
        organizer_token: event.organizer_token,
        title: event.title,
        description: event.description,
        time_zone: event.time_zone,
        slot_duration: event.slot_duration,
        state: event.state,
        event_slots,
        participants,
        total_participants,
        created_at: event.created_at,
    }
}

} // verus!
