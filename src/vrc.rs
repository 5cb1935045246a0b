//! The events that a log line can report.

use vstd::prelude::*;

verus! {

/// A lifecycle event read from one log line.
#[derive(Debug, Clone, PartialEq, Eq)]
pub enum Event {
    OnJoinedRoom,
    OnPlayerJoined { user_name: String },
    OnLeftRoom,
    OnPlayerLeft { user_name: String },
    UserAuthenticated { user_name: String },
}

/// The mathematical value of an [`Event`].
pub enum EventModel {
    OnJoinedRoom,
    OnPlayerJoined(Seq<char>),
    OnLeftRoom,
    OnPlayerLeft(Seq<char>),
    UserAuthenticated(Seq<char>),
}

impl View for Event {
    type V = EventModel;

    open spec fn view(&self) -> EventModel {
        match self {
            Event::OnJoinedRoom => EventModel::OnJoinedRoom,
            Event::OnPlayerJoined { user_name } => EventModel::OnPlayerJoined(user_name@),
            Event::OnLeftRoom => EventModel::OnLeftRoom,
            Event::OnPlayerLeft { user_name } => EventModel::OnPlayerLeft(user_name@),
            Event::UserAuthenticated { user_name } => EventModel::UserAuthenticated(user_name@),
        }
    }
}

/// The model of an optional event.
pub open spec fn event_view(e: Option<Event>) -> Option<EventModel> {
    match e {
        Some(ev) => Some(ev@),
        None => None,
    }
}

} // verus!
