//! Which parsed lines become join / leave notifications.

use vstd::prelude::*;
use crate::log::LogLine;
use crate::text::{chars_of, string_of};
use crate::vrc::{event_view, Event, EventModel};

verus! {

/// How long after a room change player joins and leaves are not notified,
/// in milliseconds.
pub const ROOM_CHANGE_GRACE_MILLIS: i64 = 5000;

/// Decides, line by line, which events to notify.
#[derive(Debug)]
pub struct NotificationSuppressor {
    /// Length of the quiet period after a room change, in milliseconds.
    pub grace_millis: i64,
    /// Clock reading (milliseconds) until which joins and leaves are quiet.
    pub suppress_until: Option<i128>,
    /// The name of the local user, once an authentication was seen.
    pub self_name: Option<String>,
}

/// The state of a [`NotificationSuppressor`].
pub struct SuppressorState {
    pub grace: int,
    pub suppress_until: Option<int>,
    pub self_name: Option<Seq<char>>,
}

impl View for NotificationSuppressor {
    type V = SuppressorState;

    open spec fn view(&self) -> SuppressorState {
        SuppressorState {
            grace: self.grace_millis as int,
            suppress_until: match self.suppress_until {
                Some(u) => Some(u as int),
                None => None,
            },
            self_name: match self.self_name {
                Some(n) => Some(n@),
                None => None,
            },
        }
    }
}

/// The state after a line with event `e`, read at clock reading `now`.
/// Lines of a first read only teach the local user's name.
pub open spec fn step(s: SuppressorState, e: Option<EventModel>, first_read: bool, now: int) -> SuppressorState {
    let self_name = match e {
        Some(EventModel::UserAuthenticated(n)) => Some(n),
        _ => s.self_name,
    };
    let suppress_until = match e {
        Some(EventModel::OnJoinedRoom) | Some(EventModel::OnLeftRoom) => if first_read {
            s.suppress_until
        } else {
            Some(now + s.grace)
        },
        _ => s.suppress_until,
    };
    SuppressorState { grace: s.grace, suppress_until, self_name }
}

/// Whether the quiet period after a room change still runs at `now`.
pub open spec fn quiet(s: SuppressorState, now: int) -> bool {
    s.suppress_until matches Some(u) && now < u
}

/// The title of the notification for a line with event `e`, given the state
/// after that line.
pub open spec fn notification(s: SuppressorState, e: Option<EventModel>, first_read: bool, now: int) -> Option<Seq<char>> {
    if first_read || quiet(s, now) {
        None
    } else {
        match e {
            Some(EventModel::OnPlayerJoined(n)) => if s.self_name == Some(n) {
                None
            } else {
                Some(n + " joined."@)
            },
            Some(EventModel::OnPlayerLeft(n)) => if s.self_name == Some(n) {
                None
            } else {
                Some(n + " left."@)
            },
            _ => None,
        }
    }
}

fn title_with(name: &String, suffix: &str) -> (r: String)
    ensures
        r@ == name@ + suffix@,
{
    let mut v = chars_of(name.as_str());
    let s = chars_of(suffix);
    let mut k: usize = 0;
    let ghost start = v@;
    while k < s.len()
        invariant
            k <= s@.len(),
            v@ =~= start + s@.subrange(0, k as int),
        decreases s.len() - k,
    {
        v.push(s[k]);
        k = k + 1;
    }
    assert(s@.subrange(0, s@.len() as int) =~= s@);
    string_of(&v)
}

fn same_name(a: &Option<String>, b: &String) -> (r: bool)
    ensures
        r == (match a {
            Some(n) => Some(n@),
            None => None::<Seq<char>>,
        } == Some(b@)),
{
    match a {
        Some(n) => n.eq(b),
        None => false,
    }
}

impl NotificationSuppressor {
    /// A suppressor with a quiet period of `grace_millis` after each room
    /// change, no period running and no local user known.
    pub fn new(grace_millis: i64) -> (r: Self)
        ensures
            r@.grace == grace_millis,
            r@.suppress_until is None,
            r@.self_name is None,
    {
        NotificationSuppressor { grace_millis, suppress_until: None, self_name: None }
    }

    /// Takes one parsed line, read at clock reading `now_millis`, and returns
    /// the title of the notification to show for it, if any.
    pub fn process_line(&mut self, line: &LogLine, is_first_read: bool, now_millis: i64) -> (r: Option<String>)
        ensures
            final(self)@ == step(old(self)@, event_view(line.event), is_first_read, now_millis as int),
            match r {
                Some(t) => Some(t@),
                None => None::<Seq<char>>,
            } == notification(final(self)@, event_view(line.event), is_first_read, now_millis as int),
    {
        match &line.event {
            Some(Event::UserAuthenticated { user_name }) => {
                self.self_name = Some(user_name.clone());
            },
            Some(Event::OnJoinedRoom) | Some(Event::OnLeftRoom) => {
                if !is_first_read {
                    self.suppress_until = Some(now_millis as i128 + self.grace_millis as i128);
                }
            },
            _ => {},
        }
        if is_first_read {
            return None;
        }
        let quiet = match self.suppress_until {
            Some(u) => (now_millis as i128) < u,
            None => false,
        };
        if quiet {
            return None;
        }
        match &line.event {
            Some(Event::OnPlayerJoined { user_name }) => {
                if same_name(&self.self_name, user_name) {
                    None
                } else {
                    Some(title_with(user_name, " joined."))
                }
            },
            Some(Event::OnPlayerLeft { user_name }) => {
                if same_name(&self.self_name, user_name) {
                    None
                } else {
                    Some(title_with(user_name, " left."))
                }
            },
            _ => None,
        }
    }
}

/// A join seen within the quiet period after entering a room is not
/// notified; once the period is over, the join of anyone but the local user
/// is notified with the title `<name> joined.`.
pub proof fn lemma_room_grace_period(s: SuppressorState, entered_at: int, seen_at: int, name: Seq<char>)
    ensures
        ({
            let after_room = step(s, Some(EventModel::OnJoinedRoom), false, entered_at);
            let join = Some(EventModel::OnPlayerJoined(name));
            &&& seen_at < entered_at + s.grace ==> notification(step(after_room, join, false, seen_at), join, false, seen_at) is None
            &&& seen_at >= entered_at + s.grace && s.self_name != Some(name) ==> notification(
                step(after_room, join, false, seen_at),
                join,
                false,
                seen_at,
            ) == Some(name + " joined."@)
        }),
{
}

/// Once the local user authenticated as `name`, no join or leave of `name`
/// is notified until another authentication is seen.
pub proof fn lemma_self_never_notified(
    s: SuppressorState,
    name: Seq<char>,
    e: Option<EventModel>,
    first_read: bool,
    now: int,
)
    ensures
        step(s, Some(EventModel::UserAuthenticated(name)), first_read, now).self_name == Some(name),
        !(e matches Some(EventModel::UserAuthenticated(_))) ==> step(s, e, first_read, now).self_name
            == s.self_name,
        s.self_name == Some(name) && (e == Some(EventModel::OnPlayerJoined(name)) || e == Some(
            EventModel::OnPlayerLeft(name),
        )) ==> notification(step(s, e, first_read, now), e, first_read, now) is None,
{
}

} // verus!
