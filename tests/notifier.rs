use xsoverlay_vrc_notifier::log::LogLine;
use xsoverlay_vrc_notifier::notifier::{NotificationSuppressor, ROOM_CHANGE_GRACE_MILLIS};

fn line(body: &str) -> LogLine {
    let text = format!("2021.12.01 23:23:12 Log        -  {}", body);
    LogLine::from_line_with(&text, Some(0)).expect("well formed line")
}

#[test]
fn join_within_grace_period_is_quiet_and_after_it_is_notified() {
    let mut quiet = NotificationSuppressor::new(ROOM_CHANGE_GRACE_MILLIS);
    assert_eq!(quiet.process_line(&line("[Behaviour] Finished entering world"), false, 1_000), None);
    assert_eq!(quiet.process_line(&line("[Behaviour] OnPlayerJoined Bob"), false, 5_999), None);

    let mut late = NotificationSuppressor::new(ROOM_CHANGE_GRACE_MILLIS);
    assert_eq!(late.process_line(&line("[Behaviour] Finished entering world"), false, 1_000), None);
    assert_eq!(
        late.process_line(&line("[Behaviour] OnPlayerJoined Bob"), false, 6_000),
        Some("Bob joined.".to_owned())
    );
}

#[test]
fn own_joins_and_leaves_are_never_notified() {
    let mut s = NotificationSuppressor::new(ROOM_CHANGE_GRACE_MILLIS);
    assert_eq!(s.process_line(&line("[Behaviour] User Authenticated: Alice"), false, 0), None);
    assert_eq!(s.process_line(&line("[Behaviour] OnPlayerJoined Alice"), false, 100_000), None);
    assert_eq!(s.process_line(&line("[Behaviour] OnPlayerLeft Alice (usr_1)"), false, 100_001), None);
    assert_eq!(
        s.process_line(&line("[Behaviour] OnPlayerLeft Carol"), false, 100_002),
        Some("Carol left.".to_owned())
    );
}

#[test]
fn end_to_end_scenario() {
    let mut s = NotificationSuppressor::new(5_000);
    let lines = [
        ("[Behaviour] User Authenticated: Alice", 0),
        ("[Behaviour] Finished entering world.", 0),
        ("[Behaviour] OnPlayerJoined Alice", 0),
        ("[Behaviour] OnPlayerJoined Bob", 6_000),
    ];
    let titles: Vec<Option<String>> =
        lines.iter().map(|(b, t)| s.process_line(&line(b), false, *t)).collect();
    assert_eq!(titles, vec![None, None, None, Some("Bob joined.".to_owned())]);
}

#[test]
fn first_read_never_notifies_but_learns_the_local_user() {
    let mut s = NotificationSuppressor::new(5_000);
    assert_eq!(s.process_line(&line("[Behaviour] User Authenticated: Alice"), true, 0), None);
    assert_eq!(s.process_line(&line("[Behaviour] OnPlayerJoined Bob"), true, 10_000), None);
    assert_eq!(s.process_line(&line("[Behaviour] OnLeftRoom"), true, 10_000), None);
    assert_eq!(s.suppress_until, None);
    assert_eq!(s.self_name, Some("Alice".to_owned()));
    assert_eq!(s.process_line(&line("[Behaviour] OnPlayerJoined Alice"), false, 10_001), None);
    assert_eq!(
        s.process_line(&line("[Behaviour] OnPlayerJoined Bob"), false, 10_001),
        Some("Bob joined.".to_owned())
    );
}

#[test]
fn leaving_a_room_opens_a_quiet_period_too() {
    let mut s = NotificationSuppressor::new(5_000);
    assert_eq!(s.process_line(&line("[Behaviour] OnLeftRoom"), false, 0), None);
    assert_eq!(s.suppress_until, Some(5_000));
    assert_eq!(s.process_line(&line("[Behaviour] OnPlayerLeft Bob"), false, 4_999), None);
    assert_eq!(
        s.process_line(&line("[Behaviour] OnPlayerLeft Bob"), false, 5_000),
        Some("Bob left.".to_owned())
    );
}

#[test]
fn lines_without_player_events_are_not_notified() {
    let mut s = NotificationSuppressor::new(0);
    assert_eq!(s.process_line(&line("nothing here"), false, 0), None);
}
