use chrono::{Local, NaiveDate, TimeZone};
use xsoverlay_vrc_notifier::log::{LogLevel, LogLine};
use xsoverlay_vrc_notifier::time::{LocalDateTime, Timestamp};
use xsoverlay_vrc_notifier::vrc::Event;

fn local_time(year: i32, month: u32, day: u32, hour: u32, minute: u32, second: u32) -> Timestamp {
    let naive = NaiveDate::from_ymd_opt(year, month, day)
        .unwrap()
        .and_hms_opt(hour, minute, second)
        .unwrap();
    Timestamp {
        local: LocalDateTime {
            year: year as u16,
            month: month as u8,
            day: day as u8,
            hour: hour as u8,
            minute: minute as u8,
            second: second as u8,
        },
        unix_seconds: Local.from_local_datetime(&naive).latest().unwrap().timestamp(),
    }
}

#[test]
fn log_line_can_parse_on_joined_room_event() {
    let line = "2021.12.01 23:23:12 Log        -  [Behaviour] Finished entering world.";
    let actual = LogLine::from_line(line).expect("could not parse log line.");
    let expected = LogLine {
        time: local_time(2021, 12, 1, 23, 23, 12),
        log_level: LogLevel::Log,
        event: Some(Event::OnJoinedRoom),
        body: "[Behaviour] Finished entering world.".to_owned(),
    };
    assert_eq!(expected, actual);
}

#[test]
fn log_line_can_parse_old_on_player_joined_event() {
    let line = "2021.12.01 23:23:13 Log        -  [Behaviour] OnPlayerJoined paralleltree";
    let actual = LogLine::from_line(line).expect("could not parse log line.");
    let expected = LogLine {
        time: local_time(2021, 12, 1, 23, 23, 13),
        log_level: LogLevel::Log,
        event: Some(Event::OnPlayerJoined { user_name: "paralleltree".to_owned() }),
        body: "[Behaviour] OnPlayerJoined paralleltree".to_owned(),
    };
    assert_eq!(expected, actual);
}

#[test]
fn log_line_can_parse_on_player_joined_event() {
    let line = "2021.12.01 23:23:13 Debug      -  [Behaviour] OnPlayerJoined paralleltree (usr_a58186d2-54f9-44c8-902b-6e03927f66c1)";
    let actual = LogLine::from_line(line).expect("could not parse log line.");
    let expected = LogLine {
        time: local_time(2021, 12, 1, 23, 23, 13),
        log_level: LogLevel::Debug,
        event: Some(Event::OnPlayerJoined { user_name: "paralleltree".to_owned() }),
        body: "[Behaviour] OnPlayerJoined paralleltree (usr_a58186d2-54f9-44c8-902b-6e03927f66c1)"
            .to_owned(),
    };
    assert_eq!(expected, actual);
}

#[test]
fn log_line_can_parse_on_left_room_event() {
    let line = "2021.12.01 23:26:39 Log        -  [Behaviour] OnLeftRoom";
    let actual = LogLine::from_line(line).expect("could not parse log line.");
    let expected = LogLine {
        time: local_time(2021, 12, 1, 23, 26, 39),
        log_level: LogLevel::Log,
        event: Some(Event::OnLeftRoom),
        body: "[Behaviour] OnLeftRoom".to_owned(),
    };
    assert_eq!(expected, actual);
}

#[test]
fn log_line_can_parse_old_on_player_left_event() {
    let line = "2021.12.01 23:26:39 Log        -  [Behaviour] OnPlayerLeft paralleltree";
    let actual = LogLine::from_line(line).expect("could not parse log line.");
    let expected = LogLine {
        time: local_time(2021, 12, 1, 23, 26, 39),
        log_level: LogLevel::Log,
        event: Some(Event::OnPlayerLeft { user_name: "paralleltree".to_owned() }),
        body: "[Behaviour] OnPlayerLeft paralleltree".to_owned(),
    };
    assert_eq!(expected, actual);
}

#[test]
fn log_line_can_parse_on_player_left_event() {
    let line = "2021.12.01 23:26:39 Debug      -  [Behaviour] OnPlayerLeft paralleltree (usr_a58186d2-54f9-44c8-902b-6e03927f66c1)";
    let actual = LogLine::from_line(line).expect("could not parse log line.");
    let expected = LogLine {
        time: local_time(2021, 12, 1, 23, 26, 39),
        log_level: LogLevel::Debug,
        event: Some(Event::OnPlayerLeft { user_name: "paralleltree".to_owned() }),
        body: "[Behaviour] OnPlayerLeft paralleltree (usr_a58186d2-54f9-44c8-902b-6e03927f66c1)"
            .to_owned(),
    };
    assert_eq!(expected, actual);
}

#[test]
fn log_line_can_parse_user_authenticated_event() {
    let line = "2021.11.03 23:41:04 Log        -  [Behaviour] User Authenticated: paralleltree (usr_deadbeef-dead-beef-beef-deadbeefbeef)";
    let actual = LogLine::from_line(line).expect("could not parse log line.");
    let expected = LogLine {
        time: local_time(2021, 11, 3, 23, 41, 4),
        log_level: LogLevel::Log,
        event: Some(Event::UserAuthenticated { user_name: "paralleltree".to_owned() }),
        body: "[Behaviour] User Authenticated: paralleltree (usr_deadbeef-dead-beef-beef-deadbeefbeef)".to_owned(),
    };
    assert_eq!(expected, actual);
}

#[test]
fn unmatched_body_gives_no_event_at_every_level() {
    for level in ["Debug", "Log", "Warning", "Error"] {
        let line = format!("2021.12.01 23:23:12 {} -  Loading asset bundle", level);
        let parsed = LogLine::from_line_with(&line, Some(7)).expect("header is valid");
        assert_eq!(parsed.event, None);
        assert_eq!(parsed.body, "Loading asset bundle");
    }
}

#[test]
fn room_join_is_found_at_every_level() {
    let cases = [
        ("Debug", LogLevel::Debug),
        ("Log", LogLevel::Log),
        ("Warning", LogLevel::Warning),
        ("Error", LogLevel::Error),
    ];
    for (word, level) in cases {
        let line = format!("2021.12.01 23:23:12 {}   -  [Behaviour] Finished entering world.", word);
        let parsed = LogLine::from_line_with(&line, Some(0)).expect("header is valid");
        assert_eq!(parsed.log_level, level);
        assert_eq!(parsed.event, Some(Event::OnJoinedRoom));
    }
}

#[test]
fn user_id_suffix_is_stripped_from_player_names() {
    let with_id = "2021.12.01 23:23:13 Log -  [Behaviour] OnPlayerJoined Alice (usr_0a1b-2c)";
    let without_id = "2021.12.01 23:23:13 Log -  [Behaviour] OnPlayerJoined Alice";
    let a = LogLine::from_line_with(with_id, Some(1)).unwrap();
    let b = LogLine::from_line_with(without_id, Some(1)).unwrap();
    assert_eq!(a.event, Some(Event::OnPlayerJoined { user_name: "Alice".to_owned() }));
    assert_eq!(a.event, b.event);
}

#[test]
fn player_names_may_hold_spaces() {
    let line = "2021.12.01 23:23:13 Log -  [Behaviour] OnPlayerLeft Mary Ann (usr_77)";
    let parsed = LogLine::from_line_with(line, Some(1)).unwrap();
    assert_eq!(parsed.event, Some(Event::OnPlayerLeft { user_name: "Mary Ann".to_owned() }));
}

#[test]
fn from_line_with_keeps_the_given_instant() {
    let line = "2024.02.29 01:02:03 Warning -  something";
    let parsed = LogLine::from_line_with(line, Some(1_709_168_523)).unwrap();
    assert_eq!(
        parsed.time,
        Timestamp {
            local: LocalDateTime { year: 2024, month: 2, day: 29, hour: 1, minute: 2, second: 3 },
            unix_seconds: 1_709_168_523,
        }
    );
    assert_eq!(parsed.log_level, LogLevel::Warning);
    assert!(LogLine::from_line_with(line, None).is_none());
}

#[test]
fn from_line_resolves_local_time_within_a_day() {
    let parsed = LogLine::from_line("1970.01.02 00:00:00 Log -  x").unwrap();
    assert!(parsed.time.unix_seconds > 0 && parsed.time.unix_seconds < 2 * 86_400);
}

#[test]
fn unknown_level_is_rejected() {
    assert!(LogLine::from_line_with("2021.12.01 23:23:12 Info -  hello", Some(0)).is_none());
    assert!(LogLine::from_line_with("2021.12.01 23:23:12 Logs -  hello", Some(0)).is_none());
}

#[test]
fn malformed_headers_are_rejected() {
    assert!(LogLine::from_line_with("", Some(0)).is_none());
    assert!(LogLine::from_line_with("   at Foo.Bar()", Some(0)).is_none());
    assert!(LogLine::from_line_with("2021.12.01 23:23:12 Log - hello", Some(0)).is_none());
    assert!(LogLine::from_line_with("2021-12-01 23:23:12 Log -  hello", Some(0)).is_none());
    assert!(LogLine::from_line_with("2021.12.01 23:23:12 Log x  -  hello", Some(0)).is_none());
}

#[test]
fn impossible_dates_are_rejected() {
    assert!(LogLine::from_line_with("2021.02.29 10:00:00 Log -  a", Some(0)).is_none());
    assert!(LogLine::from_line_with("2021.13.01 10:00:00 Log -  a", Some(0)).is_none());
    assert!(LogLine::from_line_with("2021.12.01 24:00:00 Log -  a", Some(0)).is_none());
    assert!(LogLine::from_line_with("2021.12.01 23:60:00 Log -  a", Some(0)).is_none());
    assert!(LogLine::from_line_with("2024.02.29 10:00:00 Log -  a", Some(0)).is_some());
    assert!(LogLine::from_line("2021.04.31 10:00:00 Log -  a").is_none());
}

#[test]
fn first_matching_pattern_wins() {
    let line = "2021.12.01 23:23:12 Log -  [Behaviour] OnLeftRoom [Behaviour] Finished entering world";
    let parsed = LogLine::from_line_with(line, Some(0)).unwrap();
    assert_eq!(parsed.event, Some(Event::OnJoinedRoom));
}

#[test]
fn authentication_needs_a_name() {
    let line = "2021.12.01 23:23:12 Log -  [Behaviour] User Authenticated:  x [Behaviour] User Authenticated: bob";
    let parsed = LogLine::from_line_with(line, Some(0)).unwrap();
    assert_eq!(parsed.event, Some(Event::UserAuthenticated { user_name: "bob".to_owned() }));
    let bare = "2021.12.01 23:23:12 Log -  [Behaviour] OnPlayerJoined ";
    assert_eq!(LogLine::from_line_with(bare, Some(0)).unwrap().event, None);
}

#[test]
fn player_names_lose_trailing_white_space() {
    let line = "2021.12.01 23:23:13 Log -  [Behaviour] OnPlayerJoined Alice  (usr_1)";
    let parsed = LogLine::from_line_with(line, Some(1)).unwrap();
    assert_eq!(parsed.event, Some(Event::OnPlayerJoined { user_name: "Alice".to_owned() }));
}
