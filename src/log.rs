//! Parsing of single log lines into [`LogLine`] records.

use vstd::prelude::*;
use crate::text::{
    chars_of, copy_range, contains, find_from, find_from_exec, is_white_space, is_white_space_char,
    matches_at, matches_at_exec, string_of, trim_end, trim_end_chars,
};
use crate::time::{parse_timestamp, resolve_local, timestamp_of, LocalDateTime, Timestamp};
use crate::vrc::{event_view, Event, EventModel};

verus! {

/// Severity of a log line, from least to most severe.
#[derive(Debug, Clone, Copy, PartialEq, Eq, Structural)]
pub enum LogLevel {
    Debug,
    Log,
    Warning,
    Error,
}

/// One parsed log line.
#[derive(Debug, PartialEq)]
pub struct LogLine {
    pub time: Timestamp,
    pub log_level: LogLevel,
    pub event: Option<Event>,
    pub body: String,
}

/// What a line's header says: its local time, its level and where its body
/// starts.
#[derive(Debug, Clone, Copy, PartialEq, Eq, Structural)]
pub struct LogHeader {
    pub time: LocalDateTime,
    pub log_level: LogLevel,
    pub body_start: usize,
}

pub open spec fn level_word(l: LogLevel) -> Seq<char> {
    match l {
        LogLevel::Debug => "Debug"@,
        LogLevel::Log => "Log"@,
        LogLevel::Warning => "Warning"@,
        LogLevel::Error => "Error"@,
    }
}

/// The level whose name is written in `s` at `i`.
pub open spec fn level_at(s: Seq<char>, i: int) -> Option<LogLevel> {
    if matches_at(s, level_word(LogLevel::Debug), i) {
        Some(LogLevel::Debug)
    } else if matches_at(s, level_word(LogLevel::Log), i) {
        Some(LogLevel::Log)
    } else if matches_at(s, level_word(LogLevel::Warning), i) {
        Some(LogLevel::Warning)
    } else if matches_at(s, level_word(LogLevel::Error), i) {
        Some(LogLevel::Error)
    } else {
        None
    }
}

/// After any number of spaces from `i`, the separator `-` followed by two
/// spaces: the index just past it.
pub open spec fn separator_end(s: Seq<char>, i: int) -> Option<int>
    decreases s.len() - i,
{
    if i < 0 || i >= s.len() {
        None
    } else if matches_at(s, "-  "@, i) {
        Some(i + 3)
    } else if s[i] == ' ' {
        separator_end(s, i + 1)
    } else {
        None
    }
}

/// The header `YYYY.MM.DD HH:MM:SS <Level> <spaces>-  ` at the start of a line.
pub open spec fn header_of(s: Seq<char>) -> Option<LogHeader> {
    match timestamp_of(s) {
        Some(t) => if s.len() > 19 && s[19] == ' ' {
            match level_at(s, 20) {
                Some(l) => match separator_end(s, 20 + level_word(l).len() as int) {
                    Some(b) => Some(LogHeader { time: t, log_level: l, body_start: b as usize }),
                    None => None,
                },
                None => None,
            }
        } else {
            None
        },
        None => None,
    }
}

pub open spec fn joined_room_marker() -> Seq<char> {
    "[Behaviour] Finished entering world"@
}

pub open spec fn player_joined_marker() -> Seq<char> {
    "[Behaviour] OnPlayerJoined "@
}

pub open spec fn left_room_marker() -> Seq<char> {
    "[Behaviour] OnLeftRoom"@
}

pub open spec fn player_left_marker() -> Seq<char> {
    "[Behaviour] OnPlayerLeft "@
}

pub open spec fn authenticated_marker() -> Seq<char> {
    "[Behaviour] User Authenticated: "@
}

pub open spec fn user_id_prefix() -> Seq<char> {
    " (usr_"@
}

pub open spec fn is_id_char(c: char) -> bool {
    ('a' <= c && c <= 'z') || ('0' <= c && c <= '9') || c == '-'
}

/// `t` starts with ` (usr_<id>)`, where `<id>` is `j` of `a-z`, `0-9` and `-`.
pub open spec fn user_id_of_length(t: Seq<char>, j: int) -> bool {
    1 <= j && 6 + j < t.len() && t.take(6) == user_id_prefix() && (forall|k: int|
        6 <= k < 6 + j ==> is_id_char(#[trigger] t[k])) && t[6 + j] == ')'
}

/// `t` starts with ` (usr_<id>)`, where `<id>` is one or more of `a-z`,
/// `0-9` and `-`.
pub open spec fn starts_with_user_id(t: Seq<char>) -> bool {
    exists|j: int| #[trigger] user_id_of_length(t, j)
}

/// The shortest length `>= k` of a name in `rest`: one that ends `rest` or
/// is followed by a user id.
pub open spec fn name_end(rest: Seq<char>, k: int) -> int
    decreases rest.len() - k,
{
    if k >= rest.len() {
        rest.len() as int
    } else if starts_with_user_id(rest.skip(k)) {
        k
    } else {
        name_end(rest, k + 1)
    }
}

/// The player name at the start of `rest`, without a trailing user id and
/// without trailing white space.
pub open spec fn player_name(rest: Seq<char>) -> Seq<char> {
    trim_end(rest.take(name_end(rest, 1)))
}

/// The player name after the first occurrence of `marker` in `body`, where
/// something follows the marker.
pub open spec fn player_after(body: Seq<char>, marker: Seq<char>) -> Option<Seq<char>> {
    match find_from(body, marker, 0) {
        Some(p) => if p + marker.len() < body.len() {
            Some(player_name(body.skip(p + marker.len())))
        } else {
            None
        },
        None => None,
    }
}

/// The first occurrence, at or after `i`, of the authentication marker that
/// is followed by a character other than white space.
pub open spec fn authenticated_start(s: Seq<char>, i: int) -> Option<int>
    decreases s.len() + 1 - i,
{
    if i < 0 || i > s.len() {
        None
    } else {
        match find_from(s, authenticated_marker(), i) {
            Some(p) => if 0 <= p && p + authenticated_marker().len() < s.len() && !is_white_space(
                s[p + authenticated_marker().len()],
            ) {
                Some(p)
            } else if i <= p < s.len() {
                authenticated_start(s, p + 1)
            } else {
                None
            },
            None => None,
        }
    }
}

/// The end of the run of characters other than white space that starts at `i`.
pub open spec fn word_end(s: Seq<char>, i: int) -> int
    decreases s.len() - i,
{
    if 0 <= i < s.len() && !is_white_space(s[i]) {
        word_end(s, i + 1)
    } else {
        i
    }
}

/// The user name that an authentication line reports.
pub open spec fn authenticated_name(body: Seq<char>) -> Option<Seq<char>> {
    match authenticated_start(body, 0) {
        Some(p) => {
            let b = p + authenticated_marker().len();
            Some(body.subrange(b, word_end(body, b)))
        },
        None => None,
    }
}

/// The event a line body reports: the first of the patterns that matches.
pub open spec fn body_event(body: Seq<char>) -> Option<EventModel> {
    if contains(body, joined_room_marker()) {
        Some(EventModel::OnJoinedRoom)
    } else if player_after(body, player_joined_marker()) is Some {
        Some(EventModel::OnPlayerJoined(player_after(body, player_joined_marker())->0))
    } else if contains(body, left_room_marker()) {
        Some(EventModel::OnLeftRoom)
    } else if player_after(body, player_left_marker()) is Some {
        Some(EventModel::OnPlayerLeft(player_after(body, player_left_marker())->0))
    } else if authenticated_name(body) is Some {
        Some(EventModel::UserAuthenticated(authenticated_name(body)->0))
    } else {
        None
    }
}

/// Whether the name of level `l` is written in `s` at `i`.
fn level_matches(s: &Vec<char>, i: usize, l: LogLevel) -> (r: bool)
    ensures
        r == matches_at(s@, level_word(l), i as int),
{
    let w = match l {
        LogLevel::Debug => chars_of("Debug"),
        LogLevel::Log => chars_of("Log"),
        LogLevel::Warning => chars_of("Warning"),
        LogLevel::Error => chars_of("Error"),
    };
    matches_at_exec(s, &w, i)
}

fn parse_level(s: &Vec<char>, i: usize) -> (r: Option<LogLevel>)
    ensures
        r == level_at(s@, i as int),
{
    if level_matches(s, i, LogLevel::Debug) {
        Some(LogLevel::Debug)
    } else if level_matches(s, i, LogLevel::Log) {
        Some(LogLevel::Log)
    } else if level_matches(s, i, LogLevel::Warning) {
        Some(LogLevel::Warning)
    } else if level_matches(s, i, LogLevel::Error) {
        Some(LogLevel::Error)
    } else {
        None
    }
}

fn level_word_len(l: LogLevel) -> (r: usize)
    ensures
        r == level_word(l).len(),
{
    proof {
        reveal_strlit("Debug");
        reveal_strlit("Log");
        reveal_strlit("Warning");
        reveal_strlit("Error");
    }
    match l {
        LogLevel::Debug => 5,
        LogLevel::Log => 3,
        LogLevel::Warning => 7,
        LogLevel::Error => 5,
    }
}

fn find_separator_end(s: &Vec<char>, from: usize) -> (r: Option<usize>)
    ensures
        r matches Some(b) ==> separator_end(s@, from as int) == Some(b as int),
        r is None ==> separator_end(s@, from as int) is None,
{
    let sep = chars_of("-  ");
    let mut i: usize = from;
    while i < s.len()
        invariant
            from <= i,
            sep@ == "-  "@,
            separator_end(s@, from as int) == separator_end(s@, i as int),
        decreases s.len() - i,
    {
        if matches_at_exec(s, &sep, i) {
            proof {
                reveal_strlit("-  ");
            }
            return Some(i + 3);
        }
        if s[i] != ' ' {
            return None;
        }
        i = i + 1;
    }
    None
}

/// The header at the start of a line, as characters.
pub fn parse_header(s: &Vec<char>) -> (r: Option<LogHeader>)
    ensures
        r == header_of(s@),
{
    let t = match parse_timestamp(s) {
        Some(t) => t,
        None => return None,
    };
    if s.len() <= 19 || s[19] != ' ' {
        return None;
    }
    let l = match parse_level(s, 20) {
        Some(l) => l,
        None => return None,
    };
    match find_separator_end(s, 20 + level_word_len(l)) {
        Some(b) => Some(LogHeader { time: t, log_level: l, body_start: b }),
        None => None,
    }
}

fn is_id_char_exec(c: char) -> (r: bool)
    ensures
        r == is_id_char(c),
{
    ('a' <= c && c <= 'z') || ('0' <= c && c <= '9') || c == '-'
}

/// Whether `v[i..]` starts with a user id.
fn starts_with_user_id_exec(v: &Vec<char>, i: usize, prefix: &Vec<char>) -> (r: bool)
    requires
        i <= v@.len(),
        prefix@ == user_id_prefix(),
    ensures
        r == starts_with_user_id(v@.skip(i as int)),
{
    let len: usize = v.len();
    let ghost t = v@.skip(i as int);
    proof {
        reveal_strlit(" (usr_");
    }
    if len - i < 8 {
        assert forall|jj: int| !user_id_of_length(t, jj) by {}
        return false;
    }
    if !matches_at_exec(v, prefix, i) {
        assert(t.take(6) =~= v@.subrange(i as int, i + 6));
        assert forall|jj: int| !user_id_of_length(t, jj) by {}
        return false;
    }
    assert(t.take(6) =~= v@.subrange(i as int, i + 6));
    let mut j: usize = i + 6;
    while j < len && is_id_char_exec(v[j])
        invariant
            i + 6 <= j <= len,
            len == v@.len(),
            forall|k: int| i + 6 <= k < j ==> is_id_char(#[trigger] v@[k]),
        decreases len - j,
    {
        j = j + 1;
    }
    if j > i + 6 && j < len && v[j] == ')' {
        assert forall|k: int| 6 <= k < 6 + (j - i - 6) implies is_id_char(#[trigger] t[k]) by {
            assert(t[k] == v@[i + k]);
        }
        assert(user_id_of_length(t, (j - i - 6) as int));
        true
    } else {
        assert forall|jj: int| !user_id_of_length(t, jj) by {
            if user_id_of_length(t, jj) {
                assert(t[6 + jj] == v@[i + 6 + jj]);
                if i + 6 + jj < j {
                    assert(is_id_char(v@[i + 6 + jj]));
                } else if i + 6 + jj > j {
                    assert(is_id_char(t[j - i]));
                    assert(t[j - i] == v@[j as int]);
                }
            }
        }
        false
    }
}

/// The player name at the start of `v[start..]`.
fn read_player_name(v: &Vec<char>, start: usize, prefix: &Vec<char>) -> (r: Vec<char>)
    requires
        start < v@.len(),
        prefix@ == user_id_prefix(),
    ensures
        r@ == player_name(v@.skip(start as int)),
{
    let ghost rest = v@.skip(start as int);
    let len: usize = v.len();
    let mut k: usize = 1;
    while start + k < len && !starts_with_user_id_exec(v, start + k, prefix)
        invariant
            len == v@.len(),
            1 <= k,
            start + k <= v@.len(),
            prefix@ == user_id_prefix(),
            rest == v@.skip(start as int),
            name_end(rest, 1) == name_end(rest, k as int),
        decreases v.len() - start - k,
    {
        assert(v@.skip(start + k) =~= rest.skip(k as int));
        k = k + 1;
    }
    if start + k < len {
        assert(v@.skip(start + k) =~= rest.skip(k as int));
    }
    let r = copy_range(v, start, start + k);
    assert(r@ =~= rest.take(k as int));
    trim_end_chars(&r)
}

/// The player name after the first `marker` in `body`.
fn read_player_after(body: &Vec<char>, marker: &Vec<char>, prefix: &Vec<char>) -> (r: Option<
    Vec<char>,
>)
    requires
        prefix@ == user_id_prefix(),
    ensures
        r matches Some(n) ==> player_after(body@, marker@) == Some(n@),
        r is None ==> player_after(body@, marker@) is None,
{
    match find_from_exec(body, marker, 0) {
        Some(p) => {
            if p < body.len() && marker.len() < body.len() - p {
                Some(read_player_name(body, p + marker.len(), prefix))
            } else {
                None
            }
        },
        None => None,
    }
}

fn read_word(body: &Vec<char>, b: usize) -> (r: Vec<char>)
    requires
        b <= body@.len(),
    ensures
        r@ == body@.subrange(b as int, word_end(body@, b as int)),
{
    let len: usize = body.len();
    let mut e: usize = b;
    while e < len && !is_white_space_char(body[e])
        invariant
            b <= e <= len,
            len == body@.len(),
            word_end(body@, b as int) == word_end(body@, e as int),
        decreases len - e,
    {
        e = e + 1;
    }
    copy_range(body, b, e)
}

fn read_authenticated_name(body: &Vec<char>) -> (r: Option<Vec<char>>)
    ensures
        r matches Some(n) ==> authenticated_name(body@) == Some(n@),
        r is None ==> authenticated_name(body@) is None,
{
    let marker = chars_of("[Behaviour] User Authenticated: ");
    let len: usize = body.len();
    let mut i: usize = 0;
    while i <= len
        invariant
            len == body@.len(),
            marker@ == authenticated_marker(),
            authenticated_start(body@, 0) == authenticated_start(body@, i as int),
        decreases len + 1 - i,
    {
        match find_from_exec(body, &marker, i) {
            Some(p) => {
                if p < len && marker.len() < len - p && !is_white_space_char(body[p + marker.len()]) {
                    return Some(read_word(body, p + marker.len()));
                } else if i <= p && p < len {
                    i = p + 1;
                } else {
                    return None;
                }
            },
            None => return None,
        }
    }
    None
}

/// The event that a line body reports, if any.
pub fn parse_body(body: &Vec<char>) -> (r: Option<Event>)
    ensures
        event_view(r) == body_event(body@),
{
    let prefix = chars_of(" (usr_");
    let joined_room = chars_of("[Behaviour] Finished entering world");
    if find_from_exec(body, &joined_room, 0).is_some() {
        return Some(Event::OnJoinedRoom);
    }
    let player_joined = chars_of("[Behaviour] OnPlayerJoined ");
    if let Some(n) = read_player_after(body, &player_joined, &prefix) {
        return Some(Event::OnPlayerJoined { user_name: string_of(&n) });
    }
    let left_room = chars_of("[Behaviour] OnLeftRoom");
    if find_from_exec(body, &left_room, 0).is_some() {
        return Some(Event::OnLeftRoom);
    }
    let player_left = chars_of("[Behaviour] OnPlayerLeft ");
    if let Some(n) = read_player_after(body, &player_left, &prefix) {
        return Some(Event::OnPlayerLeft { user_name: string_of(&n) });
    }
    if let Some(n) = read_authenticated_name(body) {
        return Some(Event::UserAuthenticated { user_name: string_of(&n) });
    }
    None
}

/// `l` is what line `s` says, with `unix_seconds` as the instant of its
/// local time.
pub open spec fn describes(l: LogLine, s: Seq<char>, unix_seconds: i64) -> bool {
    match header_of(s) {
        Some(h) => l.time == (Timestamp { local: h.time, unix_seconds })
            && l.log_level == h.log_level && l.body@ == s.skip(h.body_start as int)
            && event_view(l.event) == body_event(s.skip(h.body_start as int)),
        None => false,
    }
}

fn build_line(s: &Vec<char>, h: LogHeader, unix_seconds: i64) -> (r: LogLine)
    requires
        header_of(s@) == Some(h),
    ensures
        describes(r, s@, unix_seconds),
{
    let len: usize = s.len();
    assert(h.body_start <= s@.len()) by {
        lemma_separator_end_bound(s@, 20 + level_word(h.log_level).len() as int);
    }
    let body = copy_range(s, h.body_start, s.len());
    assert(body@ =~= s@.skip(h.body_start as int));
    let event = parse_body(&body);
    LogLine {
        time: Timestamp { local: h.time, unix_seconds },
        log_level: h.log_level,
        event,
        body: string_of(&body),
    }
}

proof fn lemma_separator_end_bound(s: Seq<char>, i: int)
    ensures
        separator_end(s, i) matches Some(b) ==> 0 <= b <= s.len(),
    decreases s.len() - i,
{
    reveal_strlit("-  ");
    if 0 <= i < s.len() && !matches_at(s, "-  "@, i) && s[i] == ' ' {
        lemma_separator_end_bound(s, i + 1);
    }
}

impl LogLine {
    /// Parses a line, taking `unix_seconds` as the instant of the local time
    /// in its header. `None` where the header is malformed or where no
    /// instant is given.
    pub fn from_line_with(line: &str, unix_seconds: Option<i64>) -> (r: Option<LogLine>)
        ensures
            r is Some <==> header_of(line@) is Some && unix_seconds is Some,
            r matches Some(l) ==> describes(l, line@, unix_seconds->0),
    {
        let s = chars_of(line);
        match parse_header(&s) {
            Some(h) => match unix_seconds {
                Some(u) => Some(build_line(&s, h, u)),
                None => None,
            },
            None => None,
        }
    }

    /// Parses a line, resolving its local time in the machine's time zone
    /// (the earliest instant where the time is ambiguous). `None` where the
    /// header is malformed or the local time does not exist.
    pub fn from_line(line: &str) -> (r: Option<LogLine>)
        ensures
            header_of(line@) is None ==> r is None,
            r matches Some(l) ==> describes(l, line@, l.time.unix_seconds)
                && l.time.local.naive_seconds() - 86400 < l.time.unix_seconds
                < l.time.local.naive_seconds() + 86400,
    {
        let s = chars_of(line);
        match parse_header(&s) {
            Some(h) => match resolve_local(&h.time) {
                Some(u) => Some(build_line(&s, h, u)),
                None => None,
            },
            None => None,
        }
    }
}

/// A line whose header is well formed and whose body matches no event
/// pattern parses to a line without an event.
pub proof fn lemma_unmatched_body_has_no_event(line: Seq<char>, l: LogLine, unix_seconds: i64)
    requires
        header_of(line) matches Some(h) && body_event(line.skip(h.body_start as int)) is None,
        describes(l, line, unix_seconds),
    ensures
        l.event is None,
{
}

/// A line whose body reports entering a world parses to a room join, at
/// every level.
pub proof fn lemma_room_joined_at_any_level(line: Seq<char>, l: LogLine, unix_seconds: i64)
    requires
        header_of(line) matches Some(h) && contains(
            line.skip(h.body_start as int),
            joined_room_marker(),
        ),
        describes(l, line, unix_seconds),
    ensures
        l.event matches Some(Event::OnJoinedRoom),
{
}

/// `n` holds no space followed by an opening parenthesis.
pub open spec fn has_no_open_paren_after_space(n: Seq<char>) -> bool {
    forall|k: int| 0 <= k < n.len() - 1 ==> !(#[trigger] n[k] == ' ' && n[k + 1] == '(')
}

proof fn lemma_name_end_reaches(rest: Seq<char>, n: Seq<char>, k: int)
    requires
        1 <= k <= n.len(),
        n.len() <= rest.len(),
        rest.take(n.len() as int) == n,
        has_no_open_paren_after_space(n),
        n.len() == rest.len() || starts_with_user_id(rest.skip(n.len() as int)),
        n.len() < rest.len() ==> rest[n.len() as int] == ' ',
    ensures
        name_end(rest, k) == n.len(),
    decreases n.len() - k,
{
    if k < n.len() {
        let t = rest.skip(k);
        assert(rest[k] == n[k]);
        if starts_with_user_id(t) {
            let j = choose|j: int| user_id_of_length(t, j);
            reveal_strlit(" (usr_");
            assert(t.take(6)[0] == ' ' && t.take(6)[1] == '(');
            if k + 1 < n.len() {
                assert(rest[k + 1] == n[k + 1]);
            }
        }
        lemma_name_end_reaches(rest, n, k + 1);
    }
}

/// A trailing user id is stripped from a player name: the name read from
/// `<name> (usr_<id>)` is the name read from `<name>` alone, which is
/// `<name>` without trailing white space.
pub proof fn lemma_user_id_stripped(name: Seq<char>, id: Seq<char>)
    requires
        name.len() >= 1,
        has_no_open_paren_after_space(name),
        id.len() >= 1,
        forall|k: int| 0 <= k < id.len() ==> is_id_char(#[trigger] id[k]),
    ensures
        player_name(name + user_id_prefix() + id + ")"@) == trim_end(name),
        player_name(name) == trim_end(name),
{
    reveal_strlit(" (usr_");
    reveal_strlit(")");
    let suffix = user_id_prefix() + id + ")"@;
    let rest = name + suffix;
    assert(rest =~= name + user_id_prefix() + id + ")"@);
    let t = rest.skip(name.len() as int);
    assert(t =~= suffix);
    assert(t.take(6) =~= user_id_prefix());
    assert forall|k: int| 6 <= k < 6 + id.len() implies is_id_char(#[trigger] t[k]) by {
        assert(t[k] == id[k - 6]);
    }
    assert(user_id_of_length(t, id.len() as int));
    assert(rest.take(name.len() as int) =~= name);
    lemma_name_end_reaches(rest, name, 1);
    assert(rest.take(name.len() as int) =~= name);
    assert(name.take(name.len() as int) =~= name);
    lemma_name_end_reaches(name, name, 1);
}

} // verus!
