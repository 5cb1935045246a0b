//! Reading the lines appended to a log file, choosing the log file to follow,
//! and the state machine that follows it across rotations.

use vstd::prelude::*;
use vstd::utf8::{decode_utf8, valid_utf8};
use crate::text::{chars_of, string_of, trim_end, trim_end_chars};

verus! {

/// The length of the first chunk of `t` from index `i` on that ends with a
/// newline, or ends `t`.
pub open spec fn chunk_end(t: Seq<u8>, i: int) -> int
    decreases t.len() - i,
{
    if i < 0 || i >= t.len() {
        t.len() as int
    } else if t[i] == 10u8 {
        i + 1
    } else {
        chunk_end(t, i + 1)
    }
}

proof fn lemma_chunk_end_bounds(t: Seq<u8>, i: int)
    requires
        0 <= i < t.len(),
    ensures
        i < chunk_end(t, i) <= t.len(),
    decreases t.len() - i,
{
    if t[i] != 10u8 {
        if i + 1 < t.len() {
            lemma_chunk_end_bounds(t, i + 1);
        } else {
            assert(chunk_end(t, i + 1) == t.len());
        }
    }
}

/// The lines that a line reader yields from `t`, each without its trailing
/// white space, and the number of bytes they take. Reading stops before a
/// line that is not valid UTF-8.
pub open spec fn read_lines(t: Seq<u8>) -> (Seq<Seq<char>>, int)
    decreases t.len()
    via read_lines_decreases
{
    if t.len() == 0 {
        (Seq::empty(), 0)
    } else {
        let e = chunk_end(t, 0);
        if !valid_utf8(t.take(e)) {
            (Seq::empty(), 0)
        } else {
            let rest = read_lines(t.skip(e));
            (seq![trim_end(decode_utf8(t.take(e)))] + rest.0, e + rest.1)
        }
    }
}

#[via_fn]
proof fn read_lines_decreases(t: Seq<u8>) {
    if t.len() > 0 {
        lemma_chunk_end_bounds(t, 0);
    }
}

proof fn lemma_read_lines_bound(t: Seq<u8>)
    ensures
        0 <= read_lines(t).1 <= t.len(),
    decreases t.len(),
{
    if t.len() > 0 {
        lemma_chunk_end_bounds(t, 0);
        let e = chunk_end(t, 0);
        if valid_utf8(t.take(e)) {
            lemma_read_lines_bound(t.skip(e));
        }
    }
}

/// Reading again what is left after a read, with nothing appended in
/// between, yields no line and consumes nothing.
pub proof fn lemma_read_without_growth(t: Seq<u8>)
    ensures
        read_lines(t.skip(read_lines(t).1)) == (Seq::<Seq<char>>::empty(), 0int),
    decreases t.len(),
{
    if t.len() == 0 {
        assert(t.skip(0) =~= t);
    } else {
        lemma_chunk_end_bounds(t, 0);
        let e = chunk_end(t, 0);
        if !valid_utf8(t.take(e)) {
            assert(t.skip(0) =~= t);
        } else {
            let n = read_lines(t.skip(e)).1;
            lemma_read_lines_bound(t.skip(e));
            lemma_read_without_growth(t.skip(e));
            assert(t.skip(e + n) =~= t.skip(e).skip(n));
        }
    }
}

/// Relies on `std::str::from_utf8`: it accepts exactly the valid UTF-8 byte
/// sequences and yields the characters they encode.
#[verifier::external_body]
fn decode_range(b: &[u8], start: usize, end: usize) -> (r: Option<String>)
    requires
        start <= end <= b@.len(),
    ensures
        r is Some <==> valid_utf8(b@.subrange(start as int, end as int)),
        r matches Some(s) ==> s@ == decode_utf8(b@.subrange(start as int, end as int)),
{
    std::str::from_utf8(&b[start..end]).ok().map(|s| s.to_string())
}

/// What one read of appended bytes produced.
#[derive(Debug)]
pub struct AppendedLines {
    /// The complete lines read, without trailing white space.
    pub lines: Vec<String>,
    /// Reading stopped at a line that is not valid UTF-8.
    pub invalid_data: bool,
}

/// A read cursor over one file: its path and the number of bytes already read.
#[derive(Debug)]
pub struct ContinuousFileReader {
    pub file_path: String,
    pub read_bytes: u64,
}

impl ContinuousFileReader {
    pub fn new(file_path: String) -> (r: Self)
        ensures
            r.file_path == file_path,
            r.read_bytes == 0,
    {
        ContinuousFileReader { file_path, read_bytes: 0 }
    }

    /// Takes the bytes of the file from the cursor to its end, yields the
    /// lines in them and moves the cursor past the bytes of those lines.
    pub fn read_appended_lines(&mut self, appended: &[u8]) -> (r: AppendedLines)
        requires
            old(self).read_bytes + appended@.len() <= u64::MAX,
        ensures
            r.lines@.map_values(|s: String| s@) == read_lines(appended@).0,
            final(self).read_bytes == old(self).read_bytes + read_lines(appended@).1,
            r.invalid_data == (read_lines(appended@).1 < appended@.len()),
            final(self).file_path == old(self).file_path,
    {
        let len: usize = appended.len();
        let mut lines: Vec<String> = Vec::new();
        let mut pos: usize = 0;
        let ghost total = read_lines(appended@);
        proof {
            assert(appended@.skip(0) =~= appended@);
            lemma_read_lines_bound(appended@);
        }
        while pos < len
            invariant
                len == appended@.len(),
                pos <= len,
                total == read_lines(appended@),
                lines@.map_values(|s: String| s@) + read_lines(appended@.skip(pos as int)).0
                    == total.0,
                pos + read_lines(appended@.skip(pos as int)).1 == total.1,
                self.read_bytes == old(self).read_bytes + pos,
                self.file_path == old(self).file_path,
                old(self).read_bytes + len <= u64::MAX,
            decreases len - pos,
        {
            let ghost t = appended@.skip(pos as int);
            let mut e: usize = pos;
            while e < len && appended[e] != 10u8
                invariant
                    pos <= e <= len,
                    len == appended@.len(),
                    t == appended@.skip(pos as int),
                    chunk_end(t, 0) == chunk_end(t, e - pos),
                decreases len - e,
            {
                e = e + 1;
            }
            if e < len {
                e = e + 1;
            }
            proof {
                lemma_chunk_end_bounds(t, 0);
                assert(chunk_end(t, 0) == e - pos);
                assert(t.take(e - pos) =~= appended@.subrange(pos as int, e as int));
                assert(t.skip(e - pos) =~= appended@.skip(e as int));
            }
            match decode_range(appended, pos, e) {
                Some(s) => {
                    let chars = chars_of(s.as_str());
                    let trimmed = trim_end_chars(&chars);
                    let line = string_of(&trimmed);
                    let ghost before = lines@;
                    lines.push(line);
                    proof {
                        assert(lines@.map_values(|s: String| s@) =~= before.map_values(
                            |s: String| s@,
                        ).push(line@));
                        assert(lines@.map_values(|s: String| s@) + read_lines(
                            appended@.skip(e as int),
                        ).0 =~= before.map_values(|s: String| s@) + read_lines(t).0);
                    }
                    self.read_bytes = self.read_bytes + (e - pos) as u64;
                    pos = e;
                },
                None => {
                    proof {
                        assert(lines@.map_values(|s: String| s@) =~= total.0);
                    }
                    return AppendedLines { lines, invalid_data: true };
                },
            }
        }
        proof {
            assert(appended@.skip(pos as int).len() == 0);
            assert(lines@.map_values(|s: String| s@) =~= total.0);
        }
        AppendedLines { lines, invalid_data: false }
    }
}

/// A directory entry as listed: its full path, its file name, whether it is
/// a regular file, and when it was last modified (nanoseconds since the epoch).
#[derive(Debug)]
pub struct LogFileEntry {
    pub path: String,
    pub file_name: String,
    pub is_file: bool,
    pub modified: u128,
}

/// File names of the form `output_log_<anything but a newline>.txt`.
pub open spec fn is_log_file_name(n: Seq<char>) -> bool {
    n.len() >= 15 && n.take(11) == "output_log_"@ && n.skip(n.len() - 4) == ".txt"@ && (forall|
        k: int,
    | 11 <= k < n.len() - 4 ==> #[trigger] n[k] != '\n')
}

pub open spec fn is_log_file(e: LogFileEntry) -> bool {
    e.is_file && is_log_file_name(e.file_name@)
}

/// Lexicographic order of code points.
pub open spec fn lex_lt(a: Seq<char>, b: Seq<char>) -> bool
    decreases a.len(),
{
    if b.len() == 0 {
        false
    } else if a.len() == 0 {
        true
    } else if a[0] != b[0] {
        (a[0] as u32) < (b[0] as u32)
    } else {
        lex_lt(a.skip(1), b.skip(1))
    }
}

/// `a` is to be followed rather than `b`: it was modified later, or at the
/// same time with a path that sorts later.
pub open spec fn newer(a: LogFileEntry, b: LogFileEntry) -> bool {
    a.modified > b.modified || (a.modified == b.modified && lex_lt(b.path@, a.path@))
}

/// Entry `i` is a log file and no log file in `es` is newer.
pub open spec fn is_latest(es: Seq<LogFileEntry>, i: int) -> bool {
    0 <= i < es.len() && is_log_file(es[i]) && forall|j: int|
        0 <= j < es.len() && is_log_file(#[trigger] es[j]) ==> !newer(es[j], es[i])
}

proof fn lemma_lex_irreflexive(a: Seq<char>)
    ensures
        !lex_lt(a, a),
    decreases a.len(),
{
    if a.len() > 0 {
        lemma_lex_irreflexive(a.skip(1));
    }
}

proof fn lemma_lex_transitive(a: Seq<char>, b: Seq<char>, c: Seq<char>)
    requires
        lex_lt(a, b),
        lex_lt(b, c),
    ensures
        lex_lt(a, c),
    decreases a.len(),
{
    if a.len() > 0 && b.len() > 0 && c.len() > 0 && a[0] == b[0] && b[0] == c[0] {
        lemma_lex_transitive(a.skip(1), b.skip(1), c.skip(1));
    }
}

fn lex_lt_exec(a: &Vec<char>, b: &Vec<char>) -> (r: bool)
    ensures
        r == lex_lt(a@, b@),
{
    let mut i: usize = 0;
    assert(a@.skip(0) =~= a@ && b@.skip(0) =~= b@);
    while i < a.len() && i < b.len() && a[i] == b[i]
        invariant
            i <= a@.len(),
            i <= b@.len(),
            lex_lt(a@, b@) == lex_lt(a@.skip(i as int), b@.skip(i as int)),
        decreases a.len() - i,
    {
        assert(a@.skip(i as int).skip(1) =~= a@.skip(i + 1));
        assert(b@.skip(i as int).skip(1) =~= b@.skip(i + 1));
        i = i + 1;
    }
    if i == b.len() {
        false
    } else if i == a.len() {
        true
    } else {
        (a[i] as u32) < (b[i] as u32)
    }
}

fn is_log_file_name_exec(n: &Vec<char>) -> (r: bool)
    ensures
        r == is_log_file_name(n@),
{
    let len: usize = n.len();
    if len < 15 {
        return false;
    }
    let head = chars_of("output_log_");
    let tail = chars_of(".txt");
    proof {
        reveal_strlit("output_log_");
        reveal_strlit(".txt");
    }
    if !crate::text::matches_at_exec(n, &head, 0) || !crate::text::matches_at_exec(n, &tail, len - 4) {
        assert(n@.take(11) =~= n@.subrange(0, 11));
        assert(n@.skip(len - 4) =~= n@.subrange(len - 4, len as int));
        return false;
    }
    assert(n@.take(11) =~= n@.subrange(0, 11));
    assert(n@.skip(len - 4) =~= n@.subrange(len - 4, len as int));
    let mut k: usize = 11;
    while k < len - 4
        invariant
            11 <= k <= len - 4,
            len == n@.len(),
            len >= 15,
            forall|j: int| 11 <= j < k ==> #[trigger] n@[j] != '\n',
        decreases len - k,
    {
        if n[k] == '\n' {
            return false;
        }
        k = k + 1;
    }
    true
}

fn is_log_file_exec(e: &LogFileEntry) -> (r: bool)
    ensures
        r == is_log_file(*e),
{
    e.is_file && is_log_file_name_exec(&chars_of(e.file_name.as_str()))
}

fn newer_exec(a: &LogFileEntry, b: &LogFileEntry) -> (r: bool)
    ensures
        r == newer(*a, *b),
{
    a.modified > b.modified || (a.modified == b.modified && lex_lt_exec(
        &chars_of(b.path.as_str()),
        &chars_of(a.path.as_str()),
    ))
}

/// The index of the log file to follow: the one modified last among the
/// entries that are regular files with a log file name, ties going to the
/// path that sorts last. `None` where no entry is a log file.
pub fn select_latest(entries: &Vec<LogFileEntry>) -> (r: Option<usize>)
    ensures
        r matches Some(i) ==> is_latest(entries@, i as int),
        r is None <==> forall|j: int| 0 <= j < entries@.len() ==> !is_log_file(#[trigger] entries@[j]),
{
    let mut best: Option<usize> = None;
    let mut i: usize = 0;
    while i < entries.len()
        invariant
            i <= entries@.len(),
            best is None ==> forall|j: int| 0 <= j < i ==> !is_log_file(#[trigger] entries@[j]),
            best matches Some(b) ==> b < i && is_log_file(entries@[b as int]) && forall|j: int|
                0 <= j < i && is_log_file(#[trigger] entries@[j]) ==> !newer(
                    entries@[j],
                    entries@[b as int],
                ),
        decreases entries.len() - i,
    {
        if is_log_file_exec(&entries[i]) {
            match best {
                None => {
                    proof {
                        lemma_lex_irreflexive(entries@[i as int].path@);
                    }
                    best = Some(i);
                },
                Some(b) => {
                    if newer_exec(&entries[i], &entries[b]) {
                        proof {
                            lemma_lex_irreflexive(entries@[i as int].path@);
                            assert forall|j: int|
                                0 <= j < i + 1 && is_log_file(#[trigger] entries@[j]) implies !newer(
                                entries@[j],
                                entries@[i as int],
                            ) by {
                                if j < i && newer(entries@[j], entries@[i as int]) {
                                    if entries@[j].modified == entries@[i as int].modified
                                        && entries@[i as int].modified == entries@[b as int].modified {
                                        lemma_lex_transitive(
                                            entries@[b as int].path@,
                                            entries@[i as int].path@,
                                            entries@[j].path@,
                                        );
                                    }
                                }
                            }
                        }
                        best = Some(i);
                    } else {
                        proof {
                            lemma_lex_irreflexive(entries@[b as int].path@);
                        }
                    }
                },
            }
        }
        i = i + 1;
    }
    best
}

/// The cursor after choosing `path`: on it, where it was already followed,
/// or at the start of it.
pub open spec fn follows(
    before: Option<ContinuousFileReader>,
    after: Option<ContinuousFileReader>,
    path: Seq<char>,
) -> bool {
    match after {
        Some(rd) => rd.file_path@ == path && rd.read_bytes == match before {
            Some(o) => if o.file_path@ == path {
                o.read_bytes
            } else {
                0
            },
            None => 0,
        },
        None => false,
    }
}

/// Follows the newest log file of a directory across polls.
#[derive(Debug)]
pub struct VrChatLogProcessor {
    pub log_dir: String,
    pub reader: Option<ContinuousFileReader>,
}

impl VrChatLogProcessor {
    pub fn new(log_dir: String) -> (r: Self)
        ensures
            r.log_dir == log_dir,
            r.reader is None,
    {
        VrChatLogProcessor { log_dir, reader: None }
    }

    /// Chooses the log file to read in this poll among `entries`. `None`
    /// where none is a log file; the state is then left as it is. Otherwise
    /// the chosen file is followed from the start if it is not the one
    /// followed so far, and the result says whether this is the first file
    /// followed at all: the lines of that first read are history.
    pub fn select_log_file(&mut self, entries: &Vec<LogFileEntry>) -> (r: Option<bool>)
        ensures
            r is None <==> forall|j: int|
                0 <= j < entries@.len() ==> !is_log_file(#[trigger] entries@[j]),
            r is None ==> *final(self) == *old(self),
            r matches Some(first) ==> {
                &&& first == old(self).reader is None
                &&& final(self).log_dir == old(self).log_dir
                &&& exists|i: int| #[trigger]
                    is_latest(entries@, i) && follows(old(self).reader, final(self).reader, entries@[i].path@)
            },
    {
        let i = match select_latest(entries) {
            Some(i) => i,
            None => return None,
        };
        let latest = entries[i].path.clone();
        let first = self.reader.is_none();
        let same = match &self.reader {
            Some(rd) => rd.file_path == latest,
            None => false,
        };
        if !same {
            self.reader = Some(ContinuousFileReader::new(latest));
        }
        assert(is_latest(entries@, i as int));
        Some(first)
    }

    /// Reads the bytes appended to the followed file since the last read.
    /// `None` where no file is followed yet.
    pub fn read_appended_lines(&mut self, appended: &[u8]) -> (r: Option<AppendedLines>)
        requires
            old(self).reader matches Some(rd) ==> rd.read_bytes + appended@.len() <= u64::MAX,
        ensures
            final(self).log_dir == old(self).log_dir,
            old(self).reader is None <==> r is None,
            old(self).reader is None ==> final(self).reader is None,
            old(self).reader matches Some(o) ==> {
                &&& final(self).reader matches Some(rd)
                &&& rd.file_path == o.file_path
                &&& rd.read_bytes == o.read_bytes + read_lines(appended@).1
                &&& r matches Some(a) && a.lines@.map_values(|s: String| s@) == read_lines(
                    appended@,
                ).0
                &&& r matches Some(a) && a.invalid_data == (read_lines(appended@).1 < appended@.len())
            },
    {
        match &mut self.reader {
            Some(rd) => Some(rd.read_appended_lines(appended)),
            None => None,
        }
    }
}

} // verus!
