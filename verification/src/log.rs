//! Log file locations, log entries, and the analysis of a log file's lines.

use vstd::prelude::*;
use crate::text::{chars_of, find_first, first_occurrence, has_substring, occurs_at, vec_contains};

verus! {

/// Where and how log entries are written.
pub struct Log;

/// The directory that holds the logs under the home directory `home`.
pub open spec fn log_dir(home: Seq<char>) -> Seq<char> {
    home + "/.log/dex_daemon/"@
}

/// The log file for entries of kind `head` under the home directory `home`.
pub open spec fn log_file(home: Seq<char>, head: Seq<char>) -> Seq<char> {
    log_dir(home) + head + ".log"@
}

/// One log entry: the time it was written, ": ", and the message.
pub open spec fn log_entry(time: Seq<char>, body: Seq<char>) -> Seq<char> {
    time + ": "@ + body
}

/// The file that collects the daemon's own errors.
pub const ERROR_LOG_PATH: &'static str = "/tmp/ERROR-dex.log";

impl Log {
    /// The directory that holds the logs under `home`.
    pub fn dir_path(home: &str) -> (r: String)
        ensures
            r@ == log_dir(home@),
    {
        let mut s = home.to_owned();
        s.append("/.log/dex_daemon/");
        s
    }

    /// The log file for entries of kind `head` under `home`.
    pub fn file_path(home: &str, head: &str) -> (r: String)
        ensures
            r@ == log_file(home@, head@),
    {
        let mut s = Log::dir_path(home);
        s.append(head);
        s.append(".log");
        s
    }

    /// The line written for `body` at the instant (`secs`, `nanos`) seen at
    /// UTC offset `offset` (seconds): the instant as chrono displays it,
    /// ": ", and the message. Analysis reads that very instant back as the
    /// line's timestamp.
    pub fn entry_at(secs: i64, nanos: u32, offset: i32, body: &str) -> (r: String)
        requires
            displayable(secs, nanos, offset),
        ensures
            r@ == log_entry(displayed_instant(secs, nanos, offset), body@),
            line_stamp(r@) == Some(LogTime { secs, nanos }),
    {
        let time = display_instant(secs, nanos, offset);
        proof {
            lemma_entry_stamp(time@, body@);
        }
        Log::entry(time.as_str(), body)
    }

    /// The line written for `body` at the time rendered as `time`.
    pub fn entry(time: &str, body: &str) -> (r: String)
        ensures
            r@ == log_entry(time@, body@),
    {
        let mut s = time.to_owned();
        s.append(": ");
        s.append(body);
        s
    }
}

/// Severity of a log, from harmless to critical.
#[derive(Clone, Copy, Debug, PartialEq, Eq, Structural, PartialOrd, Ord)]
pub enum Loglevel {
    Good,
    Normal,
    Warning,
    Critical,
}

impl Loglevel {
    /// Position of the level in the order Good < Normal < Warning < Critical.
    pub open spec fn rank(self) -> nat {
        match self {
            Loglevel::Good => 0,
            Loglevel::Normal => 1,
            Loglevel::Warning => 2,
            Loglevel::Critical => 3,
        }
    }

    /// The more severe of two levels.
    pub open spec fn higher(self, other: Loglevel) -> Loglevel {
        if other.rank() >= self.rank() {
            other
        } else {
            self
        }
    }

    /// The position of this level in the severity order.
    pub fn severity(&self) -> (r: u8)
        ensures
            r == self.rank(),
    {
        match self {
            Loglevel::Good => 0,
            Loglevel::Normal => 1,
            Loglevel::Warning => 2,
            Loglevel::Critical => 3,
        }
    }

    /// The more severe of `self` and `other` (`std::cmp::max` in the derived order).
    pub fn max_level(self, other: Loglevel) -> (r: Loglevel)
        ensures
            r == self.higher(other),
    {
        if other.severity() >= self.severity() {
            other
        } else {
            self
        }
    }
}

/// An instant, as seconds and nanoseconds since the Unix epoch.
#[derive(Clone, Copy, Debug, PartialEq, Eq, Structural)]
pub struct LogTime {
    pub secs: i64,
    pub nanos: u32,
}

impl LogTime {
    /// The Unix epoch, the time a fresh status starts with.
    pub fn epoch() -> (t: LogTime)
        ensures
            t.secs == 0 && t.nanos == 0,
    {
        LogTime { secs: 0, nanos: 0 }
    }
}

/// What `chrono::DateTime::parse_from_str(text, format)` yields: the parsed
/// instant as (Unix seconds, subsecond nanoseconds), or `None` when the text
/// does not match the format.
pub uninterp spec fn parsed_instant(text: Seq<char>, format: Seq<char>) -> Option<(i64, u32)>;

/// `chrono::DateTime::parse_from_str`, with the result taken as the instant it
/// denotes. The contract claims only that the outcome is a function of the
/// text and the format, named `parsed_instant`; the grammar of the format
/// is not restated.
#[verifier::external_body]
fn parse_instant(text: &str, format: &str) -> (r: Option<(i64, u32)>)
    ensures
        r == parsed_instant(text@, format@),
{
    match chrono::DateTime::parse_from_str(text, format) {
        Ok(t) => Some((t.timestamp(), t.timestamp_subsec_nanos())),
        Err(_) => None,
    }
}

/// The instants whose display at a given offset reads back exactly: no
/// leap second, an offset of whole minutes within a day, and a local date
/// in the years 0 to 9999.
pub open spec fn displayable(secs: i64, nanos: u32, offset: i32) -> bool {
    &&& nanos < 1_000_000_000
    &&& -86400 < offset < 86400
    &&& offset % 60 == 0
    &&& -62167219200 <= secs + offset <= 253402300799
}

/// Whether the instant (`secs`, `nanos`) at `offset` is displayable.
pub fn is_displayable(secs: i64, nanos: u32, offset: i32) -> (r: bool)
    ensures
        r == displayable(secs, nanos, offset),
{
    let local: i128 = secs as i128 + offset as i128;
    nanos < 1_000_000_000 && -86400 < offset && offset < 86400 && offset % 60 == 0
        && -62167219200 <= local && local <= 253402300799
}

/// The text chrono's `Display` writes for the instant (`secs`, `nanos`) as
/// a `DateTime<FixedOffset>` at UTC offset `offset` seconds.
pub uninterp spec fn displayed_instant(secs: i64, nanos: u32, offset: i32) -> Seq<char>;

/// chrono's `Display` of `DateTime<FixedOffset>`, for a displayable
/// instant. The contract claims that the text is a function of the three
/// values, named `displayed_instant`; that it holds no ": " (it is
/// `YYYY-MM-DD HH:MM:SS`, an optional fraction, a space and `+HH:MM`); and
/// that parsing it with the stamp format gives back the same instant, which
/// chrono's `%Y`, `%S%.f` and `%z` parsers accept for exactly that layout.
#[verifier::external_body]
fn display_instant(secs: i64, nanos: u32, offset: i32) -> (r: String)
    requires
        displayable(secs, nanos, offset),
    ensures
        r@ == displayed_instant(secs, nanos, offset),
        !has_substring(r@, stamp_separator()),
        parsed_instant(r@, stamp_format()) == Some((secs, nanos)),
{
    let zone = chrono::FixedOffset::east_opt(offset).expect("offset within a day");
    let instant = chrono::DateTime::from_timestamp(secs, nanos).expect("instant in range");
    instant.with_timezone(&zone).to_string()
}

/// The layout of the timestamp that starts a log entry.
pub open spec fn stamp_format() -> Seq<char> {
    "%Y-%m-%d %H:%M:%S%.f %z"@
}

/// The separator between a log entry's timestamp and its body.
pub open spec fn stamp_separator() -> Seq<char> {
    ": "@
}

/// The text before the first ": " of a line, if the line has one.
pub open spec fn stamp_text(line: Seq<char>) -> Option<Seq<char>> {
    if has_substring(line, stamp_separator()) {
        Some(line.subrange(0, first_occurrence(line, stamp_separator())))
    } else {
        None
    }
}

/// The instant a log line starts with, if its leading text parses as one.
pub open spec fn line_stamp(line: Seq<char>) -> Option<LogTime> {
    match stamp_text(line) {
        Some(t) => match parsed_instant(t, stamp_format()) {
            Some(p) => Some(LogTime { secs: p.0, nanos: p.1 }),
            None => None,
        },
        None => None,
    }
}

/// How severe a single log line is.
pub open spec fn line_severity(line: Seq<char>) -> Loglevel {
    if has_substring(line, "CRITICAL"@) || has_substring(line, "panic"@) || has_substring(
        line,
        "down"@,
    ) {
        Loglevel::Critical
    } else if has_substring(line, "WARN"@) || has_substring(line, "high"@) {
        Loglevel::Warning
    } else if has_substring(line, "INFO"@) || has_substring(line, "SYSTEM"@) {
        Loglevel::Normal
    } else {
        Loglevel::Good
    }
}

/// A line that reports a problem (a warning or worse).
pub open spec fn is_alarming(line: Seq<char>) -> bool {
    line_severity(line).rank() >= 2
}

/// The state of an analysis part way through a file.
pub struct LogScan {
    pub level: Loglevel,
    pub line_num: Seq<u64>,
    pub count: int,
    pub msg: Seq<char>,
    pub f_time: LogTime,
    pub l_time: LogTime,
}

/// The effect of line `idx` (`None` when it could not be read) on the analysis.
pub open spec fn scan_line(st: LogScan, idx: int, line: Option<Seq<char>>) -> LogScan {
    match line {
        None => st,
        Some(l) => {
            let sev = line_severity(l);
            let level = st.level.higher(sev);
            if sev.rank() >= 2 {
                let count = st.count + 1;
                let msg = if st.msg.len() == 0 {
                    l
                } else {
                    st.msg + "\n"@ + l
                };
                let f_time = match line_stamp(l) {
                    Some(t) => if count == 1 {
                        t
                    } else {
                        st.f_time
                    },
                    None => st.f_time,
                };
                let l_time = match line_stamp(l) {
                    Some(t) => t,
                    None => st.l_time,
                };
                LogScan { level, line_num: st.line_num.push(idx as u64), count, msg, f_time, l_time }
            } else {
                LogScan { level, ..st }
            }
        },
    }
}

/// The analysis after all of `lines`, starting from `st`.
pub open spec fn scan_lines(st: LogScan, lines: Seq<Option<Seq<char>>>) -> LogScan
    decreases lines.len(),
{
    if lines.len() == 0 {
        st
    } else {
        scan_line(scan_lines(st, lines.drop_last()), lines.len() - 1, lines.last())
    }
}

/// The text of each line, `None` for a line that could not be read.
pub open spec fn line_views(lines: Seq<Option<String>>) -> Seq<Option<Seq<char>>> {
    lines.map_values(
        |o: Option<String>|
            match o {
                Some(s) => Some(s@),
                None => None,
            },
    )
}

/// The message recorded when there is no log file.
pub open spec fn no_log_message() -> Seq<char> {
    "No log file found.System clean"@
}

/// The result of analysing a log file.
#[derive(Clone, Debug)]
pub struct Logstatus {
    /// The log file's path, as the bytes of the operating system's path
    /// (any bytes, not only UTF-8).
    pub path: Vec<u8>,
    pub line_num: Vec<u64>,
    pub level: Loglevel,
    pub prob: String,
    pub count: u64,
    pub f_time: LogTime,
    pub l_time: LogTime,
}

impl Logstatus {
    /// The state an analysis of `self`'s file starts from.
    pub open spec fn scan_start(&self) -> LogScan {
        LogScan {
            level: Loglevel::Good,
            line_num: self.line_num@,
            count: self.count as int,
            msg: Seq::empty(),
            f_time: self.f_time,
            l_time: self.l_time,
        }
    }

    /// A fresh status for no file in particular.
    pub open spec fn is_fresh(&self) -> bool {
        &&& self.line_num@.len() == 0
        &&& self.level == Loglevel::Good
        &&& self.prob@.len() == 0
        &&& self.count == 0
        &&& self.f_time == LogTime { secs: 0, nanos: 0 }
        &&& self.l_time == LogTime { secs: 0, nanos: 0 }
    }

    /// A fresh status for the log file at `path`.
    pub fn with_path(path: Vec<u8>) -> (r: Logstatus)
        ensures
            r.path@ == path@,
            r.is_fresh(),
    {
        Logstatus {
            path,
            line_num: Vec::new(),
            level: Loglevel::Good,
            prob: String::new(),
            count: 0,
            f_time: LogTime::epoch(),
            l_time: LogTime::epoch(),
        }
    }

    /// Analyses the lines of the log file (`None` when the file does not
    /// exist; an unreadable line is `None` and still counts as a line).
    /// Each line that reports a warning or worse is numbered, counted and
    /// quoted in `prob`; the overall level is the worst line's level; the
    /// first and last alarming lines that start with a timestamp set the
    /// first and last times.
    pub fn analyse(&mut self, lines: Option<&Vec<Option<String>>>)
        requires
            match lines {
                Some(ls) => old(self).count + ls@.len() <= u64::MAX,
                None => true,
            },
        ensures
            final(self).path == old(self).path,
            match lines {
                None => {
                    &&& final(self).level == Loglevel::Good
                    &&& final(self).prob@ == no_log_message()
                    &&& final(self).line_num@ == old(self).line_num@
                    &&& final(self).count == old(self).count
                    &&& final(self).f_time == old(self).f_time
                    &&& final(self).l_time == old(self).l_time
                },
                Some(ls) => {
                    let r = scan_lines(old(self).scan_start(), line_views(ls@));
                    &&& final(self).level == r.level
                    &&& final(self).prob@ == r.msg
                    &&& final(self).line_num@ == r.line_num
                    &&& final(self).count == r.count
                    &&& final(self).f_time == r.f_time
                    &&& final(self).l_time == r.l_time
                },
            },
    {
        match lines {
            None => {
                self.level = Loglevel::Good;
                self.prob = "No log file found.System clean".to_owned();
            },
            Some(ls) => {
                self.scan(ls);
            },
        }
    }

    fn scan(&mut self, ls: &Vec<Option<String>>)
        requires
            old(self).count + ls@.len() <= u64::MAX,
        ensures
            final(self).path == old(self).path,
            ({
                let r = scan_lines(old(self).scan_start(), line_views(ls@));
                &&& final(self).level == r.level
                &&& final(self).prob@ == r.msg
                &&& final(self).line_num@ == r.line_num
                &&& final(self).count == r.count
                &&& final(self).f_time == r.f_time
                &&& final(self).l_time == r.l_time
            }),
    {
        let ghost start = self.scan_start();
        let ghost views = line_views(ls@);
        let mut level = Loglevel::Good;
        let mut msg = String::new();
        let n = ls.len();
        let mut i: usize = 0;
        assert(views.take(0) =~= Seq::<Option<Seq<char>>>::empty());
        while i < n
            invariant
                n == ls@.len(),
                i <= n,
                views == line_views(ls@),
                views.len() == n,
                start.count + n <= u64::MAX,
                self.count <= start.count + i,
                self.path == old(self).path,
                ({
                    let r = scan_lines(start, views.take(i as int));
                    &&& level == r.level
                    &&& msg@ == r.msg
                    &&& self.line_num@ == r.line_num
                    &&& self.count == r.count
                    &&& self.f_time == r.f_time
                    &&& self.l_time == r.l_time
                }),
            decreases n - i,
        {
            assert(views.take(i + 1).drop_last() =~= views.take(i as int));
            assert(views.take(i + 1).last() == views[i as int]);
            match &ls[i] {
                None => {},
                Some(line) => {
                    let chars = chars_of(line.as_str());
                    let sev = classify(&chars);
                    level = level.max_level(sev);
                    if sev.severity() >= 2 {
                        self.line_num.push(i as u64);
                        self.count = self.count + 1;
                        if !msg.as_str().is_empty() {
                            msg.append("\n");
                        }
                        msg.append(line.as_str());
                        match line_stamp_of(line, &chars) {
                            Some(t) => {
                                if self.count == 1 {
                                    self.f_time = t;
                                }
                                self.l_time = t;
                            },
                            None => {},
                        }
                    }
                },
            }
            i = i + 1;
        }
        assert(views.take(n as int) =~= views);
        self.level = level;
        self.prob = msg;
    }
}

/// The severity of the line whose characters are `l`.
fn classify(l: &Vec<char>) -> (r: Loglevel)
    ensures
        r == line_severity(l@),
{
    if vec_contains(l, &chars_of("CRITICAL")) || vec_contains(l, &chars_of("panic"))
        || vec_contains(l, &chars_of("down")) {
        Loglevel::Critical
    } else if vec_contains(l, &chars_of("WARN")) || vec_contains(l, &chars_of("high")) {
        Loglevel::Warning
    } else if vec_contains(l, &chars_of("INFO")) || vec_contains(l, &chars_of("SYSTEM")) {
        Loglevel::Normal
    } else {
        Loglevel::Good
    }
}

/// The instant that starts `line` (whose characters are `chars`), if any.
fn line_stamp_of(line: &String, chars: &Vec<char>) -> (r: Option<LogTime>)
    requires
        chars@ == line@,
    ensures
        r == line_stamp(line@),
{
    let sep = chars_of(": ");
    match find_first(chars, &sep) {
        Some(pos) => {
            assert(has_substring(line@, stamp_separator()));
            assert(first_occurrence(line@, stamp_separator()) == pos);
            let text = line.as_str().substring_char(0, pos);
            match parse_instant(text, "%Y-%m-%d %H:%M:%S%.f %z") {
                Some(p) => Some(LogTime { secs: p.0, nanos: p.1 }),
                None => None,
            }
        },
        None => None,
    }
}

/// An entry whose time text holds no ": " is read back with that text as
/// its timestamp.
pub proof fn lemma_entry_stamp(time: Seq<char>, body: Seq<char>)
    requires
        !has_substring(time, stamp_separator()),
    ensures
        stamp_text(log_entry(time, body)) == Some(time),
{
    let e = log_entry(time, body);
    let sep = stamp_separator();
    reveal_strlit(": ");
    assert(occurs_at(e, sep, time.len() as int)) by {
        assert(e.subrange(time.len() as int, time.len() + 2int) =~= sep);
    }
    assert forall|j: int| 0 <= j < time.len() implies !occurs_at(e, sep, j) by {
        if occurs_at(e, sep, j) {
            if j + 2 <= time.len() {
                assert(time.subrange(j, j + 2) =~= e.subrange(j, j + 2));
                assert(occurs_at(time, sep, j));
            } else {
                assert(e[j + 1] == sep[1]);
                assert(e[j + 1] == ':');
                assert(e.subrange(j, j + 2)[1] == e[j + 1]);
                assert(false);
            }
        }
    }
    let k = first_occurrence(e, sep);
    assert(k == time.len()) by {
        if k < time.len() {
            assert(!occurs_at(e, sep, k));
        }
        if k > time.len() {
            assert(!occurs_at(e, sep, time.len() as int));
        }
    }
    assert(e.subrange(0, k) =~= time);
}

/// The level an analysis arrives at is the worst level of any readable
/// line, or Good when no line rates higher.
pub proof fn lemma_level_is_worst(st: LogScan, lines: Seq<Option<Seq<char>>>)
    requires
        st.level == Loglevel::Good,
    ensures
        forall|i: int|
            0 <= i < lines.len() && #[trigger] lines[i] is Some ==> scan_lines(st, lines).level.rank()
                >= line_severity(lines[i]->0).rank(),
        scan_lines(st, lines).level == Loglevel::Good || exists|i: int|
            0 <= i < lines.len() && #[trigger] lines[i] is Some && line_severity(lines[i]->0)
                == scan_lines(st, lines).level,
    decreases lines.len(),
{
    if lines.len() > 0 {
        let prev = lines.drop_last();
        lemma_level_is_worst(st, prev);
        let r = scan_lines(st, lines);
        let q = scan_lines(st, prev);
        assert forall|i: int|
            0 <= i < lines.len() && #[trigger] lines[i] is Some implies r.level.rank()
                >= line_severity(lines[i]->0).rank() by {
            if i < lines.len() - 1 {
                assert(prev[i] == lines[i]);
            }
        }
        if r.level != Loglevel::Good {
            if r.level == q.level {
                if q.level != Loglevel::Good {
                    let i = choose|i: int|
                        0 <= i < prev.len() && #[trigger] prev[i] is Some && line_severity(prev[i]->0)
                            == q.level;
                    assert(lines[i] == prev[i]);
                } else {
                    assert(lines[lines.len() - 1] is Some);
                }
            } else {
                assert(lines[lines.len() - 1] is Some);
            }
        }
    }
}

/// An analysis numbers exactly the alarming readable lines, in increasing
/// order after the numbers it started with, and counts each of them once.
pub proof fn lemma_alarm_lines_recorded(st: LogScan, lines: Seq<Option<Seq<char>>>)
    requires
        lines.len() <= u64::MAX,
    ensures
        ({
            let r = scan_lines(st, lines);
            let base = st.line_num.len() as int;
            &&& r.count >= st.count
            &&& r.line_num.len() == base + (r.count - st.count)
            &&& r.line_num.subrange(0, base) == st.line_num
            &&& forall|k: int|
                base <= k < r.line_num.len() ==> {
                    let i = #[trigger] r.line_num[k] as int;
                    &&& i < lines.len()
                    &&& lines[i] is Some
                    &&& is_alarming(lines[i]->0)
                }
            &&& forall|k1: int, k2: int|
                base <= k1 < k2 < r.line_num.len() ==> #[trigger] r.line_num[k1]
                    < #[trigger] r.line_num[k2]
            &&& forall|i: int|
                0 <= i < lines.len() && #[trigger] lines[i] is Some && is_alarming(lines[i]->0)
                    ==> exists|k: int| base <= k < r.line_num.len() && r.line_num[k] == i
        }),
    decreases lines.len(),
{
    let base = st.line_num.len() as int;
    if lines.len() == 0 {
        assert(st.line_num.subrange(0, base) =~= st.line_num);
    } else {
        let prev = lines.drop_last();
        lemma_alarm_lines_recorded(st, prev);
        let q = scan_lines(st, prev);
        let r = scan_lines(st, lines);
        let n = lines.len() - 1;
        assert forall|k: int| base <= k < q.line_num.len() implies #[trigger] q.line_num[k] < n by {
            assert(prev[q.line_num[k] as int] is Some);
        }
        match lines.last() {
            Some(l) => {
                if is_alarming(l) {
                    assert(r.line_num == q.line_num.push(n as u64));
                    assert(r.line_num.subrange(0, base) =~= q.line_num.subrange(0, base));
                    assert forall|i: int|
                        0 <= i < lines.len() && #[trigger] lines[i] is Some && is_alarming(
                            lines[i]->0,
                        ) implies exists|k: int| base <= k < r.line_num.len() && r.line_num[k] == i by {
                        if i < n {
                            assert(prev[i] == lines[i]);
                            let k = choose|k: int| base <= k < q.line_num.len() && q.line_num[k] == i;
                            assert(r.line_num[k] == i);
                        } else {
                            assert(r.line_num[q.line_num.len() as int] == i);
                        }
                    }
                    assert forall|k: int| base <= k < r.line_num.len() implies {
                        let i = #[trigger] r.line_num[k] as int;
                        &&& i < lines.len()
                        &&& lines[i] is Some
                        &&& is_alarming(lines[i]->0)
                    } by {
                        if k < q.line_num.len() {
                            assert(r.line_num[k] == q.line_num[k]);
                            assert(prev[q.line_num[k] as int] == lines[q.line_num[k] as int]);
                        }
                    }
                } else {
                    assert(r.line_num == q.line_num);
                    assert forall|i: int|
                        0 <= i < lines.len() && #[trigger] lines[i] is Some && is_alarming(
                            lines[i]->0,
                        ) implies exists|k: int| base <= k < r.line_num.len() && r.line_num[k] == i by {
                        assert(prev[i] == lines[i]);
                    }
                    assert forall|k: int| base <= k < r.line_num.len() implies {
                        let i = #[trigger] r.line_num[k] as int;
                        &&& i < lines.len()
                        &&& lines[i] is Some
                        &&& is_alarming(lines[i]->0)
                    } by {
                        assert(prev[q.line_num[k] as int] == lines[q.line_num[k] as int]);
                    }
                }
            },
            None => {
                assert forall|i: int|
                    0 <= i < lines.len() && #[trigger] lines[i] is Some && is_alarming(
                        lines[i]->0,
                    ) implies exists|k: int| base <= k < r.line_num.len() && r.line_num[k] == i by {
                    assert(prev[i] == lines[i]);
                }
                assert forall|k: int| base <= k < r.line_num.len() implies {
                    let i = #[trigger] r.line_num[k] as int;
                    &&& i < lines.len()
                    &&& lines[i] is Some
                    &&& is_alarming(lines[i]->0)
                } by {
                    assert(prev[q.line_num[k] as int] == lines[q.line_num[k] as int]);
                }
            },
        }
    }
}

/// Once an analysis has counted an alarming line, the first time is fixed:
/// later lines never change it.
pub proof fn lemma_first_time_fixed(st: LogScan, lines: Seq<Option<Seq<char>>>)
    requires
        st.count >= 1,
    ensures
        scan_lines(st, lines).f_time == st.f_time,
        scan_lines(st, lines).count >= st.count,
    decreases lines.len(),
{
    if lines.len() > 0 {
        lemma_first_time_fixed(st, lines.drop_last());
    }
}

/// When the last line analysed is alarming, the analysis rates the log at
/// least as severe as that line, ends its message with the line, and takes
/// the line's timestamp, if it has one, as the last time.
pub proof fn lemma_last_alarming_line(st: LogScan, lines: Seq<Option<Seq<char>>>)
    requires
        lines.len() > 0,
        lines.last() is Some,
        is_alarming(lines.last()->0),
    ensures
        ({
            let l = lines.last()->0;
            let r = scan_lines(st, lines);
            &&& r.level.rank() >= line_severity(l).rank()
            &&& r.msg.len() >= l.len()
            &&& r.msg.subrange(r.msg.len() - l.len(), r.msg.len() as int) == l
            &&& line_stamp(l) matches Some(t) ==> r.l_time == t
        }),
{
    let l = lines.last()->0;
    let q = scan_lines(st, lines.drop_last());
    let r = scan_lines(st, lines);
    if q.msg.len() == 0 {
        assert(r.msg.subrange(0, l.len() as int) =~= l);
    } else {
        assert(r.msg.subrange(r.msg.len() - l.len(), r.msg.len() as int) =~= l);
    }
}

/// With no alarming readable line, an analysis counts nothing and leaves
/// both times as they were.
proof fn lemma_no_alarm_no_change(st: LogScan, lines: Seq<Option<Seq<char>>>)
    requires
        forall|j: int|
            0 <= j < lines.len() && #[trigger] lines[j] is Some ==> !is_alarming(lines[j]->0),
    ensures
        scan_lines(st, lines).count == st.count,
        scan_lines(st, lines).f_time == st.f_time,
        scan_lines(st, lines).l_time == st.l_time,
    decreases lines.len(),
{
    if lines.len() > 0 {
        let prev = lines.drop_last();
        assert forall|j: int|
            0 <= j < prev.len() && #[trigger] prev[j] is Some implies !is_alarming(prev[j]->0) by {
            assert(prev[j] == lines[j]);
        }
        lemma_no_alarm_no_change(st, prev);
        assert(lines[lines.len() - 1] == lines.last());
    }
}

/// Starting from nothing counted, the first time is the timestamp of the
/// first alarming line, when that line has one.
pub proof fn lemma_first_alarm_time(st: LogScan, lines: Seq<Option<Seq<char>>>, k: int)
    requires
        st.count == 0,
        0 <= k < lines.len(),
        lines[k] is Some,
        is_alarming(lines[k]->0),
        line_stamp(lines[k]->0) is Some,
        forall|j: int| 0 <= j < k && #[trigger] lines[j] is Some ==> !is_alarming(lines[j]->0),
    ensures
        scan_lines(st, lines).f_time == line_stamp(lines[k]->0)->0,
        scan_lines(st, lines).count >= 1,
    decreases lines.len(),
{
    let prev = lines.drop_last();
    let n = lines.len() - 1;
    if k == n {
        assert forall|j: int|
            0 <= j < prev.len() && #[trigger] prev[j] is Some implies !is_alarming(prev[j]->0) by {
            assert(prev[j] == lines[j]);
        }
        lemma_no_alarm_no_change(st, prev);
        assert(lines.last() == lines[k]);
    } else {
        assert(prev[k] == lines[k]);
        assert forall|j: int|
            0 <= j < k && #[trigger] prev[j] is Some implies !is_alarming(prev[j]->0) by {
            assert(prev[j] == lines[j]);
        }
        lemma_first_alarm_time(st, prev, k);
    }
}

/// The last time is the timestamp of the last alarming line that has one.
pub proof fn lemma_last_alarm_time(st: LogScan, lines: Seq<Option<Seq<char>>>, k: int)
    requires
        0 <= k < lines.len(),
        lines[k] is Some,
        is_alarming(lines[k]->0),
        line_stamp(lines[k]->0) is Some,
        forall|j: int|
            k < j < lines.len() && #[trigger] lines[j] is Some && is_alarming(lines[j]->0)
                ==> line_stamp(lines[j]->0) is None,
    ensures
        scan_lines(st, lines).l_time == line_stamp(lines[k]->0)->0,
    decreases lines.len(),
{
    let prev = lines.drop_last();
    let n = lines.len() - 1;
    assert(lines.last() == lines[n]);
    if k < n {
        assert(prev[k] == lines[k]);
        assert forall|j: int|
            k < j < prev.len() && #[trigger] prev[j] is Some && is_alarming(prev[j]->0)
                implies line_stamp(prev[j]->0) is None by {
            assert(prev[j] == lines[j]);
        }
        lemma_last_alarm_time(st, prev, k);
    }
}

/// The texts of the alarming readable lines, in order.
pub open spec fn alarm_texts(lines: Seq<Option<Seq<char>>>) -> Seq<Seq<char>>
    decreases lines.len(),
{
    if lines.len() == 0 {
        Seq::empty()
    } else {
        let p = alarm_texts(lines.drop_last());
        match lines.last() {
            Some(l) => if is_alarming(l) {
                p.push(l)
            } else {
                p
            },
            None => p,
        }
    }
}

/// Texts joined with a newline between each two.
pub open spec fn join_lines(ts: Seq<Seq<char>>) -> Seq<char>
    decreases ts.len(),
{
    if ts.len() == 0 {
        Seq::empty()
    } else if ts.len() == 1 {
        ts[0]
    } else {
        join_lines(ts.drop_last()) + "\n"@ + ts.last()
    }
}

/// An alarming line is never empty.
proof fn lemma_alarming_nonempty(l: Seq<char>)
    requires
        is_alarming(l),
    ensures
        l.len() > 0,
{
    lemma_keywords_rate_line(l);
    reveal_strlit("CRITICAL");
    reveal_strlit("panic");
    reveal_strlit("down");
    reveal_strlit("WARN");
    reveal_strlit("high");
}

/// Starting from an empty message, the message of an analysis is the
/// alarming lines, in order, joined by newlines.
pub proof fn lemma_prob_joins_alarms(st: LogScan, lines: Seq<Option<Seq<char>>>)
    requires
        st.msg.len() == 0,
    ensures
        scan_lines(st, lines).msg == join_lines(alarm_texts(lines)),
        scan_lines(st, lines).msg.len() == 0 <==> alarm_texts(lines).len() == 0,
    decreases lines.len(),
{
    if lines.len() > 0 {
        let prev = lines.drop_last();
        lemma_prob_joins_alarms(st, prev);
        match lines.last() {
            Some(l) => {
                if is_alarming(l) {
                    lemma_alarming_nonempty(l);
                    let p = alarm_texts(prev);
                    assert(p.push(l).drop_last() =~= p);
                    if p.len() == 0 {
                        assert(p.push(l)[0] == l);
                    }
                }
            },
            None => {},
        }
    }
}

/// A line containing "CRITICAL", "panic" or "down".
pub open spec fn has_critical_word(l: Seq<char>) -> bool {
    has_substring(l, "CRITICAL"@) || has_substring(l, "panic"@) || has_substring(l, "down"@)
}

/// A line containing "WARN" or "high".
pub open spec fn has_warning_word(l: Seq<char>) -> bool {
    has_substring(l, "WARN"@) || has_substring(l, "high"@)
}

/// A line containing "INFO" or "SYSTEM".
pub open spec fn has_info_word(l: Seq<char>) -> bool {
    has_substring(l, "INFO"@) || has_substring(l, "SYSTEM"@)
}

/// A line is rated by its keywords: critical words first, then warning
/// words, then informational ones; a line with none is harmless. A line is
/// alarming exactly when it holds a critical or a warning word.
pub proof fn lemma_keywords_rate_line(l: Seq<char>)
    ensures
        has_critical_word(l) ==> line_severity(l) == Loglevel::Critical,
        !has_critical_word(l) && has_warning_word(l) ==> line_severity(l) == Loglevel::Warning,
        !has_critical_word(l) && !has_warning_word(l) && has_info_word(l) ==> line_severity(l)
            == Loglevel::Normal,
        !has_critical_word(l) && !has_warning_word(l) && !has_info_word(l) ==> line_severity(l)
            == Loglevel::Good,
        is_alarming(l) <==> (has_critical_word(l) || has_warning_word(l)),
{
}

/// The level of an analysis follows the keywords of its readable lines:
/// any critical word makes it Critical; otherwise any warning word makes it
/// Warning; otherwise any informational word makes it Normal; else Good.
pub proof fn lemma_keywords_rate_log(st: LogScan, lines: Seq<Option<Seq<char>>>)
    requires
        st.level == Loglevel::Good,
    ensures
        ({
            let r = scan_lines(st, lines);
            let crit = exists|i: int|
                0 <= i < lines.len() && #[trigger] lines[i] is Some && has_critical_word(
                    lines[i]->0,
                );
            let warn = exists|i: int|
                0 <= i < lines.len() && #[trigger] lines[i] is Some && has_warning_word(
                    lines[i]->0,
                );
            let info = exists|i: int|
                0 <= i < lines.len() && #[trigger] lines[i] is Some && has_info_word(lines[i]->0);
            &&& crit ==> r.level == Loglevel::Critical
            &&& !crit && warn ==> r.level == Loglevel::Warning
            &&& !crit && !warn && info ==> r.level == Loglevel::Normal
            &&& !crit && !warn && !info ==> r.level == Loglevel::Good
        }),
{
    lemma_level_is_worst(st, lines);
    let r = scan_lines(st, lines);
    let crit = exists|i: int|
        0 <= i < lines.len() && #[trigger] lines[i] is Some && has_critical_word(lines[i]->0);
    let warn = exists|i: int|
        0 <= i < lines.len() && #[trigger] lines[i] is Some && has_warning_word(lines[i]->0);
    let info = exists|i: int|
        0 <= i < lines.len() && #[trigger] lines[i] is Some && has_info_word(lines[i]->0);
    if crit {
        let i = choose|i: int|
            0 <= i < lines.len() && #[trigger] lines[i] is Some && has_critical_word(lines[i]->0);
        lemma_keywords_rate_line(lines[i]->0);
    }
    if warn {
        let i = choose|i: int|
            0 <= i < lines.len() && #[trigger] lines[i] is Some && has_warning_word(lines[i]->0);
        lemma_keywords_rate_line(lines[i]->0);
    }
    if info {
        let i = choose|i: int|
            0 <= i < lines.len() && #[trigger] lines[i] is Some && has_info_word(lines[i]->0);
        lemma_keywords_rate_line(lines[i]->0);
    }
    if r.level != Loglevel::Good {
        let i = choose|i: int|
            0 <= i < lines.len() && #[trigger] lines[i] is Some && line_severity(lines[i]->0)
                == r.level;
        lemma_keywords_rate_line(lines[i]->0);
    }
}

impl Default for Logstatus {
    fn default() -> (r: Logstatus)
        ensures
            r.path@.len() == 0,
            r.is_fresh(),
    {
        Logstatus::with_path(Vec::new())
    }
}

} // verus!
