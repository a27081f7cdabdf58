//! Per-process log files: the line written for each event, the file's
//! name and directory, and the size limit after which a log is cut short.
//!
//! Files are created and written by the caller; a `ProcessLogger` hands
//! each formatted line to the writer through a channel.
use vstd::prelude::*;
use crate::text::{decimal_digits, decimal_text, signed_decimal_digits, signed_decimal_text};
use crate::clock::{read_clock, ClockReading};

verus! {

broadcast use vstd::string::group_string_axioms;

/// What happened to a process.
pub enum LogEvent {
    Spawn,
    Stdout,
    Stderr,
    Exit,
    Error,
    Signal,
}

/// The tag that marks an event in a log line.
pub open spec fn event_label(event: LogEvent) -> Seq<char> {
    match event {
        LogEvent::Spawn => "SPAWN"@,
        LogEvent::Stdout => "STDOUT"@,
        LogEvent::Stderr => "STDERR"@,
        LogEvent::Exit => "EXIT"@,
        LogEvent::Error => "ERROR"@,
        LogEvent::Signal => "SIGNAL"@,
    }
}

impl LogEvent {
    /// The tag of this event, as written between brackets.
    pub fn label(&self) -> (r: &'static str)
        ensures
            r@ == event_label(*self),
    {
        match self {
            LogEvent::Spawn => "SPAWN",
            LogEvent::Stdout => "STDOUT",
            LogEvent::Stderr => "STDERR",
            LogEvent::Exit => "EXIT",
            LogEvent::Error => "ERROR",
            LogEvent::Signal => "SIGNAL",
        }
    }
}

/// One event to be logged, its time already rendered as
/// `YYYY-MM-DD HH:MM:SS`.
pub struct LogEntry {
    pub timestamp: String,
    pub event: LogEvent,
    pub content: String,
}

/// The line written for an entry: time, bracketed tag, content.
pub open spec fn entry_line(timestamp: Seq<char>, event: LogEvent, content: Seq<char>) -> Seq<char> {
    timestamp + " ["@ + event_label(event) + "] "@ + content + "\n"@
}

/// Formats an entry as the line the log file receives.
pub fn format_entry(entry: &LogEntry) -> (r: String)
    ensures
        r@ == entry_line(entry.timestamp@, entry.event, entry.content@),
{
    let mut line = entry.timestamp.clone();
    line.append(" [");
    line.append(entry.event.label());
    line.append("] ");
    line.append(entry.content.as_str());
    line.append("\n");
    line
}

/// The user's data directory: `XDG_DATA_HOME` when it is set and not
/// empty, else `.local/share` under `HOME`, else the current directory.
pub open spec fn data_dir_choice(xdg_data_home: Option<Seq<char>>, home: Option<Seq<char>>) -> Seq<char> {
    if xdg_data_home is Some && xdg_data_home->0.len() > 0 {
        xdg_data_home->0
    } else {
        match home {
            Some(h) => h + "/.local/share"@,
            None => "."@,
        }
    }
}

/// Picks the user's data directory from the values of `XDG_DATA_HOME` and
/// `HOME`.
pub fn data_dir(xdg_data_home: Option<&str>, home: Option<&str>) -> (r: String)
    ensures
        r@ == data_dir_choice(
            match xdg_data_home {
                Some(x) => Some(x@),
                None => None,
            },
            match home {
                Some(h) => Some(h@),
                None => None,
            },
        ),
{
    match xdg_data_home {
        Some(x) => {
            if !x.is_empty() {
                return x.to_string();
            }
        },
        None => {},
    }
    match home {
        Some(h) => {
            let mut dir = h.to_string();
            dir.append("/.local/share");
            dir
        },
        None => ".".to_string(),
    }
}

/// The directory under the user's data directory where logs go by default.
pub open spec fn default_log_subdirectory() -> Seq<char> {
    "/async-bash-mcp/logs"@
}

/// The log directory: the one configured, if any, and otherwise
/// `async-bash-mcp/logs` under the data directory `data_dir`.
pub fn get_log_dir(configured: Option<&str>, data_dir: &str) -> (r: String)
    ensures
        r@ == match configured {
            Some(c) => c@,
            None => data_dir@ + default_log_subdirectory(),
        },
{
    match configured {
        Some(c) => c.to_string(),
        None => {
            let mut dir = data_dir.to_string();
            dir.append("/async-bash-mcp/logs");
            dir
        },
    }
}

/// The name of the log file of process `process_id` started at `stamp`.
pub open spec fn log_file_name_text(process_id: u32, stamp: Seq<char>) -> Seq<char> {
    "process_"@ + decimal_digits(process_id as nat) + "_"@ + stamp + ".log"@
}

/// The file name `process_<id>_<stamp>.log`.
pub fn log_file_name(process_id: u32, stamp: &str) -> (r: String)
    ensures
        r@ == log_file_name_text(process_id, stamp@),
{
    let mut name = "process_".to_string();
    let digits = decimal_text(process_id as u64);
    name.append(digits.as_str());
    name.append("_");
    name.append(stamp);
    name.append(".log");
    name
}

/// The size limit of a log when none is configured: 10 MiB.
pub const DEFAULT_MAX_LOG_SIZE: u64 = 10485760;

/// Whether `c` is an ASCII decimal digit.
pub open spec fn is_digit(c: char) -> bool {
    48 <= (c as u32) <= 57
}

/// The value of a text made of decimal digits.
pub open spec fn digits_value(s: Seq<char>) -> nat
    decreases s.len(),
{
    if s.len() == 0 {
        0
    } else {
        digits_value(s.drop_last()) * 10 + ((s.last() as u32) - 48) as nat
    }
}

/// The digits of an unsigned decimal number, after an optional `+`.
pub open spec fn unsigned_digits(s: Seq<char>) -> Seq<char> {
    if s.len() > 0 && s[0] == '+' {
        s.drop_first()
    } else {
        s
    }
}

/// Every character of `d` is a decimal digit.
pub open spec fn all_digits(d: Seq<char>) -> bool {
    forall|i: int| 0 <= i < d.len() ==> is_digit(#[trigger] d[i])
}

/// What `str::parse::<u64>` gives: the value of an optional `+` followed
/// by one or more decimal digits, when it fits in 64 bits.
pub open spec fn parsed_u64(s: Seq<char>) -> Option<u64> {
    let d = unsigned_digits(s);
    if d.len() > 0 && all_digits(d) && digits_value(d) <= u64::MAX {
        Some(digits_value(d) as u64)
    } else {
        None
    }
}

proof fn lemma_digits_value_step(d: Seq<char>, i: int)
    requires
        0 <= i < d.len(),
    ensures
        digits_value(d.subrange(0, i + 1)) == digits_value(d.subrange(0, i)) * 10 + ((d[i] as u32) - 48) as nat,
{
    assert(d.subrange(0, i + 1).drop_last() =~= d.subrange(0, i));
}

proof fn lemma_digits_value_monotone(d: Seq<char>, i: int, j: int)
    requires
        0 <= i <= j <= d.len(),
        all_digits(d),
    ensures
        digits_value(d.subrange(0, i)) <= digits_value(d.subrange(0, j)),
    decreases j - i,
{
    if i < j {
        lemma_digits_value_monotone(d, i, j - 1);
        lemma_digits_value_step(d, j - 1);
    }
}

/// Parses an unsigned 64-bit decimal number as `str::parse::<u64>` does.
pub fn parse_u64(s: &str) -> (r: Option<u64>)
    ensures
        r == parsed_u64(s@),
{
    let n = s.unicode_len();
    let d: &str = if n > 0 && s.get_char(0) == '+' {
        s.substring_char(1, n)
    } else {
        s
    };
    assert(d@ =~= unsigned_digits(s@));
    if d.is_empty() {
        return None;
    }
    let mut value: u64 = 0;
    for c in it: d.chars()
        invariant
            it.seq() == d@,
            d@ == unsigned_digits(s@),
            d@.len() > 0,
            forall|k: int| 0 <= k < it.index() ==> is_digit(#[trigger] d@[k]),
            value == digits_value(d@.subrange(0, it.index() as int)),
    {
        let ghost i = it.index() as int;
        proof {
            lemma_digits_value_step(d@, i);
        }
        let u = c as u32;
        if u < 48 || u > 57 {
            return None;
        }
        let digit = (u - 48) as u64;
        if value > (u64::MAX - digit) / 10 {
            proof {
                assert(value * 10 + digit > u64::MAX) by (nonlinear_arith)
                    requires
                        value > (u64::MAX - digit) / 10,
                        digit <= 9,
                ;
                if all_digits(d@) {
                    lemma_digits_value_monotone(d@, i + 1, d@.len() as int);
                    assert(d@.subrange(0, d@.len() as int) =~= d@);
                }
            }
            return None;
        }
        assert(value * 10 + digit <= u64::MAX) by (nonlinear_arith)
            requires
                value <= (u64::MAX - digit) / 10,
                digit <= 9,
        ;
        value = value * 10 + digit;
    }
    assert(d@.subrange(0, d@.len() as int) =~= d@);
    Some(value)
}

/// The size limit of a log: the configured number of bytes when it reads
/// as one, and 10 MiB otherwise.
pub fn max_log_size(configured: Option<&str>) -> (r: u64)
    ensures
        r == match configured {
            Some(c) => match parsed_u64(c@) {
                Some(v) => v,
                None => DEFAULT_MAX_LOG_SIZE,
            },
            None => DEFAULT_MAX_LOG_SIZE,
        },
{
    match configured {
        Some(c) => match parse_u64(c) {
            Some(v) => v,
            None => DEFAULT_MAX_LOG_SIZE,
        },
        None => DEFAULT_MAX_LOG_SIZE,
    }
}

/// The line that closes a log cut short at its size limit.
pub open spec fn truncation_marker() -> Seq<char> {
    "[TRUNCATED]\n"@
}

/// How many bytes the truncation line takes.
pub const TRUNCATION_MARKER_BYTES: u64 = 12;

/// The byte length that `str::len` reports for a text.
pub open spec fn reported_byte_len(s: Seq<char>) -> nat {
    (vstd::utf8::encode_utf8(s).len() as usize) as nat
}

/// How much a log file may still receive.
pub struct LogBudget {
    max: u64,
    written: u128,
    truncated: bool,
}

pub struct LogBudgetView {
    pub max: nat,
    pub written: nat,
    pub truncated: bool,
}

impl View for LogBudget {
    type V = LogBudgetView;

    closed spec fn view(&self) -> LogBudgetView {
        LogBudgetView { max: self.max as nat, written: self.written as nat, truncated: self.truncated }
    }
}

impl LogBudgetView {
    /// Nothing beyond the limit has been admitted, but for the one
    /// truncation line.
    pub open spec fn within_limit(self) -> bool {
        &&& !self.truncated ==> self.written <= self.max
        &&& self.truncated ==> self.written <= self.max + TRUNCATION_MARKER_BYTES
    }

    /// What the file receives for a line of `len` bytes, and the budget
    /// after it: the line while it fits, then the truncation line once,
    /// then nothing.
    pub open spec fn allot(self, line: Seq<char>, len: nat) -> (Option<Seq<char>>, LogBudgetView) {
        if self.truncated {
            (None, self)
        } else if self.written + len <= self.max {
            (Some(line), LogBudgetView { written: self.written + len, ..self })
        } else {
            (
                Some(truncation_marker()),
                LogBudgetView { written: self.written + TRUNCATION_MARKER_BYTES as nat, truncated: true, ..self },
            )
        }
    }
}

impl LogBudget {
    /// A budget of `max` bytes, none used.
    pub fn new(max: u64) -> (r: Self)
        ensures
            r@ == (LogBudgetView { max: max as nat, written: 0, truncated: false }),
    {
        LogBudget { max, written: 0, truncated: false }
    }

    /// Decides what the file receives for `line`: the line itself while it
    /// fits within the limit, the truncation line the first time one does
    /// not, and nothing after that.
    pub fn allot(&mut self, line: String) -> (r: Option<String>)
        requires
            old(self)@.within_limit(),
        ensures
            final(self)@.within_limit(),
            match r {
                Some(t) => old(self)@.allot(line@, reported_byte_len(line@)) == (Some(t@), final(self)@),
                None => old(self)@.allot(line@, reported_byte_len(line@)) == (None::<Seq<char>>, final(self)@),
            },
    {
        if self.truncated {
            return None;
        }
        let len = line.as_str().len() as u128;
        if len <= self.max as u128 - self.written {
            self.written = self.written + len;
            Some(line)
        } else {
            self.written = self.written + TRUNCATION_MARKER_BYTES as u128;
            self.truncated = true;
            Some("[TRUNCATED]\n".to_string())
        }
    }
}

/// A log never grows beyond its limit by more than the truncation line,
/// whatever lines are offered to it.
pub proof fn lemma_budget_stays_within_limit(b: LogBudgetView, line: Seq<char>, len: nat)
    requires
        b.within_limit(),
    ensures
        b.allot(line, len).1.within_limit(),
        b.allot(line, len).1.max == b.max,
        b.allot(line, len).1.written >= b.written,
        b.truncated ==> b.allot(line, len).0 is None,
{
}

#[verifier::external_type_specification]
#[verifier::external_body]
pub struct ExSystemTime(std::time::SystemTime);

/// Calls `SystemTime::now`. Nothing is stated of the result: it is the
/// time of the call.
#[verifier::external_body]
pub(crate) fn system_now() -> std::time::SystemTime {
    std::time::SystemTime::now()
}

/// Calls `SystemTime::duration_since(UNIX_EPOCH)` and hands out which side
/// of the epoch `t` lies on with the distance in whole seconds and
/// nanoseconds. Trusted, as std documents `Duration::subsec_nanos`: the
/// nanoseconds are below one second. The distance is not stated: the
/// time value is opaque here.
#[verifier::external_body]
pub(crate) fn epoch_distance(t: &std::time::SystemTime) -> (r: (bool, u64, u32))
    ensures
        r.2 < 1000000000,
{
    match t.duration_since(std::time::UNIX_EPOCH) {
        Ok(d) => (true, d.as_secs(), d.subsec_nanos()),
        Err(e) => (false, e.duration().as_secs(), e.duration().subsec_nanos()),
    }
}

/// The instant `secs` whole seconds and `nanos` nanoseconds away from the
/// epoch (after it when `after`), as seconds and non-negative nanoseconds
/// since the epoch; `None` when the seconds do not fit in 64 bits.
pub open spec fn epoch_offset(after: bool, secs: nat, nanos: nat) -> Option<(i64, u32)> {
    if after {
        if secs <= i64::MAX {
            Some((secs as i64, nanos as u32))
        } else {
            None
        }
    } else if nanos == 0 {
        if secs <= i64::MAX {
            Some(((0 - secs) as i64, 0u32))
        } else {
            None
        }
    } else if secs + 1 <= i64::MAX {
        Some(((0 - secs - 1) as i64, (1000000000 - nanos) as u32))
    } else {
        None
    }
}

/// Converts a distance from the epoch into seconds and non-negative
/// nanoseconds since the epoch.
pub fn epoch_offset_of(after: bool, secs: u64, nanos: u32) -> (r: Option<(i64, u32)>)
    requires
        nanos < 1000000000,
    ensures
        r == epoch_offset(after, secs as nat, nanos as nat),
        r matches Some(t) ==> t.1 < 1000000000 && t.0 * 1000000000 + t.1 == if after {
            secs * 1000000000 + nanos
        } else {
            0 - (secs * 1000000000 + nanos)
        },
{
    if after {
        if secs <= i64::MAX as u64 {
            Some((secs as i64, nanos))
        } else {
            None
        }
    } else if nanos == 0 {
        if secs <= i64::MAX as u64 {
            Some((0i64 - secs as i64, 0))
        } else {
            None
        }
    } else if secs < i64::MAX as u64 {
        Some((0i64 - secs as i64 - 1, 1000000000 - nanos))
    } else {
        None
    }
}

/// The layout of a log line's time, as chrono's `format` reads it.
pub open spec fn timestamp_format() -> Seq<char> {
    "%Y-%m-%d %H:%M:%S"@
}

/// The layout of the time in a log file's name.
pub open spec fn file_stamp_format() -> Seq<char> {
    "%Y%m%d_%H%M%S"@
}

/// The text chrono's `format` writes with layout `format` for the UTC
/// instant `secs` seconds and `nanos` nanoseconds after the Unix epoch;
/// `None` where chrono has no such instant.
pub uninterp spec fn utc_formatted(secs: i64, nanos: u32, format: Seq<char>) -> Option<Seq<char>>;

/// An optional text taken by its view.
pub open spec fn optional_text(t: Option<String>) -> Option<Seq<char>> {
    match t {
        Some(s) => Some(s@),
        None => None,
    }
}

/// Calls `chrono::DateTime::from_timestamp(secs, nanos)` and renders the
/// instant with `format(..).to_string()`. Trusted: the text is the one
/// named by `utc_formatted`. Only the two layouts of the library are
/// handed over; chrono renders every field of those without error.
#[verifier::external_body]
fn utc_format(secs: i64, nanos: u32, format: &str) -> (r: Option<String>)
    requires
        format@ == timestamp_format() || format@ == file_stamp_format(),
    ensures
        optional_text(r) == utc_formatted(secs, nanos, format@),
{
    match chrono::DateTime::from_timestamp(secs, nanos) {
        Some(t) => Some(t.format(format).to_string()),
        None => None,
    }
}

/// The text that stands for a time the clock could not give.
pub open spec fn unknown_time_text() -> Seq<char> {
    "unknown-time"@
}

/// The time `secs` seconds and `nanos` nanoseconds before or after (as
/// `after` says) the Unix epoch, rendered with `format`; `unknown-time`
/// where it cannot be rendered.
pub open spec fn clock_text(after: bool, secs: nat, nanos: nat, format: Seq<char>) -> Seq<char> {
    match epoch_offset(after, secs, nanos) {
        Some(t) => match utc_formatted(t.0, t.1, format) {
            Some(text) => text,
            None => unknown_time_text(),
        },
        None => unknown_time_text(),
    }
}

/// Renders a clock reading, given as its distance from the epoch, with
/// `format` (UTC).
pub fn clock_reading_text(after: bool, secs: u64, nanos: u32, format: &str) -> (r: String)
    requires
        nanos < 1000000000,
        format@ == timestamp_format() || format@ == file_stamp_format(),
    ensures
        r@ == clock_text(after, secs as nat, nanos as nat, format@),
{
    match epoch_offset_of(after, secs, nanos) {
        Some((s, n)) => match utc_format(s, n, format) {
            Some(text) => text,
            None => "unknown-time".to_string(),
        },
        None => "unknown-time".to_string(),
    }
}

/// The present moment (UTC) as `YYYY-MM-DD HH:MM:SS`, the rendering of
/// the clock reading as `clock_reading_text` states it.
pub fn current_timestamp() -> (r: String)
    ensures
        exists|after: bool, secs: nat, nanos: nat|
            nanos < 1000000000 && r@ == clock_text(after, secs, nanos, timestamp_format()),
        exists|c: ClockReading| r@ == #[trigger] clock_text(c.after(), c.secs(), c.nanos(), timestamp_format()),
{
    proof {
        reveal_strlit("%Y-%m-%d %H:%M:%S");
    }
    let c = read_clock();
    let r = clock_reading_text(c.is_after(), c.seconds(), c.nanoseconds(), "%Y-%m-%d %H:%M:%S");
    assert(r@ == clock_text(c.after(), c.secs(), c.nanos(), timestamp_format()));
    r
}

/// The name of the log file of process `process_id` for a clock reading.
pub fn log_file_name_at(process_id: u32, after: bool, secs: u64, nanos: u32) -> (r: String)
    requires
        nanos < 1000000000,
    ensures
        r@ == log_file_name_text(process_id, clock_text(after, secs as nat, nanos as nat, file_stamp_format())),
{
    proof {
        reveal_strlit("%Y%m%d_%H%M%S");
    }
    let stamp = clock_reading_text(after, secs, nanos, "%Y%m%d_%H%M%S");
    log_file_name(process_id, stamp.as_str())
}

/// The name of a new log file for process `process_id`, stamped with the
/// present moment (UTC).
pub fn new_log_file_name(process_id: u32) -> (r: String)
    ensures
        exists|after: bool, secs: nat, nanos: nat|
            nanos < 1000000000 && r@ == log_file_name_text(process_id, clock_text(after, secs, nanos, file_stamp_format())),
        exists|c: ClockReading|
            r@ == log_file_name_text(process_id, #[trigger] clock_text(c.after(), c.secs(), c.nanos(), file_stamp_format())),
{
    let c = read_clock();
    let r = log_file_name_at(process_id, c.is_after(), c.seconds(), c.nanoseconds());
    assert(r@ == log_file_name_text(process_id, clock_text(c.after(), c.secs(), c.nanos(), file_stamp_format())));
    r
}

/// The content of the spawn event: the command, and the working
/// directory when one was given.
pub open spec fn spawn_log_text_spec(command: Seq<char>, cwd: Option<Seq<char>>) -> Seq<char> {
    match cwd {
        Some(dir) => command + " (cwd: "@ + dir + ")"@,
        None => command,
    }
}

/// Formats the content of the spawn event.
pub fn spawn_log_text(command: &str, cwd: Option<&str>) -> (r: String)
    ensures
        r@ == spawn_log_text_spec(
            command@,
            match cwd {
                Some(d) => Some(d@),
                None => None,
            },
        ),
{
    let mut text = command.to_string();
    match cwd {
        Some(dir) => {
            text.append(" (cwd: ");
            text.append(dir);
            text.append(")");
        },
        None => {},
    }
    text
}

/// The content of the exit event: `code=` and the exit code, or
/// `code=none` when the process ended without one (killed by a signal).
pub open spec fn exit_log_text_spec(code: Option<i32>) -> Seq<char> {
    match code {
        Some(c) => "code="@ + signed_decimal_digits(c as int),
        None => "code=none"@,
    }
}

/// Formats the content of the exit event.
pub fn exit_log_text(code: Option<i32>) -> (r: String)
    ensures
        r@ == exit_log_text_spec(code),
{
    match code {
        Some(c) => {
            let mut text = "code=".to_string();
            let digits = signed_decimal_text(c as i64);
            text.append(digits.as_str());
            text
        },
        None => "code=none".to_string(),
    }
}

/// The log of one process: turns each event into the line its log file
/// receives.
pub struct ProcessLogger {
    process_id: u32,
}

impl ProcessLogger {
    /// The log of process `process_id`.
    pub fn for_process(process_id: u32) -> (r: Self)
        ensures
            r.process_id() == process_id,
    {
        ProcessLogger { process_id }
    }

    pub closed spec fn spec_process_id(&self) -> u32 {
        self.process_id
    }

    /// The process this log is kept for.
    #[verifier::when_used_as_spec(spec_process_id)]
    pub fn process_id(&self) -> (r: u32)
        ensures
            r == self.spec_process_id(),
    {
        self.process_id
    }

    /// Logs `event` with `content`: returns the line the log file receives,
    /// `entry_line(now, event, content)`, `now` being the present moment
    /// (UTC) as `current_timestamp` renders it.
    pub fn log(&self, event: LogEvent, content: String) -> (line: String)
        ensures
            exists|after: bool, secs: nat, nanos: nat|
                nanos < 1000000000 && line@ == entry_line(clock_text(after, secs, nanos, timestamp_format()), event, content@),
            exists|c: ClockReading|
                line@ == entry_line(#[trigger] clock_text(c.after(), c.secs(), c.nanos(), timestamp_format()), event, content@),
    {
        let timestamp = current_timestamp();
        let ghost now = timestamp@;
        let ghost text = content@;
        let line = format_entry(&LogEntry { timestamp, event, content });
        assert(line@ == entry_line(now, event, text));
        line
    }
}

} // verus!
