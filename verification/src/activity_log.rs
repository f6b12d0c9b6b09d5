//! The activity log: what was asked, which files it touched, and how it
//! ended. Kept as a JSON list of entries (read and written by the program
//! around this library) and a Markdown table; the most recent entries are
//! summarised for the language model's context.
use vstd::prelude::*;
use crate::text::{
    concat, decimal, display_name, display_name_of, join, join_strings, owned, pad2, push_decimal,
    push_pad2, push_prefix, push_str, take_chars, views,
};

verus! {

/// One logged activity.
pub struct LogEntry {
    /// Seconds since the Unix epoch.
    pub timestamp: u64,
    pub goal: String,
    /// Paths of the files created or changed, as displayed.
    pub files: Vec<String>,
    /// `"ok"` or `"fel: ..."`.
    pub result: String,
}

/// The log keeps at most this many entries.
pub const MAX_ENTRIES: usize = 500;

/// Goals are shortened to this many characters in the Markdown log and the
/// summary.
pub const GOAL_CHARS: usize = 60;

/// The Markdown log starts with this title and table header.
pub open spec fn markdown_header_text() -> Seq<char> {
    "# matsux-log\n\n| Tid | Mål | Filer | Resultat |\n|-----|-----|-------|----------|\n"@
}

/// `fmt_time`: day number since the epoch and the UTC time of day.
pub open spec fn time_text(ts: nat) -> Seq<char> {
    "dag "@ + decimal(ts / 86400) + " "@ + pad2((ts / 3600) % 24) + ":"@ + pad2((ts / 60) % 60)
        + ":"@ + pad2(ts % 60) + " UTC"@
}

/// The files column: `–` when no file was touched, else the file names
/// joined by `, `.
pub open spec fn files_text(files: Seq<Seq<char>>) -> Seq<char> {
    if files.len() == 0 {
        "–"@
    } else {
        join(Seq::new(files.len(), |i: int| display_name(files[i])), ", "@)
    }
}

/// The Markdown table row of an entry.
pub open spec fn markdown_row_text(e: LogEntry) -> Seq<char> {
    "| "@ + time_text(e.timestamp as nat) + " | "@ + take_chars(e.goal@, GOAL_CHARS as nat) + " | "@
        + files_text(views(e.files@)) + " | "@ + e.result@ + " |\n"@
}

/// The summary line of an entry.
pub open spec fn summary_line_text(e: LogEntry) -> Seq<char> {
    "- **"@ + take_chars(e.goal@, GOAL_CHARS as nat) + "** → filer: "@ + files_text(views(e.files@))
        + " ("@ + e.result@ + ")\n"@
}

/// The title of the summary.
pub open spec fn summary_title() -> Seq<char> {
    "### matsux-log (senaste aktiviteter)\n\n"@
}

/// The last `n` entries (all of them when there are fewer), oldest first.
pub open spec fn recent(entries: Seq<LogEntry>, n: nat) -> Seq<LogEntry> {
    if n < entries.len() {
        entries.skip(entries.len() - n)
    } else {
        entries
    }
}

/// The summary of the last `n` entries.
pub open spec fn summary_text(entries: Seq<LogEntry>, n: nat) -> Seq<char> {
    if entries.len() == 0 {
        seq![]
    } else {
        let r = recent(entries, n);
        summary_title() + concat(Seq::new(r.len(), |i: int| summary_line_text(r[i]))) + "\n"@
    }
}

/// The list after adding an entry and dropping the oldest beyond
/// [`MAX_ENTRIES`].
pub open spec fn capped(s: Seq<LogEntry>) -> Seq<LogEntry> {
    if s.len() > MAX_ENTRIES {
        s.skip(s.len() - MAX_ENTRIES)
    } else {
        s
    }
}

/// Formats a timestamp as `dag D HH:MM:SS UTC`.
pub fn fmt_time(ts: u64) -> (r: String)
    ensures
        r@ == time_text(ts as nat),
{
    let secs: u64 = ts % 60;
    let mins: u64 = (ts / 60) % 60;
    let hours: u64 = (ts / 3600) % 24;
    let days: u64 = ts / 86400;
    let mut s = String::new();
    push_str(&mut s, "dag ");
    push_decimal(&mut s, days);
    push_str(&mut s, " ");
    push_pad2(&mut s, hours);
    push_str(&mut s, ":");
    push_pad2(&mut s, mins);
    push_str(&mut s, ":");
    push_pad2(&mut s, secs);
    push_str(&mut s, " UTC");
    assert(s@ =~= time_text(ts as nat));
    s
}

#[verifier::external_type_specification]
#[verifier::external_body]
pub struct ExSystemTime(std::time::SystemTime);

/// `SystemTime::now`. Trusted to return; nothing is said of the time.
#[verifier::external_body]
fn system_time_now() -> std::time::SystemTime {
    std::time::SystemTime::now()
}

/// `SystemTime::duration_since(UNIX_EPOCH)`, `None` for a time before the
/// epoch. Nothing is said of the duration.
#[verifier::external_body]
fn since_unix_epoch(t: &std::time::SystemTime) -> Option<core::time::Duration> {
    t.duration_since(std::time::UNIX_EPOCH).ok()
}

/// `Duration::as_secs`. Nothing is said of the result: the duration is
/// opaque here.
#[verifier::external_body]
fn whole_seconds(d: &core::time::Duration) -> u64 {
    d.as_secs()
}

/// The timestamp for a reading of the clock: its whole seconds since the
/// Unix epoch, or 0 for a clock before the epoch (`None`).
pub fn epoch_seconds(since: Option<u64>) -> (r: u64)
    ensures
        r == (match since {
            Some(secs) => secs,
            None => 0,
        }),
{
    match since {
        Some(secs) => secs,
        None => 0,
    }
}

/// Seconds since the Unix epoch now; 0 when the clock is before the epoch.
/// The value comes from the system clock, so no contract constrains it.
pub fn now_secs() -> u64 {
    let since = match since_unix_epoch(&system_time_now()) {
        Some(d) => Some(whole_seconds(&d)),
        None => None,
    };
    epoch_seconds(since)
}

impl LogEntry {
    /// An entry for `goal` with the given timestamp, files and result.
    pub fn new(timestamp: u64, goal: &str, files: Vec<String>, result: &str) -> (e: LogEntry)
        ensures
            e.timestamp == timestamp,
            e.goal@ == goal@,
            e.files@ == files@,
            e.result@ == result@,
    {
        LogEntry { timestamp, goal: owned(goal), files, result: owned(result) }
    }
}

/// The files column of an entry.
pub fn files_column(files: &Vec<String>) -> (r: String)
    ensures
        r@ == files_text(views(files@)),
{
    if files.len() == 0 {
        return owned("–");
    }
    let mut names: Vec<String> = Vec::new();
    let mut i: usize = 0;
    let ghost fv = views(files@);
    while i < files.len()
        invariant
            i <= files.len(),
            fv == views(files@),
            names@.len() == i,
            forall|j: int| 0 <= j < i ==> #[trigger] names@[j]@ == display_name(fv[j]),
        decreases files.len() - i,
    {
        names.push(display_name_of(files[i].as_str()));
        i = i + 1;
    }
    let r = join_strings(&names, ", ");
    assert(views(names@) =~= Seq::new(fv.len(), |i: int| display_name(fv[i])));
    r
}

/// The Markdown table row of an entry.
pub fn markdown_row(e: &LogEntry) -> (r: String)
    ensures
        r@ == markdown_row_text(*e),
{
    let mut s = String::new();
    push_str(&mut s, "| ");
    let t = fmt_time(e.timestamp);
    push_str(&mut s, t.as_str());
    push_str(&mut s, " | ");
    push_prefix(&mut s, e.goal.as_str(), GOAL_CHARS);
    push_str(&mut s, " | ");
    let f = files_column(&e.files);
    push_str(&mut s, f.as_str());
    push_str(&mut s, " | ");
    push_str(&mut s, e.result.as_str());
    push_str(&mut s, " |\n");
    assert(s@ =~= markdown_row_text(*e));
    s
}

/// The title and header that start the Markdown log.
pub fn markdown_header() -> (r: String)
    ensures
        r@ == markdown_header_text(),
{
    owned("# matsux-log\n\n| Tid | Mål | Filer | Resultat |\n|-----|-----|-------|----------|\n")
}

/// Adds an entry at the end and keeps only the newest [`MAX_ENTRIES`].
pub fn push_capped(entries: &mut Vec<LogEntry>, entry: LogEntry)
    ensures
        final(entries)@ == capped(old(entries)@.push(entry)),
{
    entries.push(entry);
    if entries.len() > MAX_ENTRIES {
        let at: usize = entries.len() - MAX_ENTRIES;
        let tail = entries.split_off(at);
        *entries = tail;
    }
}

/// The summary line of one entry.
pub fn summary_line(e: &LogEntry) -> (r: String)
    ensures
        r@ == summary_line_text(*e),
{
    let mut s = String::new();
    push_str(&mut s, "- **");
    push_prefix(&mut s, e.goal.as_str(), GOAL_CHARS);
    push_str(&mut s, "** → filer: ");
    let f = files_column(&e.files);
    push_str(&mut s, f.as_str());
    push_str(&mut s, " (");
    push_str(&mut s, e.result.as_str());
    push_str(&mut s, ")\n");
    assert(s@ =~= summary_line_text(*e));
    s
}

/// A summary of the last `n` entries, oldest first, for the language
/// model's context; empty when the log is empty.
pub fn summary_for_context(entries: &Vec<LogEntry>, n: usize) -> (r: String)
    ensures
        r@ == summary_text(entries@, n as nat),
{
    if entries.len() == 0 {
        return String::new();
    }
    let start: usize = if n < entries.len() {
        entries.len() - n
    } else {
        0
    };
    let ghost rec = recent(entries@, n as nat);
    assert(rec =~= entries@.skip(start as int));
    let ghost lines = Seq::new(rec.len(), |i: int| summary_line_text(rec[i]));
    let mut out = String::new();
    push_str(&mut out, "### matsux-log (senaste aktiviteter)\n\n");
    let ghost head = out@;
    let mut i: usize = start;
    while i < entries.len()
        invariant
            start <= i <= entries.len(),
            rec == entries@.skip(start as int),
            lines == Seq::new(rec.len(), |i: int| summary_line_text(rec[i])),
            out@ == head + concat(lines.take(i - start)),
        decreases entries.len() - i,
    {
        let line = summary_line(&entries[i]);
        assert(lines.take(i + 1 - start).drop_last() =~= lines.take(i - start));
        assert(lines.take(i + 1 - start).last() == summary_line_text(entries@[i as int]));
        push_str(&mut out, line.as_str());
        i = i + 1;
    }
    assert(lines.take(i - start) =~= lines);
    push_str(&mut out, "\n");
    out
}

} // verus!
