//! Log files: which category an event belongs to, how files are named, which ones
//! are kept, and when file output is suspended.

use vstd::prelude::*;
use vstd::string::*;
use vstd::utf8::*;

use crate::diagnostics::AccessDiagnostics;
use crate::text::{chars_of, parse_u32, starts_with, string_of, text_before, text_eq, to_decimal};

verus! {

/// Target of feed events.
pub const FEEDS_TARGET: &'static str = "flowsurface_server::feeds";

/// Target of access events.
pub const ACCESS_TARGET: &'static str = "flowsurface_server::access";

/// Days of log files that are kept.
pub const LOG_RETENTION_DAYS: usize = 14;

/// Size limit of one log file.
pub const LOG_MAX_FILE_BYTES: u64 = 4_194_304;

/// Size limit of all log files of a category.
pub const LOG_MAX_TOTAL_BYTES: u64 = 67_108_864;

/// How long file output stays suspended after an error, in nanoseconds.
pub const LOG_RECOVERY_INTERVAL: u64 = 60_000_000_000;

/// How often access counters are summarized, in seconds.
pub const ACCESS_SUMMARY_INTERVAL_SECS: u64 = 60;

/// What is written in place of an event that does not fit a file.
pub const OVERSIZED_EVENT_MARKER: &'static str = "[log event omitted: exceeds segment limit]\n";

/// Bytes of [`OVERSIZED_EVENT_MARKER`].
pub const OVERSIZED_MARKER_LEN: u64 = 43;

/// Categories of log files.
#[derive(Debug, Clone, Copy, PartialEq, Eq, Structural)]
pub enum LogCategory {
    Server,
    Feeds,
    Access,
}

/// Whether a target is about feeds: its own target, the stream module, or the
/// exchange adapters.
pub open spec fn is_feed(target: Seq<char>) -> bool {
    target == FEEDS_TARGET@ || "flowsurface_server::stream"@.is_prefix_of(target)
        || "flowsurface_exchange"@.is_prefix_of(target)
}

/// Whether a target is about access.
pub open spec fn is_access(target: Seq<char>) -> bool {
    target == ACCESS_TARGET@
}

/// Whether a target is about feeds.
pub fn is_feed_target(target: &str) -> (found: bool)
    ensures
        found == is_feed(target@),
{
    text_eq(target, FEEDS_TARGET) || starts_with(target, "flowsurface_server::stream")
        || starts_with(target, "flowsurface_exchange")
}

/// Whether a target is about access.
pub fn is_access_target(target: &str) -> (found: bool)
    ensures
        found == is_access(target@),
{
    text_eq(target, ACCESS_TARGET)
}

/// Whether a target is about neither feeds nor access.
pub fn is_server_target(target: &str) -> (found: bool)
    ensures
        found == (!is_feed(target@) && !is_access(target@)),
{
    !is_feed_target(target) && !is_access_target(target)
}

/// Whether an event is shown on standard output: access events are not, as long as
/// they have a file.
pub fn shown_on_stdout(target: &str, access_file_available: bool) -> (shown: bool)
    ensures
        shown == (!is_access(target@) || !access_file_available),
{
    !is_access_target(target) || !access_file_available
}

/// Every target belongs to exactly one category.
pub proof fn law_categories_are_a_partition(target: Seq<char>)
    ensures
        !(is_feed(target) && is_access(target)),
{
    reveal_strlit("flowsurface_server::feeds");
    reveal_strlit("flowsurface_server::access");
    reveal_strlit("flowsurface_server::stream");
    reveal_strlit("flowsurface_exchange");
    if is_access(target) {
        let feeds = FEEDS_TARGET@;
        assert(target[20] == 'a' && feeds[20] == 'f');
        assert("flowsurface_server::stream"@[20] == 's');
        assert(target[12] == 's' && "flowsurface_exchange"@[12] == 'e');
        if "flowsurface_server::stream"@.is_prefix_of(target) {
            assert("flowsurface_server::stream"@[20] == target[20]);
        }
        if "flowsurface_exchange"@.is_prefix_of(target) {
            assert("flowsurface_exchange"@[12] == target[12]);
        }
    }
}

/// What the access counters have gained since the last report, unless it is
/// nothing. The current counters become the base of the next report.
pub fn report_access_delta(
    current: AccessDiagnostics,
    previous: &mut AccessDiagnostics,
) -> (delta: Option<AccessDiagnostics>)
    ensures
        *final(previous) == current,
        match delta {
            Some(d) => d != AccessDiagnostics::zero() && forall|event: crate::diagnostics::AccessEvent| #[trigger]
                d.count(event) == crate::diagnostics::excess(
                    current.count(event),
                    old(previous).count(event),
                ),
            None => forall|event: crate::diagnostics::AccessEvent|
                crate::diagnostics::excess(
                    #[trigger] current.count(event),
                    old(previous).count(event),
                ) == 0,
        },
{
    let delta = current.delta_since(*previous);
    *previous = current;
    if delta.is_zero() {
        proof {
            assert forall|event: crate::diagnostics::AccessEvent|
                crate::diagnostics::excess(
                    #[trigger] current.count(event),
                    old(previous).count(event),
                ) == 0 by {
                assert(delta.count(event) == 0);
            }
        }
        None
    } else {
        Some(delta)
    }
}

/// Whether `s` has the shape of a date: four, two and two digits with dashes
/// between.
pub open spec fn is_date_shape(s: Seq<char>) -> bool {
    s.len() == 10 && forall|i: int|
        0 <= i < 10 ==> if i == 4 || i == 7 {
            #[trigger] s[i] == '-'
        } else {
            crate::text::is_digit(s[i])
        }
}

/// Whether `chars` have the shape of a date.
pub fn is_date_key(chars: &[char]) -> (found: bool)
    ensures
        found == is_date_shape(chars@),
{
    if chars.len() != 10 {
        return false;
    }
    let mut i: usize = 0;
    while i < 10
        invariant
            i <= 10,
            chars@.len() == 10,
            forall|j: int|
                0 <= j < i ==> if j == 4 || j == 7 {
                    #[trigger] chars@[j] == '-'
                } else {
                    crate::text::is_digit(chars@[j])
                },
        decreases 10 - i,
    {
        let c = chars[i];
        if i == 4 || i == 7 {
            if c != '-' {
                return false;
            }
        } else if c < '0' || c > '9' {
            return false;
        }
        i += 1;
    }
    true
}

/// The name of a log file. The first segment of a day has no number.
pub open spec fn log_name(prefix: Seq<char>, date: Seq<char>, segment: u32) -> Seq<char> {
    if segment == 0 {
        prefix + "."@ + date + ".log"@
    } else {
        prefix + "."@ + date + "."@ + crate::text::decimal(segment as nat) + ".log"@
    }
}

/// The name of a log file.
pub fn log_file_name(prefix: &str, date: &str, segment: u32) -> (name: String)
    ensures
        name@ == log_name(prefix@, date@, segment),
{
    let mut name = prefix.to_owned();
    name.append(".");
    name.append(date);
    if segment != 0 {
        name.append(".");
        name.append(to_decimal(segment as u64).as_str());
    }
    name.append(".log");
    name
}

/// What is left of a name between the prefix, with its dot, and the extension.
pub open spec fn stem_of(name: Seq<char>, prefix: Seq<char>) -> Option<Seq<char>> {
    let from = prefix.len() + 1;
    let to = name.len() - 4;
    if name.len() >= prefix.len() + 5 && name.take(prefix.len() as int) == prefix
        && name[prefix.len() as int] == '.' && name.skip(to) == ".log"@ {
        Some(name.subrange(from as int, to))
    } else {
        None
    }
}

/// The position of the first dot of `s`, or its length if there is none.
pub open spec fn first_dot(s: Seq<char>) -> nat
    decreases s.len(),
{
    if s.len() == 0 || s[0] == '.' {
        0
    } else {
        1 + first_dot(s.drop_first())
    }
}

/// Date and segment of a stem: what is before its first dot, and the number behind
/// it. Without a dot the segment is the first.
pub open spec fn stem_parts(stem: Seq<char>) -> Option<(Seq<char>, u32)> {
    let dot = first_dot(stem);
    let date = stem.take(dot as int);
    let segment = if dot < stem.len() {
        crate::text::parsed_u32(stem.skip(dot as int + 1))
    } else {
        Some(0u32)
    };
    match segment {
        Some(n) => if is_date_shape(date) {
            Some((date, n))
        } else {
            None
        },
        None => None,
    }
}

/// Date and segment of a log file, if the name is one of its category.
pub open spec fn parsed_name(name: Seq<char>, prefix: Seq<char>) -> Option<(Seq<char>, u32)> {
    match stem_of(name, prefix) {
        Some(stem) => stem_parts(stem),
        None => None,
    }
}

proof fn lemma_first_dot(s: Seq<char>)
    ensures
        first_dot(s) <= s.len(),
        forall|i: int| 0 <= i < first_dot(s) ==> s[i] != '.',
        first_dot(s) < s.len() ==> s[first_dot(s) as int] == '.',
    decreases s.len(),
{
    if s.len() > 0 && s[0] != '.' {
        let rest = s.drop_first();
        lemma_first_dot(rest);
        assert forall|i: int| 0 <= i < first_dot(s) implies s[i] != '.' by {
            if i > 0 {
                assert(rest[i - 1] == s[i]);
            }
        }
        if first_dot(s) < s.len() {
            assert(rest[first_dot(rest) as int] == s[first_dot(s) as int]);
        }
    }
}

proof fn lemma_first_dot_at(s: Seq<char>, n: nat)
    requires
        n <= s.len(),
        forall|i: int| 0 <= i < n ==> s[i] != '.',
        n < s.len() ==> s[n as int] == '.',
    ensures
        first_dot(s) == n,
{
    lemma_first_dot(s);
    let dot = first_dot(s);
    if dot < n {
        assert(s[dot as int] == '.');
    } else if n < dot {
        assert(s[n as int] != '.');
    }
}

/// Characters of a part of a text.
fn slice_chars(chars: &Vec<char>, from: usize, to: usize) -> (part: Vec<char>)
    requires
        from <= to <= chars@.len(),
    ensures
        part@ == chars@.subrange(from as int, to as int),
{
    let mut part: Vec<char> = Vec::new();
    let mut i: usize = from;
    while i < to
        invariant
            from <= i <= to <= chars@.len(),
            part@ == chars@.subrange(from as int, i as int),
        decreases to - i,
    {
        part.push(chars[i]);
        i += 1;
    }
    part
}

/// Date and segment of a log file, if the name is one of the category with that
/// prefix.
pub fn parse_log_name(name: &str, prefix: &str) -> (parts: Option<(String, u32)>)
    ensures
        match parts {
            Some((date, segment)) => parsed_name(name@, prefix@) == Some((date@, segment)),
            None => parsed_name(name@, prefix@) is None,
        },
{
    let chars = chars_of(name);
    let head = chars_of(prefix);
    proof {
        reveal_strlit(".log");
    }
    if chars.len() < 5 || chars.len() - 5 < head.len() {
        return None;
    }
    let to: usize = chars.len() - 4;
    let start = slice_chars(&chars, 0, head.len());
    assert(start@ =~= name@.take(prefix@.len() as int));
    let end = slice_chars(&chars, to, chars.len());
    assert(end@ =~= name@.skip(to as int));
    let extension = chars_of(".log");
    if !crate::text::chars_eq(start.as_slice(), head.as_slice()) || chars[head.len()] != '.'
        || !crate::text::chars_eq(end.as_slice(), extension.as_slice()) {
        return None;
    }
    let stem = slice_chars(&chars, head.len() + 1, to);
    let mut dot: usize = 0;
    while dot < stem.len() && stem[dot] != '.'
        invariant
            dot <= stem@.len(),
            forall|i: int| 0 <= i < dot ==> stem@[i] != '.',
        decreases stem@.len() - dot,
    {
        dot += 1;
    }
    proof {
        lemma_first_dot_at(stem@, dot as nat);
    }
    let date = slice_chars(&stem, 0, dot);
    assert(date@ =~= stem@.take(dot as int));
    let segment: u32 = if dot < stem.len() {
        let number = slice_chars(&stem, dot + 1, stem.len());
        assert(number@ =~= stem@.skip(dot as int + 1));
        match parse_u32(number.as_slice()) {
            Some(n) => n,
            None => return None,
        }
    } else {
        0
    };
    if is_date_key(date.as_slice()) {
        Some((string_of(date.as_slice()), segment))
    } else {
        None
    }
}

/// Every log file is recognized by its name: date and segment are read back as they
/// were written.
pub proof fn law_names_round_trip(prefix: Seq<char>, date: Seq<char>, segment: u32)
    requires
        is_date_shape(date),
    ensures
        parsed_name(log_name(prefix, date, segment), prefix) == Some((date, segment)),
{
    reveal_strlit(".log");
    reveal_strlit(".");
    let name = log_name(prefix, date, segment);
    let p = prefix.len() as int;
    let to = name.len() - 4;
    assert forall|i: int| 0 <= i < date.len() implies date[i] != '.' by {
        assert(if i == 4 || i == 7 {
            date[i] == '-'
        } else {
            crate::text::is_digit(date[i])
        });
    }
    assert(name.take(p) =~= prefix);
    assert(name.skip(to) =~= ".log"@);
    let stem = name.subrange(p + 1, to);
    if segment == 0 {
        assert(stem =~= date);
        lemma_first_dot_at(stem, 10);
        assert(stem.take(10) =~= date);
    } else {
        let digits = crate::text::decimal(segment as nat);
        crate::text::lemma_decimal_round_trip(segment as nat);
        assert(stem =~= date + "."@ + digits);
        lemma_first_dot_at(stem, 10);
        assert(stem.take(10) =~= date);
        assert(stem.skip(11) =~= digits);
        crate::text::lemma_parse_decimal(segment);
    }
}

/// A log file.
#[derive(Debug)]
pub struct LogFile {
    pub name: String,
    pub date: String,
    pub segment: u32,
    pub size: u64,
}

/// The mathematical value of a [`LogFile`].
#[verifier::ext_equal]
pub struct LogFileView {
    pub name: Seq<char>,
    pub date: Seq<char>,
    pub segment: u32,
    pub size: u64,
}

impl View for LogFile {
    type V = LogFileView;

    open spec fn view(&self) -> LogFileView {
        LogFileView {
            name: self.name@,
            date: self.date@,
            segment: self.segment,
            size: self.size,
        }
    }
}

impl Clone for LogFile {
    fn clone(&self) -> (copy: LogFile)
        ensures
            copy@ == self@,
    {
        LogFile {
            name: self.name.clone(),
            date: self.date.clone(),
            segment: self.segment,
            size: self.size,
        }
    }
}

/// Whether `a` is of a later date than `b`, or of a later segment of the same.
pub open spec fn newer(a: LogFileView, b: LogFileView) -> bool {
    crate::text::text_less(b.date, a.date) || (a.date == b.date && a.segment > b.segment)
}

/// Files from the newest to the oldest.
pub open spec fn newest_first(files: Seq<LogFileView>) -> bool {
    forall|i: int, j: int|
        #![trigger files[i], files[j]]
        0 <= i < j < files.len() ==> !newer(files[j], files[i])
}

proof fn lemma_not_newer_transitive(a: LogFileView, b: LogFileView, c: LogFileView)
    requires
        !newer(a, b),
        !newer(b, c),
    ensures
        !newer(a, c),
{
    crate::text::lemma_text_less_total(a.date, b.date);
    crate::text::lemma_text_less_total(b.date, c.date);
    crate::text::lemma_text_less_total(a.date, c.date);
    if crate::text::text_less(c.date, a.date) {
        if a.date != b.date && b.date != c.date {
            crate::text::lemma_text_less_transitive(a.date, b.date, c.date);
        }
    }
}

proof fn lemma_newer_asymmetric(a: LogFileView, b: LogFileView)
    requires
        newer(a, b),
    ensures
        !newer(b, a),
{
    crate::text::lemma_text_less_total(a.date, b.date);
}

proof fn lemma_insert_newest_first(before: Seq<LogFileView>, at: int, file: LogFileView)
    requires
        newest_first(before),
        0 <= at <= before.len(),
        forall|j: int| at <= j < before.len() ==> newer(file, #[trigger] before[j]),
        at > 0 ==> !newer(file, before[at - 1]),
    ensures
        newest_first(before.insert(at, file)),
{
    let after = before.insert(at, file);
    assert forall|i: int, j: int|
        #![trigger after[i], after[j]]
        0 <= i < j < after.len() implies !newer(after[j], after[i]) by {
        if j < at {
            assert(after[i] == before[i] && after[j] == before[j]);
        } else if i > at {
            assert(after[i] == before[i - 1] && after[j] == before[j - 1]);
        } else if j == at {
            assert(after[i] == before[i]);
            if i < at - 1 {
                assert(!newer(before[at - 1], before[i]));
                lemma_not_newer_transitive(file, before[at - 1], before[i]);
            }
        } else if i == at {
            assert(after[j] == before[j - 1]);
            lemma_newer_asymmetric(file, before[j - 1]);
        } else {
            assert(after[i] == before[i] && after[j] == before[j - 1]);
        }
    }
}

/// Whether `a` is newer than `b`.
fn is_newer(a: &LogFile, b: &LogFile) -> (result: bool)
    ensures
        result == newer(a@, b@),
{
    text_before(b.date.as_str(), a.date.as_str()) || (text_eq(
        a.date.as_str(),
        b.date.as_str(),
    ) && a.segment > b.segment)
}

/// The files from the newest to the oldest.
pub fn sort_newest_first(files: &Vec<LogFile>) -> (sorted: Vec<LogFile>)
    ensures
        newest_first(crate::text::views(sorted@)),
        crate::text::views(sorted@).to_multiset() == crate::text::views(files@).to_multiset(),
{
    let ghost all = crate::text::views(files@);
    let mut sorted: Vec<LogFile> = Vec::new();
    let mut i: usize = 0;
    assert(all.take(0) =~= crate::text::views(sorted@));
    while i < files.len()
        invariant
            i <= files@.len(),
            all == crate::text::views(files@),
            newest_first(crate::text::views(sorted@)),
            crate::text::views(sorted@).to_multiset() == all.take(i as int).to_multiset(),
        decreases files@.len() - i,
    {
        let file = files[i].clone();
        let ghost value = all[i as int];
        let ghost before = crate::text::views(sorted@);
        let mut at: usize = sorted.len();
        while at > 0 && is_newer(&file, &sorted[at - 1])
            invariant
                at <= sorted@.len(),
                file@ == value,
                before == crate::text::views(sorted@),
                forall|j: int| at <= j < sorted@.len() ==> newer(value, #[trigger] before[j]),
            ensures
                at <= sorted@.len(),
                file@ == value,
                before == crate::text::views(sorted@),
                forall|j: int| at <= j < sorted@.len() ==> newer(value, #[trigger] before[j]),
                at > 0 ==> !newer(value, before[at - 1]),
            decreases at,
        {
            at -= 1;
        }
        sorted.insert(at, file);
        proof {
            assert(crate::text::views(sorted@) =~= before.insert(at as int, value));
            vstd::seq_lib::to_multiset_insert(before, at as int, value);
            lemma_insert_newest_first(before, at as int, value);
            assert(all.take(i as int + 1) =~= all.take(i as int).push(value));
            vstd::seq_lib::to_multiset_build(all.take(i as int), value);
        }
        i += 1;
    }
    assert(all.take(i as int) =~= all);
    sorted
}

/// Limits on the log files of a category.
#[derive(Debug, Clone, Copy, PartialEq, Eq, Structural)]
pub struct LogLimits {
    pub retention_days: usize,
    pub max_file_bytes: u64,
    pub max_total_bytes: u64,
}

impl LogLimits {
    /// Whether a file can hold anything, and the total a file.
    pub open spec fn spec_valid(self) -> bool {
        self.max_file_bytes > 0 && self.max_total_bytes >= self.max_file_bytes
    }

    /// Check that the limits are positive and the total fits one file.
    pub fn check(&self) -> (result: Result<(), String>)
        ensures
            match result {
                Ok(_) => self.spec_valid(),
                Err(message) => !self.spec_valid() && message@
                    == "log size limits must be positive and the total must fit one file"@,
            },
    {
        if self.max_file_bytes == 0 || self.max_total_bytes < self.max_file_bytes {
            Err("log size limits must be positive and the total must fit one file".to_owned())
        } else {
            Ok(())
        }
    }

    /// Bytes that old files may take, which leaves room for the current file to grow to
    /// its limit.
    pub open spec fn old_budget(self) -> int {
        self.max_total_bytes - self.max_file_bytes
    }

    /// Dates that may have files, the current one among them.
    pub open spec fn max_dates(self) -> int {
        if self.retention_days > 1 {
            self.retention_days as int
        } else {
            1
        }
    }
}

/// What pruning has kept so far.
#[verifier::ext_equal]
pub struct PruneState {
    /// Bytes of the old files that were kept.
    pub size: int,
    /// Dates that have files, each once.
    pub dates: Seq<Seq<char>>,
}

/// Whether an old file is kept: its date is one of those kept or there is room for
/// another, and its size fits the budget.
pub open spec fn keeps(state: PruneState, file: LogFileView, limits: LogLimits) -> bool {
    (state.dates.contains(file.date) || state.dates.len() < limits.max_dates()) && state.size
        + file.size <= limits.old_budget()
}

/// What pruning has kept once it has looked at the first `n` files.
pub open spec fn prune_state(
    files: Seq<LogFileView>,
    limits: LogLimits,
    current_name: Seq<char>,
    current_date: Seq<char>,
    n: int,
) -> PruneState
    decreases n,
{
    if n <= 0 {
        PruneState { size: 0, dates: seq![current_date] }
    } else {
        let before = prune_state(files, limits, current_name, current_date, n - 1);
        let file = files[n - 1];
        if file.name == current_name || !keeps(before, file, limits) {
            before
        } else {
            PruneState {
                size: before.size + file.size,
                dates: if before.dates.contains(file.date) {
                    before.dates
                } else {
                    before.dates.push(file.date)
                },
            }
        }
    }
}

/// The files that pruning removes among the first `n`.
pub open spec fn pruned(
    files: Seq<LogFileView>,
    limits: LogLimits,
    current_name: Seq<char>,
    current_date: Seq<char>,
    n: int,
) -> Seq<LogFileView>
    decreases n,
{
    if n <= 0 {
        Seq::empty()
    } else {
        let earlier = pruned(files, limits, current_name, current_date, n - 1);
        let before = prune_state(files, limits, current_name, current_date, n - 1);
        let file = files[n - 1];
        if file.name != current_name && !keeps(before, file, limits) {
            earlier.push(file)
        } else {
            earlier
        }
    }
}

/// Whether `date` is one of `dates`.
fn has_date(dates: &Vec<String>, date: &str) -> (found: bool)
    ensures
        found == crate::text::views(dates@).contains(date@),
{
    let ghost texts = crate::text::views(dates@);
    let mut i: usize = 0;
    while i < dates.len()
        invariant
            i <= dates@.len(),
            texts == crate::text::views(dates@),
            forall|j: int| 0 <= j < i ==> texts[j] != date@,
        decreases dates@.len() - i,
    {
        if text_eq(dates[i].as_str(), date) {
            assert(texts[i as int] == date@);
            return true;
        }
        i += 1;
    }
    false
}

/// The files to remove, newest first: those that neither the retention nor the size
/// limits leave room for. The current file always stays.
pub fn prune_old_files(
    files: &Vec<LogFile>,
    limits: LogLimits,
    current_name: &str,
    current_date: &str,
) -> (remove: Vec<LogFile>)
    requires
        limits.spec_valid(),
    ensures
        exists|sorted: Seq<LogFileView>|
            {
                &&& #[trigger] newest_first(sorted)
                &&& sorted.to_multiset() == crate::text::views(files@).to_multiset()
                &&& crate::text::views(remove@) == pruned(
                    sorted,
                    limits,
                    current_name@,
                    current_date@,
                    sorted.len() as int,
                )
            },
{
    let sorted = sort_newest_first(files);
    let ghost all = crate::text::views(sorted@);
    let budget: u64 = limits.max_total_bytes - limits.max_file_bytes;
    let max_dates: usize = if limits.retention_days > 1 {
        limits.retention_days
    } else {
        1
    };
    let mut size: u64 = 0;
    let mut dates: Vec<String> = Vec::new();
    dates.push(current_date.to_owned());
    let mut remove: Vec<LogFile> = Vec::new();
    let mut i: usize = 0;
    assert(crate::text::views(dates@) =~= seq![current_date@]);
    assert(crate::text::views(remove@) =~= Seq::<LogFileView>::empty());
    while i < sorted.len()
        invariant
            i <= sorted@.len(),
            all == crate::text::views(sorted@),
            limits.spec_valid(),
            budget == limits.old_budget(),
            max_dates == limits.max_dates(),
            size <= budget,
            ({
                let state = prune_state(all, limits, current_name@, current_date@, i as int);
                state.size == size && state.dates == crate::text::views(dates@)
            }),
            crate::text::views(remove@) == pruned(
                all,
                limits,
                current_name@,
                current_date@,
                i as int,
            ),
        decreases sorted@.len() - i,
    {
        let file = &sorted[i];
        let ghost value = all[i as int];
        let ghost kept_dates = crate::text::views(dates@);
        let ghost removed = crate::text::views(remove@);
        if !text_eq(file.name.as_str(), current_name) {
            let known = has_date(&dates, file.date.as_str());
            let fits_retention = known || dates.len() < max_dates;
            let fits_size = file.size <= budget - size;
            if fits_retention && fits_size {
                size = size + file.size;
                if !known {
                    dates.push(file.date.clone());
                    assert(crate::text::views(dates@) =~= kept_dates.push(value.date));
                }
            } else {
                remove.push(file.clone());
                assert(crate::text::views(remove@) =~= removed.push(value));
            }
        }
        i += 1;
    }
    remove
}

/// Bytes of the files that pruning keeps among the first `n`, without the current
/// one.
pub open spec fn kept_bytes(
    files: Seq<LogFileView>,
    limits: LogLimits,
    current_name: Seq<char>,
    current_date: Seq<char>,
    n: int,
) -> int
    decreases n,
{
    if n <= 0 {
        0
    } else {
        let earlier = kept_bytes(files, limits, current_name, current_date, n - 1);
        let before = prune_state(files, limits, current_name, current_date, n - 1);
        let file = files[n - 1];
        if file.name != current_name && keeps(before, file, limits) {
            earlier + file.size
        } else {
            earlier
        }
    }
}

/// After pruning the files of a category stay within their total even when the
/// current file grows to its limit, no more dates than allowed have files, and the
/// current file is never removed.
pub proof fn law_pruning_bounds_the_category(
    files: Seq<LogFileView>,
    limits: LogLimits,
    current_name: Seq<char>,
    current_date: Seq<char>,
    n: int,
)
    requires
        limits.spec_valid(),
        0 <= n <= files.len(),
    ensures
        kept_bytes(files, limits, current_name, current_date, n) + limits.max_file_bytes
            <= limits.max_total_bytes,
        prune_state(files, limits, current_name, current_date, n).dates.len()
            <= limits.max_dates(),
        prune_state(files, limits, current_name, current_date, n).size == kept_bytes(
            files,
            limits,
            current_name,
            current_date,
            n,
        ),
        forall|i: int|
            0 <= i < pruned(files, limits, current_name, current_date, n).len() ==> (
            #[trigger] pruned(files, limits, current_name, current_date, n)[i]).name
                != current_name,
    decreases n,
{
    if n > 0 {
        law_pruning_bounds_the_category(files, limits, current_name, current_date, n - 1);
        let earlier = pruned(files, limits, current_name, current_date, n - 1);
        let all = pruned(files, limits, current_name, current_date, n);
        assert forall|i: int| 0 <= i < all.len() implies (#[trigger] all[i]).name
            != current_name by {
            if i < earlier.len() {
                assert(all[i] == earlier[i]);
            }
        }
    }
}

/// The segment number to try after `segment`, which is taken or full.
pub fn next_segment(segment: u32) -> (next: Option<u32>)
    ensures
        next == if segment < u32::MAX {
            Some((segment + 1) as u32)
        } else {
            None
        },
{
    segment.checked_add(1)
}

/// The file to write to on a given date.
#[derive(Debug, Clone, Copy, PartialEq, Eq, Structural)]
pub enum CurrentFile {
    /// Go on with the file at this position of the listing.
    Reopen { index: usize },
    /// Create a file with this segment number, or a higher one if it is taken.
    Create { segment: u32 },
    /// There is no number left for another segment.
    Exhausted,
}

/// The position of the last segment of a date among the first `n` files; of equal
/// ones the later counts.
pub open spec fn latest_at(files: Seq<LogFileView>, date: Seq<char>, n: int) -> Option<int>
    decreases n,
{
    if n <= 0 {
        None
    } else {
        let earlier = latest_at(files, date, n - 1);
        if files[n - 1].date == date && (earlier is None || files[n - 1].segment
            >= files[earlier->0].segment) {
            Some(n - 1)
        } else {
            earlier
        }
    }
}

/// The file to write to: the last segment of the date while it is below its limit, or
/// the next one.
pub open spec fn current_choice(
    files: Seq<LogFileView>,
    date: Seq<char>,
    max_file_bytes: u64,
) -> CurrentFile {
    match latest_at(files, date, files.len() as int) {
        Some(i) => if files[i].size < max_file_bytes {
            CurrentFile::Reopen { index: i as usize }
        } else if files[i].segment < u32::MAX {
            CurrentFile::Create { segment: (files[i].segment + 1) as u32 }
        } else {
            CurrentFile::Exhausted
        },
        None => CurrentFile::Create { segment: 0 },
    }
}

/// Choose the file to write to on `date`.
pub fn choose_current_file(files: &Vec<LogFile>, date: &str, max_file_bytes: u64) -> (choice:
    CurrentFile)
    ensures
        choice == current_choice(crate::text::views(files@), date@, max_file_bytes),
{
    let ghost all = crate::text::views(files@);
    let mut latest: Option<usize> = None;
    let mut i: usize = 0;
    while i < files.len()
        invariant
            i <= files@.len(),
            all == crate::text::views(files@),
            match latest {
                Some(k) => k < i && latest_at(all, date@, i as int) == Some(k as int),
                None => latest_at(all, date@, i as int) is None,
            },
        decreases files@.len() - i,
    {
        assert(all[i as int] == files@[i as int]@);
        if text_eq(files[i].date.as_str(), date) {
            let later = match latest {
                Some(k) => files[i].segment >= files[k].segment,
                None => true,
            };
            if later {
                latest = Some(i);
            }
        }
        i += 1;
    }
    match latest {
        Some(k) => if files[k].size < max_file_bytes {
            CurrentFile::Reopen { index: k }
        } else if files[k].segment < u32::MAX {
            CurrentFile::Create { segment: files[k].segment + 1 }
        } else {
            CurrentFile::Exhausted
        },
        None => CurrentFile::Create { segment: 0 },
    }
}

/// What a log write does next.
#[derive(Debug)]
pub enum LogAction {
    /// Open the current file again and read its size.
    Reopen,
    /// Remove the files that there is no room for.
    Prune,
    /// Open the file for this date.
    OpenDate { date: String },
    /// Create a segment with this number, or a higher one if it is taken.
    CreateSegment { segment: u32 },
    /// Write the event to the file, or the marker in its place.
    WriteFile { marker: bool },
    /// Write the event to the fallback, or the marker in its place.
    WriteFallback { marker: bool },
    /// Nothing more.
    Finished,
}

/// How it went.
#[derive(Debug, Clone, Copy, PartialEq, Eq, Structural)]
pub enum LogReply {
    /// The file was opened; it has this size.
    Reopened { size: u64 },
    /// A file was opened or created; it has this segment number and size.
    Opened { segment: u32, size: u64 },
    /// Done, without a result.
    Done,
    /// It failed.
    Failed,
}

/// What a log write waits for.
#[derive(Debug, Clone, Copy, PartialEq, Eq, Structural)]
pub enum LogPhase {
    Idle,
    Reopening,
    RecoverPrune,
    OpeningDate,
    DatePrune,
    Rotating,
    RotatePrune,
    Writing,
    Fallback,
}

/// The mathematical value of a [`RollingFile`].
#[verifier::ext_equal]
pub struct RollingState {
    pub date: Seq<char>,
    pub segment: u32,
    pub size: u64,
    pub max_file_bytes: u64,
    /// Until when file output is suspended, if it is.
    pub suspended_until: Option<u64>,
    pub phase: LogPhase,
    /// Bytes of the event being written.
    pub event_len: u64,
    /// Whether the marker stands for the event.
    pub marker: bool,
    /// The date on which the event is written.
    pub today: Seq<char>,
}

/// Bytes to be written: those of the event, or of the marker.
pub open spec fn payload(state: RollingState) -> u64 {
    if state.marker {
        if state.max_file_bytes < OVERSIZED_MARKER_LEN {
            state.max_file_bytes
        } else {
            OVERSIZED_MARKER_LEN
        }
    } else {
        state.event_len
    }
}

/// File output suspended from `now` on; the event goes to the fallback.
pub open spec fn suspend(state: RollingState, now: u64) -> RollingState {
    RollingState {
        suspended_until: Some(crate::config::clamp_u64(now + LOG_RECOVERY_INTERVAL) as u64),
        phase: LogPhase::Fallback,
        ..state
    }
}

/// The file is ready, unless the event does not fit behind what it holds.
pub open spec fn rotate_or_write(state: RollingState, now: u64) -> RollingState {
    if crate::config::clamp_u64(state.size + payload(state)) > state.max_file_bytes {
        if state.segment < u32::MAX {
            RollingState { phase: LogPhase::Rotating, ..state }
        } else {
            suspend(state, now)
        }
    } else {
        RollingState { phase: LogPhase::Writing, ..state }
    }
}

/// The start of a write to the file: an empty event needs nothing, one that does not
/// fit a file is replaced by a marker, and a new day needs a new file.
pub open spec fn start_write(state: RollingState, now: u64) -> RollingState {
    if state.event_len == 0 {
        RollingState { phase: LogPhase::Idle, ..state }
    } else {
        let marked = RollingState { marker: state.event_len > state.max_file_bytes, ..state };
        if marked.today != marked.date {
            RollingState { phase: LogPhase::OpeningDate, ..marked }
        } else {
            rotate_or_write(marked, now)
        }
    }
}

/// The start of a write: while output is suspended the event goes to the fallback,
/// and once the time is up the file is tried again.
pub open spec fn begin(state: RollingState, len: u64, now: u64, today: Seq<char>) -> RollingState {
    let fresh = RollingState { event_len: len, marker: false, today, ..state };
    match state.suspended_until {
        Some(retry_at) => if now >= retry_at {
            RollingState { phase: LogPhase::Reopening, ..fresh }
        } else {
            RollingState { phase: LogPhase::Fallback, ..fresh }
        },
        None => start_write(fresh, now),
    }
}

/// A write once it is told how its work went.
pub open spec fn write_step(state: RollingState, reply: LogReply, now: u64) -> RollingState {
    match state.phase {
        LogPhase::Idle => state,
        LogPhase::Reopening => match reply {
            LogReply::Reopened { size } => RollingState {
                size,
                phase: LogPhase::RecoverPrune,
                ..state
            },
            _ => suspend(state, now),
        },
        LogPhase::RecoverPrune => if reply == LogReply::Done {
            start_write(RollingState { suspended_until: None, ..state }, now)
        } else {
            suspend(state, now)
        },
        LogPhase::OpeningDate => match reply {
            LogReply::Opened { segment, size } => RollingState {
                date: state.today,
                segment,
                size,
                phase: LogPhase::DatePrune,
                ..state
            },
            _ => suspend(state, now),
        },
        LogPhase::DatePrune => if reply == LogReply::Done {
            rotate_or_write(state, now)
        } else {
            suspend(state, now)
        },
        LogPhase::Rotating => match reply {
            LogReply::Opened { segment, size: _ } => RollingState {
                segment,
                size: 0,
                phase: LogPhase::RotatePrune,
                ..state
            },
            _ => suspend(state, now),
        },
        LogPhase::RotatePrune => if reply == LogReply::Done {
            RollingState { phase: LogPhase::Writing, ..state }
        } else {
            suspend(state, now)
        },
        LogPhase::Writing => if reply == LogReply::Done {
            RollingState {
                size: crate::config::clamp_u64(state.size + payload(state)) as u64,
                phase: LogPhase::Idle,
                ..state
            }
        } else {
            suspend(state, now)
        },
        LogPhase::Fallback => RollingState { phase: LogPhase::Idle, ..state },
    }
}

/// Whether `action` is what a write waits for.
pub open spec fn awaits(state: RollingState, action: LogAction) -> bool {
    match state.phase {
        LogPhase::Idle => action is Finished,
        LogPhase::Reopening => action is Reopen,
        LogPhase::RecoverPrune => action is Prune,
        LogPhase::OpeningDate => action matches LogAction::OpenDate { date } && date@
            == state.today,
        LogPhase::DatePrune => action is Prune,
        LogPhase::Rotating => action matches LogAction::CreateSegment { segment } && segment
            == state.segment + 1,
        LogPhase::RotatePrune => action is Prune,
        LogPhase::Writing => action matches LogAction::WriteFile { marker } && marker
            == state.marker,
        LogPhase::Fallback => action matches LogAction::WriteFallback { marker } && marker
            == state.marker,
    }
}

/// A log file that rolls over at the end of a day and when it is full.
///
/// A write alternates between file work and decisions. This holds the decisions: it
/// names the next piece of work and is told how it went. Any failure suspends file
/// output for a while and sends the event to the fallback.
pub struct RollingFile {
    date: String,
    segment: u32,
    size: u64,
    max_file_bytes: u64,
    suspended_until: Option<u64>,
    phase: LogPhase,
    event_len: u64,
    marker: bool,
    today: String,
}

impl View for RollingFile {
    type V = RollingState;

    closed spec fn view(&self) -> RollingState {
        RollingState {
            date: self.date@,
            segment: self.segment,
            size: self.size,
            max_file_bytes: self.max_file_bytes,
            suspended_until: self.suspended_until,
            phase: self.phase,
            event_len: self.event_len,
            marker: self.marker,
            today: self.today@,
        }
    }
}

/// A segment that is to be created has a number.
pub open spec fn rolling_wf(state: RollingState) -> bool {
    state.phase == LogPhase::Rotating ==> state.segment < u32::MAX
}

impl RollingFile {
    /// A segment that is to be created has a number.
    pub open spec fn wf(&self) -> bool {
        rolling_wf(self@)
    }

    /// Start with an open file.
    pub fn new(date: String, segment: u32, size: u64, max_file_bytes: u64) -> (file: RollingFile)
        ensures
            file.wf(),
            file@.date == date@,
            file@.segment == segment,
            file@.size == size,
            file@.max_file_bytes == max_file_bytes,
            file@.suspended_until is None,
            file@.phase == LogPhase::Idle,
    {
        let today = date.clone();
        RollingFile {
            date,
            segment,
            size,
            max_file_bytes,
            suspended_until: None,
            phase: LogPhase::Idle,
            event_len: 0,
            marker: false,
            today,
        }
    }

    /// The date of the current file.
    pub fn date(&self) -> (date: &str)
        ensures
            date@ == self@.date,
    {
        self.date.as_str()
    }

    /// The segment of the current file.
    pub fn segment(&self) -> (segment: u32)
        ensures
            segment == self@.segment,
    {
        self.segment
    }

    /// Whether file output is suspended.
    pub fn is_suspended(&self) -> (suspended: bool)
        ensures
            suspended == self@.suspended_until is Some,
    {
        self.suspended_until.is_some()
    }

    /// Bytes to be written: those of the event, or of the marker.
    pub fn payload_len(&self) -> (len: u64)
        ensures
            len == payload(self@),
    {
        if self.marker {
            if self.max_file_bytes < OVERSIZED_MARKER_LEN {
                self.max_file_bytes
            } else {
                OVERSIZED_MARKER_LEN
            }
        } else {
            self.event_len
        }
    }

    /// Whether a failure at `now` is worth a message: output was not suspended, or its
    /// time was up.
    pub fn reports_suspension(&self, now: u64) -> (report: bool)
        ensures
            report == match self@.suspended_until {
                Some(retry_at) => now >= retry_at,
                None => true,
            },
    {
        match self.suspended_until {
            Some(retry_at) => now >= retry_at,
            None => true,
        }
    }

    /// Suspend file output outside of a write, such as after a failed flush.
    pub fn suspend_file_logging(&mut self, now: u64)
        ensures
            final(self).wf(),
            final(self)@ == (RollingState {
                phase: LogPhase::Idle,
                ..suspend(old(self)@, now)
            }),
    {
        self.do_suspend(now);
        self.phase = LogPhase::Idle;
    }

    fn do_suspend(&mut self, now: u64)
        ensures
            final(self)@ == suspend(old(self)@, now),
    {
        self.suspended_until = Some(now.saturating_add(LOG_RECOVERY_INTERVAL));
        self.phase = LogPhase::Fallback;
    }

    fn do_rotate_or_write(&mut self, now: u64)
        ensures
            final(self)@ == rotate_or_write(old(self)@, now),
            final(self).wf(),
    {
        if self.size.saturating_add(self.payload_len()) > self.max_file_bytes {
            if self.segment < u32::MAX {
                self.phase = LogPhase::Rotating;
            } else {
                self.do_suspend(now);
            }
        } else {
            self.phase = LogPhase::Writing;
        }
    }

    fn do_start(&mut self, now: u64)
        ensures
            final(self)@ == start_write(old(self)@, now),
            final(self).wf(),
    {
        if self.event_len == 0 {
            self.phase = LogPhase::Idle;
            return;
        }
        self.marker = self.event_len > self.max_file_bytes;
        if text_eq(self.today.as_str(), self.date.as_str()) {
            self.do_rotate_or_write(now);
        } else {
            self.phase = LogPhase::OpeningDate;
        }
    }

    fn next_action(&self) -> (action: LogAction)
        requires
            self.wf(),
        ensures
            awaits(self@, action),
    {
        match self.phase {
            LogPhase::Idle => LogAction::Finished,
            LogPhase::Reopening => LogAction::Reopen,
            LogPhase::RecoverPrune => LogAction::Prune,
            LogPhase::OpeningDate => LogAction::OpenDate { date: self.today.clone() },
            LogPhase::DatePrune => LogAction::Prune,
            LogPhase::Rotating => LogAction::CreateSegment { segment: self.segment + 1 },
            LogPhase::RotatePrune => LogAction::Prune,
            LogPhase::Writing => LogAction::WriteFile { marker: self.marker },
            LogPhase::Fallback => LogAction::WriteFallback { marker: self.marker },
        }
    }

    /// Begin to write an event of `len` bytes, at `now` in nanoseconds and on the date
    /// `today`.
    pub fn begin_write(&mut self, len: u64, now: u64, today: String) -> (action: LogAction)
        ensures
            final(self).wf(),
            final(self)@ == begin(old(self)@, len, now, today@),
            awaits(final(self)@, action),
    {
        self.event_len = len;
        self.marker = false;
        self.today = today;
        match self.suspended_until {
            Some(retry_at) => {
                if now >= retry_at {
                    self.phase = LogPhase::Reopening;
                } else {
                    self.phase = LogPhase::Fallback;
                }
            },
            None => self.do_start(now),
        }
        self.next_action()
    }

    /// Take in how the work went. Returns the work that comes next.
    pub fn step(&mut self, reply: LogReply, now: u64) -> (action: LogAction)
        requires
            old(self).wf(),
        ensures
            final(self).wf(),
            final(self)@ == write_step(old(self)@, reply, now),
            awaits(final(self)@, action),
    {
        match self.phase {
            LogPhase::Idle => {},
            LogPhase::Reopening => match reply {
                LogReply::Reopened { size } => {
                    self.size = size;
                    self.phase = LogPhase::RecoverPrune;
                },
                _ => self.do_suspend(now),
            },
            LogPhase::RecoverPrune => {
                if reply == LogReply::Done {
                    self.suspended_until = None;
                    self.do_start(now);
                } else {
                    self.do_suspend(now);
                }
            },
            LogPhase::OpeningDate => match reply {
                LogReply::Opened { segment, size } => {
                    self.date = self.today.clone();
                    self.segment = segment;
                    self.size = size;
                    self.phase = LogPhase::DatePrune;
                },
                _ => self.do_suspend(now),
            },
            LogPhase::DatePrune => {
                if reply == LogReply::Done {
                    self.do_rotate_or_write(now);
                } else {
                    self.do_suspend(now);
                }
            },
            LogPhase::Rotating => match reply {
                LogReply::Opened { segment, size: _ } => {
                    self.segment = segment;
                    self.size = 0;
                    self.phase = LogPhase::RotatePrune;
                },
                _ => self.do_suspend(now),
            },
            LogPhase::RotatePrune => {
                if reply == LogReply::Done {
                    self.phase = LogPhase::Writing;
                } else {
                    self.do_suspend(now);
                }
            },
            LogPhase::Writing => {
                if reply == LogReply::Done {
                    self.size = self.size.saturating_add(self.payload_len());
                    self.phase = LogPhase::Idle;
                } else {
                    self.do_suspend(now);
                }
            },
            LogPhase::Fallback => {
                self.phase = LogPhase::Idle;
            },
        }
        self.next_action()
    }
}

/// The marker has as many bytes as is said.
pub proof fn law_marker_length()
    ensures
        encode_utf8(OVERSIZED_EVENT_MARKER@).len() == OVERSIZED_MARKER_LEN,
{
    reveal_strlit("[log event omitted: exceeds segment limit]\n");
    assert(is_ascii_chars(OVERSIZED_EVENT_MARKER@));
    is_ascii_chars_encode_utf8(OVERSIZED_EVENT_MARKER@);
}

/// A write that may go on to the file: what is to be written fits behind what the
/// file holds.
pub open spec fn fits_file(state: RollingState) -> bool {
    state.phase == LogPhase::Writing ==> state.size + payload(state) <= state.max_file_bytes
        && state.suspended_until is None
}

/// A write that waits for a fresh segment has something to write that fits one.
pub open spec fn fits_segment(state: RollingState) -> bool {
    state.phase == LogPhase::Rotating || state.phase == LogPhase::RotatePrune || state.phase
        == LogPhase::OpeningDate || state.phase == LogPhase::DatePrune ==> payload(state)
        <= state.max_file_bytes && state.suspended_until is None && (state.phase
        == LogPhase::RotatePrune ==> state.size == 0)
}

/// A log file never grows beyond its limit, and nothing is written to it while output
/// is suspended. The largest limit there is counts as none.
pub proof fn law_files_stay_within_their_limit(
    state: RollingState,
    len: u64,
    reply: LogReply,
    now: u64,
    today: Seq<char>,
)
    requires
        state.max_file_bytes < u64::MAX,
    ensures
        fits_file(begin(state, len, now, today)),
        fits_segment(begin(state, len, now, today)),
        fits_file(state) && fits_segment(state) ==> fits_file(write_step(state, reply, now))
            && fits_segment(write_step(state, reply, now)),
        fits_file(state) && state.phase == LogPhase::Writing && reply == LogReply::Done
            ==> write_step(state, reply, now).size == state.size + payload(state)
            <= state.max_file_bytes,
{
}

/// A failure suspends file output for a minute: until then every event goes to the
/// fallback, and the file is not touched.
pub proof fn law_suspension_lasts(
    state: RollingState,
    failed_at: u64,
    len: u64,
    now: u64,
    today: Seq<char>,
)
    requires
        failed_at + LOG_RECOVERY_INTERVAL <= u64::MAX,
        failed_at <= now < failed_at + LOG_RECOVERY_INTERVAL,
    ensures
        begin(suspend(state, failed_at), len, now, today).phase == LogPhase::Fallback,
        suspend(state, failed_at).phase == LogPhase::Fallback,
{
}

/// An upper bound on the pieces of work that a write still needs.
pub open spec fn steps_left(state: RollingState) -> nat {
    match state.phase {
        LogPhase::Reopening => 8,
        LogPhase::RecoverPrune => 7,
        LogPhase::OpeningDate => 6,
        LogPhase::DatePrune => 5,
        LogPhase::Rotating => 4,
        LogPhase::RotatePrune => 3,
        LogPhase::Writing => 2,
        LogPhase::Fallback => 1,
        LogPhase::Idle => 0,
    }
}

/// Every write comes to an end, and not before the event, if there is one, was handed
/// to the file or to the fallback.
pub proof fn law_no_event_is_lost(state: RollingState, reply: LogReply, now: u64)
    requires
        state.phase != LogPhase::Idle,
        state.event_len > 0,
    ensures
        steps_left(write_step(state, reply, now)) < steps_left(state),
        write_step(state, reply, now).phase == LogPhase::Idle ==> state.phase == LogPhase::Fallback
            || (state.phase == LogPhase::Writing && reply == LogReply::Done),
        state.phase == LogPhase::Writing && reply != LogReply::Done ==> write_step(
            state,
            reply,
            now,
        ).phase == LogPhase::Fallback,
{
}

/// Every target belongs to one category and to no other: access has one target, feeds have
/// one of their own and whatever the stream module and the exchange adapters report, and
/// the rest is the server's.
pub proof fn law_targets_have_one_category(
    target: &str,
    feed: bool,
    access: bool,
    server: bool,
    available: bool,
    shown: bool,
)
    requires
        call_ensures(is_feed_target, (target,), feed),
        call_ensures(is_access_target, (target,), access),
        call_ensures(is_server_target, (target,), server),
        call_ensures(shown_on_stdout, (target, available), shown),
    ensures
        server <==> !feed && !access,
        !(feed && access),
        access <==> target@ == "flowsurface_server::access"@,
        target@ == "flowsurface_server::feeds"@ ==> feed,
        "flowsurface_server::stream"@.is_prefix_of(target@) ==> feed,
        "flowsurface_exchange"@.is_prefix_of(target@) ==> feed,
        feed ==> target@ == "flowsurface_server::feeds"@
            || "flowsurface_server::stream"@.is_prefix_of(target@)
            || "flowsurface_exchange"@.is_prefix_of(target@),
        !shown <==> access && available,
{
    law_categories_are_a_partition(target@);
}

/// A report holds what each counter has gained since the last one, and there is none if and
/// only if none has gained anything. The next report starts from here.
pub proof fn law_reports_hold_the_gains(
    current: AccessDiagnostics,
    previous: &mut AccessDiagnostics,
    delta: Option<AccessDiagnostics>,
)
    requires
        call_ensures(report_access_delta, (current, previous), delta),
        current.auth_failures >= old(previous).auth_failures,
        current.admission_blocked >= old(previous).admission_blocked,
        current.rate_limited >= old(previous).rate_limited,
        current.connection_rejected >= old(previous).connection_rejected,
        current.accept_timeouts >= old(previous).accept_timeouts,
    ensures
        *final(previous) == current,
        delta is None <==> current == *old(previous),
        delta matches Some(d) ==> d.auth_failures == current.auth_failures
            - old(previous).auth_failures && d.admission_blocked == current.admission_blocked
            - old(previous).admission_blocked && d.rate_limited == current.rate_limited
            - old(previous).rate_limited && d.connection_rejected == current.connection_rejected
            - old(previous).connection_rejected && d.accept_timeouts == current.accept_timeouts
            - old(previous).accept_timeouts,
{
    let before = *old(previous);
    let a = crate::diagnostics::AccessEvent::AuthFailure;
    let b = crate::diagnostics::AccessEvent::AdmissionBlocked;
    let c = crate::diagnostics::AccessEvent::RateLimited;
    let d = crate::diagnostics::AccessEvent::ConnectionRejected;
    let e = crate::diagnostics::AccessEvent::AcceptTimeout;
    assert(current.count(a) == current.auth_failures && before.count(a) == before.auth_failures);
    assert(current.count(b) == current.admission_blocked);
    assert(current.count(c) == current.rate_limited);
    assert(current.count(d) == current.connection_rejected);
    assert(current.count(e) == current.accept_timeouts);
    if let Some(gain) = delta {
        assert(gain.count(a) == gain.auth_failures);
        assert(gain.count(b) == gain.admission_blocked);
        assert(gain.count(c) == gain.rate_limited);
        assert(gain.count(d) == gain.connection_rejected);
        assert(gain.count(e) == gain.accept_timeouts);
    }
}

/// A date is written as four, two and two digits with dashes between them.
pub proof fn law_dates_have_ten_characters(chars: &[char], found: bool)
    requires
        call_ensures(is_date_key, (chars,), found),
    ensures
        found ==> chars@.len() == 10 && chars@[4] == '-' && chars@[7] == '-',
        found ==> forall|i: int|
            0 <= i < 10 && i != 4 && i != 7 ==> '0' <= #[trigger] chars@[i] <= '9',
        chars@.len() == 10 && chars@[4] == '-' && chars@[7] == '-' && (forall|i: int|
            0 <= i < 10 && i != 4 && i != 7 ==> '0' <= #[trigger] chars@[i] <= '9') ==> found,
{
    if found {
        assert(chars@[4] == '-');
        assert(chars@[7] == '-');
    }
}

/// A log file is named after its category and its date, and after its segment unless it is
/// the first of its day.
pub proof fn law_files_are_named_after_their_day(
    prefix: &str,
    date: &str,
    segment: u32,
    number: String,
    name: String,
)
    requires
        call_ensures(log_file_name, (prefix, date, segment), name),
        call_ensures(to_decimal, (segment as u64,), number),
    ensures
        segment == 0 ==> name@ == prefix@ + seq!['.'] + date@ + seq!['.', 'l', 'o', 'g'],
        segment > 0 ==> name@ == prefix@ + seq!['.'] + date@ + seq!['.'] + number@ + seq![
            '.',
            'l',
            'o',
            'g',
        ],
{
    reveal_strlit(".");
    reveal_strlit(".log");
    assert("."@ =~= seq!['.']);
    assert(".log"@ =~= seq!['.', 'l', 'o', 'g']);
}

/// A log file is known by its name again: what is read off it is the date and the segment
/// that it was named after.
pub proof fn law_named_files_are_recognized(
    prefix: &str,
    date: &str,
    segment: u32,
    dated: bool,
    chars: &[char],
    name: &str,
    written: String,
    parts: Option<(String, u32)>,
)
    requires
        chars@ == date@,
        call_ensures(is_date_key, (chars,), dated),
        call_ensures(log_file_name, (prefix, date, segment), written),
        name@ == written@,
        call_ensures(parse_log_name, (name, prefix), parts),
        dated,
    ensures
        parts matches Some((read_date, read_segment)) && read_date@ == date@ && read_segment
            == segment,
{
    law_names_round_trip(prefix@, date@, segment);
}

/// What is taken for a log file starts with the prefix and a dot, goes on with a date and
/// ends in the extension.
pub proof fn law_only_log_files_are_recognized(
    prefix: &str,
    name: &str,
    parts: Option<(String, u32)>,
)
    requires
        call_ensures(parse_log_name, (name, prefix), parts),
    ensures
        parts matches Some((date, segment)) ==> {
            let p = prefix@.len() as int;
            let n = name@.len() as int;
            &&& n >= p + 15
            &&& name@.take(p) == prefix@
            &&& name@[p] == '.'
            &&& name@.subrange(p + 1, p + 11) == date@
            &&& name@[p + 5] == '-' && name@[p + 8] == '-'
            &&& name@.skip(n - 4) == seq!['.', 'l', 'o', 'g']
            &&& name@[p + 11] == '.'
            &&& n == p + 15 ==> segment == 0
        },
{
    reveal_strlit(".log");
    assert(".log"@ =~= seq!['.', 'l', 'o', 'g']);
    if let Some((date, segment)) = parts {
        let p = prefix@.len() as int;
        let n = name@.len() as int;
        let stem = stem_of(name@, prefix@)->0;
        assert(stem == name@.subrange(p + 1, n - 4));
        lemma_first_dot(stem);
        let dot = first_dot(stem);
        let found = stem.take(dot as int);
        assert(found == date@);
        assert(is_date_shape(found));
        assert(dot == 10);
        assert(found =~= name@.subrange(p + 1, p + 11));
        assert(found[4] == '-' && found[7] == '-');
        assert(name@[p + 5] == found[4]);
        assert(name@[p + 8] == found[7]);
        if dot < stem.len() {
            assert(stem[10] == name@[p + 11]);
        } else {
            assert(name@.skip(n - 4)[0] == name@[n - 4]);
        }
    }
}

/// Files are sorted by date and, within a date, by segment, the latest first; none is lost
/// and none made.
pub proof fn law_files_are_sorted_from_the_newest(
    files: Vec<LogFile>,
    sorted: Vec<LogFile>,
    i: int,
    j: int,
    earlier: &str,
    later: &str,
    before: bool,
)
    requires
        call_ensures(sort_newest_first, (&files,), sorted),
        0 <= i < j < sorted@.len(),
        earlier@ == sorted@[i].date@,
        later@ == sorted@[j].date@,
        call_ensures(text_before, (earlier, later), before),
    ensures
        !before,
        earlier@ == later@ ==> sorted@[i].segment >= sorted@[j].segment,
        sorted@.len() == files@.len(),
        crate::text::views(sorted@).to_multiset() == crate::text::views(files@).to_multiset(),
{
    vstd::seq_lib::to_multiset_len(crate::text::views(sorted@));
    vstd::seq_lib::to_multiset_len(crate::text::views(files@));
    assert(crate::text::views(sorted@)[i] == sorted@[i]@);
    assert(crate::text::views(sorted@)[j] == sorted@[j]@);
}

/// A log file is seen with all that is known of it.
pub proof fn law_log_files_are_seen_whole(file: LogFile)
    ensures
        file@.name == file.name@,
        file@.date == file.date@,
        file@.segment == file.segment,
        file@.size == file.size,
{
}

/// Limits are usable if and only if a file can hold something and the total a file.
pub proof fn law_limits_must_fit_a_file(limits: LogLimits, result: Result<(), String>)
    requires
        call_ensures(LogLimits::check, (&limits,), result),
    ensures
        result is Ok <==> 0 < limits.max_file_bytes <= limits.max_total_bytes,
{
}

/// Bytes of all files but the current one.
pub open spec fn old_bytes(files: Seq<LogFileView>, current_name: Seq<char>) -> int
    decreases files.len(),
{
    if files.len() == 0 {
        0
    } else if files.last().name == current_name {
        old_bytes(files.drop_last(), current_name)
    } else {
        old_bytes(files.drop_last(), current_name) + files.last().size
    }
}

proof fn lemma_old_bytes_fold(files: Seq<LogFileView>, current_name: Seq<char>, start: int)
    ensures
        files.fold_right(
            |f: LogFileView, sum: int|
                if f.name == current_name {
                    sum
                } else {
                    sum + f.size
                },
            start,
        ) == start + old_bytes(files, current_name),
    decreases files.len(),
{
    if files.len() > 0 {
        let next = if files.last().name == current_name {
            start
        } else {
            start + files.last().size
        };
        lemma_old_bytes_fold(files.drop_last(), current_name, next);
    }
}

proof fn lemma_old_bytes_permutation(
    a: Seq<LogFileView>,
    b: Seq<LogFileView>,
    current_name: Seq<char>,
)
    requires
        a.to_multiset() == b.to_multiset(),
    ensures
        old_bytes(a, current_name) == old_bytes(b, current_name),
{
    let f = |f: LogFileView, sum: int|
        if f.name == current_name {
            sum
        } else {
            sum + f.size
        };
    vstd::seq_lib::lemma_fold_right_permutation(a, b, f, 0int);
    lemma_old_bytes_fold(a, current_name, 0);
    lemma_old_bytes_fold(b, current_name, 0);
}

proof fn lemma_pruned_bytes(
    files: Seq<LogFileView>,
    limits: LogLimits,
    current_name: Seq<char>,
    current_date: Seq<char>,
    n: int,
)
    requires
        0 <= n <= files.len(),
    ensures
        prune_state(files, limits, current_name, current_date, n).size + old_bytes(
            pruned(files, limits, current_name, current_date, n),
            current_name,
        ) == old_bytes(files.take(n), current_name),
        old_bytes(pruned(files, limits, current_name, current_date, n), current_name) >= 0,
        pruned(files, limits, current_name, current_date, n).to_multiset().subset_of(
            files.take(n).to_multiset(),
        ),
    decreases n,
{
    broadcast use vstd::multiset::group_multiset_axioms;

    if n > 0 {
        lemma_pruned_bytes(files, limits, current_name, current_date, n - 1);
        let file = files[n - 1];
        let earlier = pruned(files, limits, current_name, current_date, n - 1);
        assert(files.take(n) =~= files.take(n - 1).push(file));
        assert(files.take(n).drop_last() =~= files.take(n - 1));
        assert(earlier.push(file).drop_last() =~= earlier);
        vstd::seq_lib::to_multiset_build(files.take(n - 1), file);
        vstd::seq_lib::to_multiset_build(earlier, file);
    } else {
        assert(files.take(0) =~= Seq::<LogFileView>::empty());
        assert(Seq::<LogFileView>::empty().to_multiset().subset_of(
            Seq::<LogFileView>::empty().to_multiset(),
        ));
    }
}

/// Pruning removes none but old files that are there, never the current one, and enough of
/// them: what stays leaves room for the current file to grow to its limit.
pub proof fn law_pruning_makes_room(
    files: Vec<LogFile>,
    limits: LogLimits,
    current_name: &str,
    current_date: &str,
    remove: Vec<LogFile>,
    i: int,
)
    requires
        limits.spec_valid(),
        call_ensures(prune_old_files, (&files, limits, current_name, current_date), remove),
    ensures
        0 <= i < remove@.len() ==> remove@[i].name@ != current_name@,
        crate::text::views(remove@).to_multiset().subset_of(
            crate::text::views(files@).to_multiset(),
        ),
        old_bytes(crate::text::views(files@), current_name@) - old_bytes(
            crate::text::views(remove@),
            current_name@,
        ) + limits.max_file_bytes <= limits.max_total_bytes,
{
    let all = crate::text::views(files@);
    let sorted = choose|sorted: Seq<LogFileView>|
        {
            &&& #[trigger] newest_first(sorted)
            &&& sorted.to_multiset() == all.to_multiset()
            &&& crate::text::views(remove@) == pruned(
                sorted,
                limits,
                current_name@,
                current_date@,
                sorted.len() as int,
            )
        };
    let n = sorted.len() as int;
    assert(sorted.take(n) =~= sorted);
    law_pruning_bounds_the_category(sorted, limits, current_name@, current_date@, n);
    lemma_pruned_bytes(sorted, limits, current_name@, current_date@, n);
    lemma_old_bytes_permutation(sorted, all, current_name@);
    if 0 <= i < remove@.len() {
        assert(crate::text::views(remove@)[i] == remove@[i]@);
    }
}

proof fn lemma_old_bytes_grow(files: Seq<LogFileView>, current_name: Seq<char>, n: int)
    requires
        0 <= n <= files.len(),
    ensures
        0 <= old_bytes(files.take(n), current_name) <= old_bytes(files, current_name),
    decreases files.len(),
{
    if n < files.len() {
        let front = files.drop_last();
        lemma_old_bytes_grow(front, current_name, n);
        assert(front.take(n) =~= files.take(n));
    } else {
        assert(files.take(n) =~= files);
        if n > 0 {
            lemma_old_bytes_grow(files.drop_last(), current_name, n - 1);
            assert(files.drop_last().take(n - 1) =~= files.drop_last());
        }
    }
}

proof fn lemma_nothing_pruned(
    files: Seq<LogFileView>,
    limits: LogLimits,
    current_name: Seq<char>,
    current_date: Seq<char>,
    dates: Set<Seq<char>>,
    n: int,
)
    requires
        0 <= n <= files.len(),
        dates.finite(),
        dates.len() <= limits.max_dates(),
        dates.contains(current_date),
        forall|i: int| 0 <= i < files.len() ==> dates.contains((#[trigger] files[i]).date),
        old_bytes(files, current_name) + limits.max_file_bytes <= limits.max_total_bytes,
    ensures
        pruned(files, limits, current_name, current_date, n).len() == 0,
        prune_state(files, limits, current_name, current_date, n).dates.no_duplicates(),
        prune_state(files, limits, current_name, current_date, n).dates.to_set().subset_of(dates),
    decreases n,
{
    if n > 0 {
        lemma_nothing_pruned(files, limits, current_name, current_date, dates, n - 1);
        let before = prune_state(files, limits, current_name, current_date, n - 1);
        let file = files[n - 1];
        lemma_pruned_bytes(files, limits, current_name, current_date, n - 1);
        lemma_old_bytes_grow(files, current_name, n);
        assert(files.take(n).drop_last() =~= files.take(n - 1));
        assert(files.take(n).last() == file);
        assert(pruned(files, limits, current_name, current_date, n - 1)
            =~= Seq::<LogFileView>::empty());
        if file.name != current_name && !before.dates.contains(file.date) {
            let held = before.dates.to_set();
            before.dates.unique_seq_to_set();
            assert(!held.contains(file.date));
            assert(held.insert(file.date).subset_of(dates)) by {
                assert(dates.contains(files[n - 1].date));
            }
            vstd::set_lib::lemma_len_subset(held.insert(file.date), dates);
            assert(before.dates.len() < limits.max_dates());
            let more = before.dates.push(file.date);
            assert(more.to_set() =~= held.insert(file.date)) by {
                assert forall|d: Seq<char>| more.to_set().contains(d) == held.insert(
                    file.date,
                ).contains(d) by {
                    if more.contains(d) {
                        let k = choose|k: int| 0 <= k < more.len() && more[k] == d;
                        if k < before.dates.len() {
                            assert(before.dates[k] == d);
                        }
                    }
                    if before.dates.contains(d) {
                        let k = choose|k: int|
                            0 <= k < before.dates.len() && before.dates[k] == d;
                        assert(more[k] == d);
                    }
                    assert(more[before.dates.len() as int] == file.date);
                }
            }
        }
    } else {
        assert(seq![current_date].to_set().subset_of(dates)) by {
            assert forall|d: Seq<char>| seq![current_date].to_set().contains(d) implies
                dates.contains(d) by {
                assert(seq![current_date].contains(d));
            }
        }
    }
}

/// Pruning removes nothing as long as all files, with the current one at its limit, stay
/// within their total and their dates, with the current one, within the days that are
/// kept.
pub proof fn law_pruning_keeps_what_there_is_room_for(
    files: Vec<LogFile>,
    limits: LogLimits,
    current_name: &str,
    current_date: &str,
    dates: Set<Seq<char>>,
    remove: Vec<LogFile>,
)
    requires
        limits.spec_valid(),
        call_ensures(prune_old_files, (&files, limits, current_name, current_date), remove),
        dates.finite(),
        dates.len() <= limits.retention_days || dates.len() == 1,
        dates.contains(current_date@),
        forall|i: int| 0 <= i < files@.len() ==> dates.contains((#[trigger] files@[i]).date@),
        old_bytes(crate::text::views(files@), current_name@) + limits.max_file_bytes
            <= limits.max_total_bytes,
    ensures
        remove@.len() == 0,
{
    let all = crate::text::views(files@);
    let sorted = choose|sorted: Seq<LogFileView>|
        {
            &&& #[trigger] newest_first(sorted)
            &&& sorted.to_multiset() == all.to_multiset()
            &&& crate::text::views(remove@) == pruned(
                sorted,
                limits,
                current_name@,
                current_date@,
                sorted.len() as int,
            )
        };
    lemma_old_bytes_permutation(sorted, all, current_name@);
    assert forall|i: int| 0 <= i < sorted.len() implies dates.contains(
        (#[trigger] sorted[i]).date,
    ) by {
        broadcast use vstd::seq_lib::group_to_multiset_ensures;

        assert(sorted.contains(sorted[i]));
        assert(sorted.to_multiset().count(sorted[i]) > 0);
        assert(all.contains(sorted[i]));
        let k = choose|k: int| 0 <= k < all.len() && all[k] == sorted[i];
        assert(dates.contains(files@[k].date@));
    }
    lemma_nothing_pruned(
        sorted,
        limits,
        current_name@,
        current_date@,
        dates,
        sorted.len() as int,
    );
    assert(crate::text::views(remove@).len() == remove@.len());
}

/// Segments are numbered one after the other, as far as there are numbers.
pub proof fn law_segments_are_numbered_on(segment: u32, next: Option<u32>)
    requires
        call_ensures(next_segment, (segment,), next),
    ensures
        segment < 0xffff_ffff ==> next == Some((segment + 1) as u32),
        segment == 0xffff_ffff ==> next is None,
{
}

proof fn lemma_latest(files: Seq<LogFileView>, date: Seq<char>, n: int, j: int)
    requires
        0 <= n <= files.len(),
    ensures
        latest_at(files, date, n) matches Some(i) ==> 0 <= i < n && files[i].date == date && (0 <= j
            < n && files[j].date == date ==> files[j].segment <= files[i].segment),
        latest_at(files, date, n) is None && 0 <= j < n ==> files[j].date != date,
    decreases n,
{
    if n > 0 {
        lemma_latest(files, date, n - 1, j);
        if let Some(k) = latest_at(files, date, n - 1) {
            lemma_latest(files, date, n - 1, k);
        }
    }
}

/// A day goes on in its latest segment while that is below its limit, in the next one once
/// it is full, and starts with the first.
pub proof fn law_days_go_on_in_their_latest_segment(
    files: Vec<LogFile>,
    date: &str,
    max: u64,
    choice: CurrentFile,
    j: int,
)
    requires
        call_ensures(choose_current_file, (&files, date, max), choice),
        files@.len() <= usize::MAX,
    ensures
        choice matches CurrentFile::Reopen { index } ==> index < files@.len()
            && files@[index as int].date@ == date@ && files@[index as int].size < max && (0 <= j
            < files@.len() && files@[j].date@ == date@ ==> files@[j].segment
            <= files@[index as int].segment),
        choice matches CurrentFile::Create { segment } ==> (0 <= j < files@.len() && files@[j].date@
            == date@ ==> files@[j].segment < segment),
        choice matches CurrentFile::Create { segment } ==> segment > 0 ==> exists|i: int|
            0 <= i < files@.len() && (#[trigger] files@[i]).date@ == date@ && files@[i].segment
                == segment - 1 && files@[i].size >= max,
        choice is Exhausted ==> exists|i: int|
            0 <= i < files@.len() && (#[trigger] files@[i]).date@ == date@ && files@[i].segment
                == 0xffff_ffff && files@[i].size >= max,
{
    let all = crate::text::views(files@);
    let n = all.len() as int;
    lemma_latest(all, date@, n, j);
    if 0 <= j < n {
        assert(all[j] == files@[j]@);
    }
    if let Some(i) = latest_at(all, date@, n) {
        assert(all[i] == files@[i]@);
        assert(files@[i].date@ == date@);
        assert(i as usize == i);
    }
}

/// A new log file goes on where the file on disk ends, and is not suspended.
pub proof fn law_rolling_starts_where_the_file_ends(
    date: String,
    segment: u32,
    size: u64,
    max: u64,
    file: RollingFile,
    shown: &str,
    number: u32,
    suspended: bool,
)
    requires
        call_ensures(RollingFile::new, (date, segment, size, max), file),
        call_ensures(RollingFile::date, (&file,), shown),
        call_ensures(RollingFile::segment, (&file,), number),
        call_ensures(RollingFile::is_suspended, (&file,), suspended),
    ensures
        shown@ == date@,
        number == segment,
        !suspended,
        file@.size == size,
        file@.max_file_bytes == max,
{
}

/// Bytes that an event of `len` bytes takes in a file of at most `max`: its own, or those
/// of the marker that stands for it.
pub open spec fn taken(len: u64, max: u64) -> int {
    if len <= max {
        len as int
    } else if max < 43 {
        max as int
    } else {
        43
    }
}

/// An event is written to the file of its day if it fits behind what is there; to the next
/// segment if it does not; to a file for the new day once the day has changed; and to the
/// fallback while output is suspended. Once the suspension is over the file is opened
/// again. An event without bytes needs nothing.
pub proof fn law_events_go_where_there_is_room(
    file: &mut RollingFile,
    len: u64,
    now: u64,
    today: String,
    action: LogAction,
)
    requires
        call_ensures(RollingFile::begin_write, (file, len, now, today), action),
    ensures
        old(file)@.suspended_until matches Some(retry) ==> now < retry ==> (
        action matches LogAction::WriteFallback { marker } && !marker),
        old(file)@.suspended_until matches Some(retry) ==> now >= retry ==> action is Reopen,
        old(file)@.suspended_until is None && len == 0 ==> action is Finished,
        old(file)@.suspended_until is None && len > 0 && today@ != old(file)@.date ==> (
        action matches LogAction::OpenDate { date } && date@ == today@),
        old(file)@.suspended_until is None && len > 0 && today@ == old(file)@.date
            && old(file)@.max_file_bytes < u64::MAX ==> (action is WriteFile <==> old(file)@.size
            + taken(len, old(file)@.max_file_bytes) <= old(file)@.max_file_bytes),
        action matches LogAction::WriteFile { marker } ==> (marker <==> len
            > old(file)@.max_file_bytes),
        action matches LogAction::CreateSegment { segment } ==> segment == old(file)@.segment + 1,
        old(file)@.suspended_until is None && len > 0 && today@ == old(file)@.date
            && action !is WriteFile ==> (action is CreateSegment <==> old(file)@.segment
            < 0xffff_ffff),
        final(file)@.date == old(file)@.date,
        final(file)@.segment == old(file)@.segment,
        final(file)@.size == old(file)@.size,
        final(file)@.max_file_bytes == old(file)@.max_file_bytes,
{
}

/// Any work on the file that fails, whatever it was, suspends file output for a minute and
/// sends the event to the fallback. After the fallback the write is over.
pub proof fn law_failed_work_suspends_output(
    file: &mut RollingFile,
    now: u64,
    action: LogAction,
)
    requires
        old(file).wf(),
        call_ensures(RollingFile::step, (file, LogReply::Failed, now), action),
    ensures
        !(old(file)@.phase is Idle) && !(old(file)@.phase is Fallback) ==> (
        action matches LogAction::WriteFallback { marker } && marker == old(file)@.marker),
        !(old(file)@.phase is Idle) && !(old(file)@.phase is Fallback) && now <= u64::MAX
            - 60_000_000_000 ==> final(file)@.suspended_until == Some(
            (now + 60_000_000_000) as u64,
        ),
        !(old(file)@.phase is Idle) && !(old(file)@.phase is Fallback) && now > u64::MAX
            - 60_000_000_000 ==> final(file)@.suspended_until == Some(u64::MAX),
        old(file)@.phase is Idle || old(file)@.phase is Fallback ==> action is Finished
            && final(file)@.suspended_until == old(file)@.suspended_until,
        final(file)@.date == old(file)@.date,
        final(file)@.segment == old(file)@.segment,
        final(file)@.size == old(file)@.size,
{
}

/// A file that was opened is the current one, with the size that it has, and old files make
/// room for it before anything is written. A fresh segment is empty.
pub proof fn law_opened_files_become_current(
    file: &mut RollingFile,
    reply: LogReply,
    now: u64,
    action: LogAction,
)
    requires
        old(file).wf(),
        call_ensures(RollingFile::step, (file, reply, now), action),
    ensures
        reply matches LogReply::Reopened { size } ==> old(file)@.phase is Reopening
            ==> action is Prune && final(file)@.size == size && final(file)@.date == old(file)@.date
            && final(file)@.segment == old(file)@.segment,
        reply matches LogReply::Opened { segment, size } ==> old(file)@.phase is OpeningDate
            ==> action is Prune && final(file)@.date == old(file)@.today && final(file)@.segment
            == segment && final(file)@.size == size,
        reply matches LogReply::Opened { segment, size } ==> old(file)@.phase is Rotating
            ==> action is Prune && final(file)@.date == old(file)@.date && final(file)@.segment
            == segment && final(file)@.size == 0,
{
}

/// After the pruning the event is written: behind what the file holds, or to the next
/// segment if it does not fit. A file that was recovered is in use again, and starts over
/// with the event.
pub proof fn law_pruned_files_are_written_to(
    file: &mut RollingFile,
    now: u64,
    action: LogAction,
)
    requires
        old(file).wf(),
        call_ensures(RollingFile::step, (file, LogReply::Done, now), action),
        old(file)@.max_file_bytes < u64::MAX,
    ensures
        old(file)@.phase is RotatePrune ==> (action matches LogAction::WriteFile { marker } && marker
            == old(file)@.marker),
        old(file)@.phase is DatePrune && !old(file)@.marker ==> (action is WriteFile
            <==> old(file)@.size + old(file)@.event_len <= old(file)@.max_file_bytes),
        old(file)@.phase is RecoverPrune ==> final(file)@.suspended_until is None || action
            is WriteFallback,
        old(file)@.phase is RecoverPrune && old(file)@.event_len == 0 ==> action is Finished,
        old(file)@.phase is RecoverPrune && old(file)@.event_len > 0 && old(file)@.today
            != old(file)@.date ==> (action matches LogAction::OpenDate { date } && date@
            == old(file)@.today),
        old(file)@.phase is RecoverPrune && old(file)@.event_len > 0 && old(file)@.today
            == old(file)@.date ==> (action is WriteFile <==> old(file)@.size + taken(
            old(file)@.event_len,
            old(file)@.max_file_bytes,
        ) <= old(file)@.max_file_bytes),
{
}

/// What was written counts towards the size of the file, and ends the write.
pub proof fn law_written_bytes_are_counted(
    file: &mut RollingFile,
    now: u64,
    len: u64,
    action: LogAction,
)
    requires
        old(file).wf(),
        old(file)@.phase is Writing,
        call_ensures(RollingFile::payload_len, (&*old(file),), len),
        call_ensures(RollingFile::step, (file, LogReply::Done, now), action),
        old(file)@.size + len <= u64::MAX,
    ensures
        action is Finished,
        final(file)@.size == old(file)@.size + len,
        !old(file)@.marker ==> len == old(file)@.event_len,
        old(file)@.marker && old(file)@.max_file_bytes >= 43 ==> len == 43,
        old(file)@.marker && old(file)@.max_file_bytes < 43 ==> len == old(file)@.max_file_bytes,
        final(file)@.date == old(file)@.date,
        final(file)@.segment == old(file)@.segment,
{
}

/// A suspension outside of a write lasts a minute as well, and is worth a message unless
/// output is suspended already.
pub proof fn law_suspensions_last_a_minute(file: &mut RollingFile, now: u64, report: bool)
    requires
        call_ensures(RollingFile::reports_suspension, (&*old(file), now), report),
        call_ensures(RollingFile::suspend_file_logging, (file, now), ()),
    ensures
        old(file)@.suspended_until is None ==> report,
        old(file)@.suspended_until matches Some(retry) ==> (report <==> now >= retry),
        now <= u64::MAX - 60_000_000_000 ==> final(file)@.suspended_until == Some(
            (now + 60_000_000_000) as u64,
        ),
        final(file)@.phase is Idle,
        final(file)@.date == old(file)@.date,
        final(file)@.segment == old(file)@.segment,
        final(file)@.size == old(file)@.size,
{
}

proof fn lemma_why_pruned(
    files: Seq<LogFileView>,
    limits: LogLimits,
    current_name: Seq<char>,
    current_date: Seq<char>,
    n: int,
    i: int,
)
    requires
        0 <= n <= files.len(),
    ensures
        ({
            let state = prune_state(files, limits, current_name, current_date, n);
            let removed = pruned(files, limits, current_name, current_date, n);
            &&& state.dates.no_duplicates()
            &&& 0 <= i < removed.len() ==> state.size + removed[i].size > limits.old_budget() || (
            state.dates.len() >= limits.max_dates() && !state.dates.contains(removed[i].date))
        }),
    decreases n,
{
    if n > 0 {
        lemma_why_pruned(files, limits, current_name, current_date, n - 1, i);
        let before = prune_state(files, limits, current_name, current_date, n - 1);
        let earlier = pruned(files, limits, current_name, current_date, n - 1);
        let removed = pruned(files, limits, current_name, current_date, n);
        let file = files[n - 1];
        if 0 <= i < earlier.len() {
            assert(removed[i] == earlier[i]);
        }
        if file.name != current_name && keeps(before, file, limits) && !before.dates.contains(
            file.date,
        ) {
            let more = before.dates.push(file.date);
            assert forall|a: int, b: int|
                0 <= a < more.len() && 0 <= b < more.len() && a != b implies more[a] != more[b] by {
                if a == before.dates.len() {
                    assert(before.dates.contains(before.dates[b]));
                } else if b == before.dates.len() {
                    assert(before.dates.contains(before.dates[a]));
                }
            }
        }
    }
}

proof fn lemma_kept_dates(
    files: Seq<LogFileView>,
    limits: LogLimits,
    current_name: Seq<char>,
    current_date: Seq<char>,
    n: int,
    d: int,
)
    requires
        0 <= n <= files.len(),
        0 <= d < prune_state(files, limits, current_name, current_date, n).dates.len(),
    ensures
        ({
            let date = prune_state(files, limits, current_name, current_date, n).dates[d];
            date == current_date || exists|k: int|
                0 <= k < files.len() && (#[trigger] files[k]).date == date
        }),
    decreases n,
{
    if n > 0 {
        let before = prune_state(files, limits, current_name, current_date, n - 1);
        if d < before.dates.len() {
            lemma_kept_dates(files, limits, current_name, current_date, n - 1, d);
        } else {
            assert(files[n - 1].date == prune_state(
                files,
                limits,
                current_name,
                current_date,
                n,
            ).dates[d]);
        }
    }
}

/// Pruning removes no file that there is room for: beside all that stays, each file that
/// goes would either exceed the total, with the current file at its limit, or be of a date
/// too many.
pub proof fn law_pruning_removes_no_more_than_it_must(
    files: Vec<LogFile>,
    limits: LogLimits,
    current_name: &str,
    current_date: &str,
    remove: Vec<LogFile>,
    i: int,
)
    requires
        limits.spec_valid(),
        call_ensures(prune_old_files, (&files, limits, current_name, current_date), remove),
        0 <= i < remove@.len(),
    ensures
        old_bytes(crate::text::views(files@), current_name@) - old_bytes(
            crate::text::views(remove@),
            current_name@,
        ) + remove@[i].size + limits.max_file_bytes > limits.max_total_bytes || exists|
            dates: Seq<Seq<char>>,
        |
            {
                &&& #[trigger] dates.no_duplicates()
                &&& dates.len() >= 1
                &&& dates.len() >= limits.retention_days
                &&& !dates.contains(remove@[i].date@)
                &&& forall|d: int|
                    0 <= d < dates.len() ==> dates[d] == current_date@ || exists|k: int|
                        0 <= k < files@.len() && (#[trigger] files@[k]).date@ == #[trigger] dates[d]
            },
{
    let all = crate::text::views(files@);
    let sorted = choose|sorted: Seq<LogFileView>|
        {
            &&& #[trigger] newest_first(sorted)
            &&& sorted.to_multiset() == all.to_multiset()
            &&& crate::text::views(remove@) == pruned(
                sorted,
                limits,
                current_name@,
                current_date@,
                sorted.len() as int,
            )
        };
    let n = sorted.len() as int;
    let state = prune_state(sorted, limits, current_name@, current_date@, n);
    assert(sorted.take(n) =~= sorted);
    lemma_pruned_bytes(sorted, limits, current_name@, current_date@, n);
    lemma_old_bytes_permutation(sorted, all, current_name@);
    lemma_why_pruned(sorted, limits, current_name@, current_date@, n, i);
    assert(crate::text::views(remove@)[i] == remove@[i]@);
    let dates = state.dates;
    assert forall|d: int| 0 <= d < dates.len() implies dates[d] == current_date@ || exists|k: int|
        0 <= k < files@.len() && (#[trigger] files@[k]).date@ == #[trigger] dates[d] by {
        lemma_kept_dates(sorted, limits, current_name@, current_date@, n, d);
        if dates[d] != current_date@ {
            let k = choose|k: int| 0 <= k < sorted.len() && (#[trigger] sorted[k]).date == dates[d];
            lemma_same_files(sorted, all, k);
            let l = choose|l: int| 0 <= l < all.len() && all[l] == sorted[k];
            assert(files@[l].date@ == dates[d]);
        }
    }
    assert(dates.no_duplicates());
}

proof fn lemma_same_files(a: Seq<LogFileView>, b: Seq<LogFileView>, k: int)
    requires
        a.to_multiset() == b.to_multiset(),
        0 <= k < a.len(),
    ensures
        b.contains(a[k]),
{
    broadcast use vstd::seq_lib::group_to_multiset_ensures;

    assert(a.contains(a[k]));
    assert(a.to_multiset().count(a[k]) > 0);
}

/// Log files of two weeks are kept, of four megabytes each and sixty-four in all, and access
/// counters are summarized every minute. These limits are usable.
pub proof fn law_usual_limits_are_usable(limits: LogLimits, result: Result<(), String>)
    requires
        limits.retention_days == LOG_RETENTION_DAYS,
        limits.max_file_bytes == LOG_MAX_FILE_BYTES,
        limits.max_total_bytes == LOG_MAX_TOTAL_BYTES,
        call_ensures(LogLimits::check, (&limits,), result),
    ensures
        result is Ok,
        limits.retention_days == 14,
        limits.max_file_bytes == 4 * 1024 * 1024,
        limits.max_total_bytes == 16 * limits.max_file_bytes,
        ACCESS_SUMMARY_INTERVAL_SECS == 60,
{
}

} // verus!
