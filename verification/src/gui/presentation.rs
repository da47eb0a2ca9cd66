//! What the main screen shows: the sidebar's rows, the message timeline with
//! its date separators, and which pane fills the main area. The drawing
//! itself is the caller's.

use crate::gui::main_screen::{MainScreen, MainScreenView};
use crate::gui::names::{resolve_display_name, resolved_name};
use crate::gui::screen::{extract_date, format_time, format_time_spec, ParsedMessage, ParsedMessageView};
use crate::gui::chatsvc::messages_view;
use crate::gui::sections::{
    ascending_below, build_sidebar_sections, lemma_sidebar_sections_partition, sidebar_sections,
    SectionView, SidebarSection,
};
use crate::num::{
    parse_i32, parse_i32_spec, parse_u32, parse_u32_spec, push_signed, push_two_digits,
    signed_string, two_digit_string,
};
use crate::text::{before_first, concat, eq_str, split_chars, split_seq, to_string};
use vstd::prelude::*;

verus! {

// ---------------------------------------------------------------------------
// Date separators
// ---------------------------------------------------------------------------

/// Whether `year` is a leap year of the proleptic Gregorian calendar.
pub open spec fn is_leap_year(year: int) -> bool {
    (year % 4 == 0 && year % 100 != 0) || year % 400 == 0
}

/// The number of days of a month (1 to 12) of a year.
pub open spec fn days_in_month(year: int, month: int) -> int {
    if month == 2 {
        if is_leap_year(year) {
            29
        } else {
            28
        }
    } else if month == 4 || month == 6 || month == 9 || month == 11 {
        30
    } else {
        31
    }
}

/// The number of days from 1970-01-01 to a date of the proleptic Gregorian
/// calendar (negative before it), counting years from March.
pub open spec fn days_from_epoch(year: int, month: int, day: int) -> int {
    let y = if month <= 2 {
        year - 1
    } else {
        year
    };
    let era = y / 400;
    let yoe = y - era * 400;
    let mp = (month + 9) % 12;
    let doy = (153 * mp + 2) / 5 + day - 1;
    let doe = yoe * 365 + yoe / 4 - yoe / 100 + doy;
    era * 146097 + doe - 719468
}

/// The weekday of a date, counted from Monday (0) to Sunday (6); `None` when
/// there is no such date in chrono's range: a month outside 1 to 12, a day
/// outside its month, or a year outside -262143 to 262142.
pub open spec fn calendar_weekday(year: i32, month: u32, day: u32) -> Option<u32> {
    if -262143 <= year <= 262142 && 1 <= month <= 12 && 1 <= day <= days_in_month(
        year as int,
        month as int,
    ) {
        Some(((days_from_epoch(year as int, month as int, day as int) + 3) % 7) as u32)
    } else {
        None
    }
}

/// `chrono::NaiveDate::from_ymd_opt`, reduced to the date's weekday
/// (`Datelike::weekday`, then `Weekday::num_days_from_monday`). chrono's
/// dates are those of the proleptic Gregorian calendar with a year from
/// `(i32::MIN >> 13) + 1` to `(i32::MAX >> 13) - 1`.
#[verifier::external_body]
fn date_weekday(year: i32, month: u32, day: u32) -> (r: Option<u32>)
    ensures
        r == calendar_weekday(year, month, day),
{
    match chrono::NaiveDate::from_ymd_opt(year, month, day) {
        Some(date) => Some(chrono::Datelike::weekday(&date).num_days_from_monday()),
        None => None,
    }
}

/// The German name of a weekday counted from Monday.
pub open spec fn german_weekday(w: u32) -> Seq<char> {
    if w == 0 {
        "Montag"@
    } else if w == 1 {
        "Dienstag"@
    } else if w == 2 {
        "Mittwoch"@
    } else if w == 3 {
        "Donnerstag"@
    } else if w == 4 {
        "Freitag"@
    } else if w == 5 {
        "Samstag"@
    } else {
        "Sonntag"@
    }
}

fn german_weekday_str(w: u32) -> (r: &'static str)
    ensures
        r@ == german_weekday(w),
{
    if w == 0 {
        "Montag"
    } else if w == 1 {
        "Dienstag"
    } else if w == 2 {
        "Mittwoch"
    } else if w == 3 {
        "Donnerstag"
    } else if w == 4 {
        "Freitag"
    } else if w == 5 {
        "Samstag"
    } else {
        "Sonntag"
    }
}

/// The label of a date separator for "YYYY-MM-DD": "Montag, 23.03.2026".
/// A field that does not parse counts as year 2026, month 1 or day 1; text
/// that is not three '-'-separated fields, or no valid date, stays as it is.
pub open spec fn date_separator_label(ymd: Seq<char>) -> Seq<char> {
    let fields = split_seq(ymd, '-');
    if fields.len() != 3 {
        ymd
    } else {
        let year: i32 = match parse_i32_spec(fields[0]) {
            Some(y) => y,
            None => 2026,
        };
        let month: u32 = match parse_u32_spec(fields[1]) {
            Some(m) => m,
            None => 1,
        };
        let day: u32 = match parse_u32_spec(fields[2]) {
            Some(d) => d,
            None => 1,
        };
        match calendar_weekday(year, month, day) {
            Some(w) => german_weekday(w) + ", "@ + two_digit_string(day as nat) + "."@
                + two_digit_string(month as nat) + "."@ + signed_string(year as int),
            None => ymd,
        }
    }
}

/// Format "YYYY-MM-DD" as "Montag, 23.03.2026".
pub fn format_date_separator(ymd: &str) -> (r: String)
    ensures
        r@ == date_separator_label(ymd@),
{
    let fields = split_chars(ymd, '-');
    if fields.len() != 3 {
        return to_string(ymd);
    }
    let year: i32 = match parse_i32(fields[0].as_str()) {
        Some(y) => y,
        None => 2026,
    };
    let month: u32 = match parse_u32(fields[1].as_str()) {
        Some(m) => m,
        None => 1,
    };
    let day: u32 = match parse_u32(fields[2].as_str()) {
        Some(d) => d,
        None => 1,
    };
    match date_weekday(year, month, day) {
        Some(w) => {
            let mut s = concat(german_weekday_str(w), ", ");
            push_two_digits(&mut s, day);
            crate::text::push_char(&mut s, '.');
            push_two_digits(&mut s, month);
            crate::text::push_char(&mut s, '.');
            push_signed(&mut s, year);
            proof {
                assert(s@ =~= german_weekday(w) + ", "@ + two_digit_string(day as nat) + "."@
                    + two_digit_string(month as nat) + "."@ + signed_string(year as int)) by {
                    reveal_strlit(".");
                }
            }
            s
        },
        None => to_string(ymd),
    }
}

// ---------------------------------------------------------------------------
// The message timeline
// ---------------------------------------------------------------------------

/// One row of the message timeline.
#[derive(Debug, PartialEq)]
pub enum TimelineRow {
    /// A centered date line.
    DateSeparator(String),
    /// A message, by its index in the screen's message list, with its
    /// "HH:MM" time and whether its sender's name is shown.
    Message { index: usize, show_name: bool, time: String },
}

/// The mathematical content of a timeline row.
pub enum TimelineRowView {
    DateSeparator(Seq<char>),
    Message { index: usize, show_name: bool, time: Seq<char> },
}

impl View for TimelineRow {
    type V = TimelineRowView;

    open spec fn view(&self) -> TimelineRowView {
        match self {
            TimelineRow::DateSeparator(label) => TimelineRowView::DateSeparator(label@),
            TimelineRow::Message { index, show_name, time } => TimelineRowView::Message {
                index: *index,
                show_name: *show_name,
                time: time@,
            },
        }
    }
}

/// Whether both I and someone else sent some of the messages; only then
/// are sender names shown.
pub open spec fn has_multiple_senders(ms: Seq<ParsedMessageView>) -> bool {
    (exists|i: int| 0 <= i < ms.len() && (#[trigger] ms[i]).is_from_me) && (exists|i: int|
        0 <= i < ms.len() && !(#[trigger] ms[i]).is_from_me)
}

/// The date part of message `j` in time order (the messages are stored
/// newest first).
pub open spec fn date_at(ms: Seq<ParsedMessageView>, j: int) -> Seq<char> {
    before_first(ms[ms.len() - 1 - j].timestamp, 'T')
}

/// Whether a date separator comes before message `j` in time order: its
/// date differs from the one before, is not empty and is not today.
pub open spec fn separator_before(ms: Seq<ParsedMessageView>, j: int, today: Seq<char>) -> bool {
    (j == 0 || date_at(ms, j - 1) != date_at(ms, j)) && date_at(ms, j).len() > 0 && date_at(ms, j)
        != today
}

/// Whether message `j` in time order starts a run of one sender: the first
/// message, the first after a date separator, or a change of sender name.
pub open spec fn starts_run(ms: Seq<ParsedMessageView>, j: int, today: Seq<char>) -> bool {
    j == 0 || separator_before(ms, j, today) || ms[ms.len() - j].sender_name
        != ms[ms.len() - 1 - j].sender_name
}

/// The rows for message `j` in time order.
pub open spec fn rows_for(ms: Seq<ParsedMessageView>, j: int, today: Seq<char>) -> Seq<TimelineRowView> {
    let i = ms.len() - 1 - j;
    let sep = if separator_before(ms, j, today) {
        seq![TimelineRowView::DateSeparator(date_separator_label(date_at(ms, j)))]
    } else {
        Seq::empty()
    };
    sep.push(
        TimelineRowView::Message {
            index: i as usize,
            show_name: has_multiple_senders(ms) && starts_run(ms, j, today),
            time: format_time_spec(ms[i].timestamp),
        },
    )
}

/// The rows for the first `n` messages in time order.
pub open spec fn timeline_upto(ms: Seq<ParsedMessageView>, n: nat, today: Seq<char>) -> Seq<
    TimelineRowView,
>
    decreases n,
{
    if n == 0 {
        Seq::empty()
    } else {
        timeline_upto(ms, (n - 1) as nat, today) + rows_for(ms, n - 1, today)
    }
}

/// The message indices of timeline rows, in row order.
pub open spec fn message_indices(rows: Seq<TimelineRowView>) -> Seq<usize>
    decreases rows.len(),
{
    if rows.len() == 0 {
        Seq::empty()
    } else {
        let prev = message_indices(rows.drop_last());
        match rows.last() {
            TimelineRowView::Message { index, .. } => prev.push(index),
            TimelineRowView::DateSeparator(_) => prev,
        }
    }
}

proof fn lemma_message_indices_concat(a: Seq<TimelineRowView>, b: Seq<TimelineRowView>)
    ensures
        message_indices(a + b) == message_indices(a) + message_indices(b),
    decreases b.len(),
{
    if b.len() == 0 {
        assert(a + b =~= a);
        assert(message_indices(a) + message_indices(b) =~= message_indices(a));
    } else {
        lemma_message_indices_concat(a, b.drop_last());
        assert((a + b).drop_last() =~= a + b.drop_last());
        assert((a + b).last() == b.last());
        match b.last() {
            TimelineRowView::Message { index, .. } => {
                assert(message_indices(a) + message_indices(b) =~= (message_indices(a)
                    + message_indices(b.drop_last())).push(index));
            },
            TimelineRowView::DateSeparator(_) => {},
        }
    }
}

/// Timeline law: every message appears exactly once, oldest first (the
/// messages are stored newest first), whatever date lines come between.
pub proof fn lemma_timeline_shows_each_message_once(
    ms: Seq<ParsedMessageView>,
    n: nat,
    today: Seq<char>,
)
    requires
        n <= ms.len(),
        ms.len() <= usize::MAX,
    ensures
        message_indices(timeline_upto(ms, n, today)) == Seq::new(
            n,
            |k: int| (ms.len() - 1 - k) as usize,
        ),
    decreases n,
{
    if n == 0 {
        assert(message_indices(timeline_upto(ms, 0, today)) =~= Seq::<usize>::empty());
    } else {
        let m = (n - 1) as nat;
        lemma_timeline_shows_each_message_once(ms, m, today);
        assert(message_indices(Seq::<TimelineRowView>::empty()) =~= Seq::<usize>::empty());
        let prev = timeline_upto(ms, m, today);
        let step = rows_for(ms, m as int, today);
        lemma_message_indices_concat(prev, step);
        let i = ms.len() - 1 - m;
        let msg_row = TimelineRowView::Message {
            index: i as usize,
            show_name: has_multiple_senders(ms) && starts_run(ms, m as int, today),
            time: format_time_spec(ms[i].timestamp),
        };
        if separator_before(ms, m as int, today) {
            let sep = seq![TimelineRowView::DateSeparator(date_separator_label(date_at(ms, m as int)))];
            assert(step == sep.push(msg_row));
            assert(sep.push(msg_row).drop_last() =~= sep);
            assert(sep.drop_last() =~= Seq::<TimelineRowView>::empty());
            assert(sep.last() is DateSeparator);
            assert(message_indices(sep) =~= Seq::<usize>::empty());
            assert(message_indices(step) =~= seq![i as usize]);
        } else {
            assert(step == Seq::<TimelineRowView>::empty().push(msg_row));
            assert(Seq::<TimelineRowView>::empty().push(msg_row).drop_last() =~= Seq::<TimelineRowView>::empty());
            assert(message_indices(step) =~= seq![i as usize]);
        }
        assert(message_indices(timeline_upto(ms, n, today)) =~= Seq::new(
            n,
            |k: int| (ms.len() - 1 - k) as usize,
        ));
    }
}

/// Whether each message row of a timeline shows its sender's name, in row
/// order.
pub open spec fn name_flags(rows: Seq<TimelineRowView>) -> Seq<bool>
    decreases rows.len(),
{
    if rows.len() == 0 {
        Seq::empty()
    } else {
        let prev = name_flags(rows.drop_last());
        match rows.last() {
            TimelineRowView::Message { show_name, .. } => prev.push(show_name),
            TimelineRowView::DateSeparator(_) => prev,
        }
    }
}

proof fn lemma_name_flags_concat(a: Seq<TimelineRowView>, b: Seq<TimelineRowView>)
    ensures
        name_flags(a + b) == name_flags(a) + name_flags(b),
    decreases b.len(),
{
    if b.len() == 0 {
        assert(a + b =~= a);
        assert(name_flags(a) + name_flags(b) =~= name_flags(a));
    } else {
        lemma_name_flags_concat(a, b.drop_last());
        assert((a + b).drop_last() =~= a + b.drop_last());
        assert((a + b).last() == b.last());
        match b.last() {
            TimelineRowView::Message { show_name, .. } => {
                assert(name_flags(a) + name_flags(b) =~= (name_flags(a) + name_flags(
                    b.drop_last(),
                )).push(show_name));
            },
            TimelineRowView::DateSeparator(_) => {},
        }
    }
}

proof fn lemma_timeline_name_flags(ms: Seq<ParsedMessageView>, n: nat, today: Seq<char>)
    requires
        n <= ms.len(),
    ensures
        name_flags(timeline_upto(ms, n, today)).len() == n,
        forall|k: int|
            0 <= k < n ==> #[trigger] name_flags(timeline_upto(ms, n, today))[k] == (
            has_multiple_senders(ms) && starts_run(ms, k, today)),
    decreases n,
{
    if n == 0 {
        assert(name_flags(timeline_upto(ms, 0, today)) =~= Seq::<bool>::empty());
    } else {
        let m = (n - 1) as nat;
        lemma_timeline_name_flags(ms, m, today);
        let prev = timeline_upto(ms, m, today);
        let step = rows_for(ms, m as int, today);
        lemma_name_flags_concat(prev, step);
        let i = ms.len() - 1 - m;
        let flag = has_multiple_senders(ms) && starts_run(ms, m as int, today);
        let msg_row = TimelineRowView::Message {
            index: i as usize,
            show_name: flag,
            time: format_time_spec(ms[i].timestamp),
        };
        if separator_before(ms, m as int, today) {
            let sep = seq![TimelineRowView::DateSeparator(date_separator_label(date_at(ms, m as int)))];
            assert(step == sep.push(msg_row));
            assert(sep.push(msg_row).drop_last() =~= sep);
            assert(sep.drop_last() =~= Seq::<TimelineRowView>::empty());
            assert(sep.last() is DateSeparator);
            assert(name_flags(Seq::<TimelineRowView>::empty()) =~= Seq::<bool>::empty());
            assert(name_flags(sep) =~= Seq::<bool>::empty());
            assert(name_flags(step) =~= seq![flag]);
        } else {
            assert(step == Seq::<TimelineRowView>::empty().push(msg_row));
            assert(Seq::<TimelineRowView>::empty().push(msg_row).drop_last() =~= Seq::<TimelineRowView>::empty());
            assert(name_flags(Seq::<TimelineRowView>::empty()) =~= Seq::<bool>::empty());
            assert(name_flags(step) =~= seq![flag]);
        }
        assert forall|k: int| 0 <= k < n implies #[trigger] name_flags(timeline_upto(ms, n, today))[k]
            == (has_multiple_senders(ms) && starts_run(ms, k, today)) by {
            if k < m {
                assert(name_flags(timeline_upto(ms, n, today))[k] == name_flags(prev)[k]);
            }
        }
    }
}

/// Timeline law on sender names: once both I (message `mine`) and someone
/// else (message `theirs`) have written, the oldest message and every
/// message whose sender name differs from that of the message before it in
/// time order show the sender's name, even when both senders are other
/// people. The `j`-th message row (oldest first) is the message stored at
/// `ms.len() - 1 - j`.
pub proof fn lemma_timeline_names_each_new_sender(
    ms: Seq<ParsedMessageView>,
    today: Seq<char>,
    mine: int,
    theirs: int,
    j: int,
)
    requires
        ms.len() <= usize::MAX,
        0 <= mine < ms.len(),
        ms[mine].is_from_me,
        0 <= theirs < ms.len(),
        !ms[theirs].is_from_me,
        0 <= j < ms.len(),
        j == 0 || ms[ms.len() - 1 - j].sender_name != ms[ms.len() - j].sender_name,
    ensures
        message_indices(timeline_upto(ms, ms.len() as nat, today))[j] == (ms.len() - 1 - j) as usize,
        name_flags(timeline_upto(ms, ms.len() as nat, today))[j],
{
    lemma_timeline_shows_each_message_once(ms, ms.len() as nat, today);
    lemma_timeline_name_flags(ms, ms.len() as nat, today);
    assert(has_multiple_senders(ms)) by {
        assert(ms[mine].is_from_me);
        assert(!ms[theirs].is_from_me);
    }
    assert(name_flags(timeline_upto(ms, ms.len() as nat, today))[j] == (has_multiple_senders(ms)
        && starts_run(ms, j, today)));
}

/// Timeline law on repeated senders: a message from the same sender name as
/// the message before it in time order, on the same date, shows no name;
/// and when only one side has written (all messages mine, or none), no
/// message shows a name.
pub proof fn lemma_timeline_hides_repeated_names(ms: Seq<ParsedMessageView>, today: Seq<char>, j: int)
    requires
        0 <= j < ms.len(),
    ensures
        (j > 0 && ms[ms.len() - 1 - j].sender_name == ms[ms.len() - j].sender_name && before_first(
            ms[ms.len() - 1 - j].timestamp,
            'T',
        ) == before_first(ms[ms.len() - j].timestamp, 'T')) ==> !name_flags(
            timeline_upto(ms, ms.len() as nat, today),
        )[j],
        (forall|i: int| 0 <= i < ms.len() ==> (#[trigger] ms[i]).is_from_me == ms[0].is_from_me)
            ==> !name_flags(timeline_upto(ms, ms.len() as nat, today))[j],
{
    lemma_timeline_name_flags(ms, ms.len() as nat, today);
    assert(name_flags(timeline_upto(ms, ms.len() as nat, today))[j] == (has_multiple_senders(ms)
        && starts_run(ms, j, today)));
    if forall|i: int| 0 <= i < ms.len() ==> (#[trigger] ms[i]).is_from_me == ms[0].is_from_me {
        assert(!has_multiple_senders(ms)) by {
            if has_multiple_senders(ms) {
                let p = choose|i: int| 0 <= i < ms.len() && (#[trigger] ms[i]).is_from_me;
                let q = choose|i: int| 0 <= i < ms.len() && !(#[trigger] ms[i]).is_from_me;
                assert(ms[p].is_from_me == ms[0].is_from_me);
                assert(ms[q].is_from_me == ms[0].is_from_me);
            }
        }
    }
}

/// The views of a sequence of timeline rows.
pub open spec fn timeline_view(rows: Seq<TimelineRow>) -> Seq<TimelineRowView> {
    rows.map_values(|r: TimelineRow| r@)
}

fn sender_mix(msgs: &Vec<ParsedMessage>) -> (b: bool)
    ensures
        b == has_multiple_senders(messages_view(msgs@)),
{
    let ghost ms = messages_view(msgs@);
    let mut seen_me = false;
    let mut seen_other = false;
    let mut i: usize = 0;
    while i < msgs.len()
        invariant
            ms == messages_view(msgs@),
            i <= msgs.len(),
            seen_me == exists|k: int| 0 <= k < i && (#[trigger] ms[k]).is_from_me,
            seen_other == exists|k: int| 0 <= k < i && !(#[trigger] ms[k]).is_from_me,
        decreases msgs.len() - i,
    {
        proof {
            assert(ms[i as int] == msgs@[i as int]@);
        }
        if msgs[i].is_from_me {
            seen_me = true;
        } else {
            seen_other = true;
        }
        i = i + 1;
    }
    seen_me && seen_other
}

impl MainScreen {
    /// The rows of the open chat's timeline, oldest first, for the given
    /// date of today ("YYYY-MM-DD"): a date line wherever the date changes
    /// (except to today) and the sender's name at the start of each run of
    /// one sender, when both sides have written.
    pub fn timeline(&self, today: &str) -> (rows: Vec<TimelineRow>)
        ensures
            timeline_view(rows@) == timeline_upto(
                messages_view(self.messages@),
                self.messages@.len() as nat,
                today@,
            ),
    {
        let ghost ms = messages_view(self.messages@);
        let n = self.messages.len();
        let multiple = sender_mix(&self.messages);
        let mut rows: Vec<TimelineRow> = Vec::new();
        let mut j: usize = 0;
        while j < n
            invariant
                ms == messages_view(self.messages@),
                n == self.messages@.len(),
                multiple == has_multiple_senders(ms),
                j <= n,
                timeline_view(rows@) == timeline_upto(ms, j as nat, today@),
            decreases n - j,
        {
            let i = n - 1 - j;
            let msg = &self.messages[i];
            proof {
                assert(ms[i as int] == msg@);
            }
            let date = extract_date(msg.timestamp.as_str());
            let date_changed = if j == 0 {
                true
            } else {
                let prev = &self.messages[i + 1];
                proof {
                    assert(ms[i + 1] == prev@);
                }
                !eq_str(extract_date(prev.timestamp.as_str()), date)
            };
            let sep = date_changed && !date.is_empty() && !eq_str(date, today);
            let ghost before = rows@;
            if sep {
                rows.push(TimelineRow::DateSeparator(format_date_separator(date)));
            }
            let run_start = if j == 0 || sep {
                true
            } else {
                !eq_str(self.messages[i + 1].sender_name.as_str(), msg.sender_name.as_str())
            };
            proof {
                if j > 0 {
                    assert(ms[ms.len() - j] == self.messages@[i + 1]@);
                }
            }
            rows.push(
                TimelineRow::Message {
                    index: i,
                    show_name: multiple && run_start,
                    time: format_time(msg.timestamp.as_str()),
                },
            );
            proof {
                assert(timeline_view(rows@) =~= timeline_view(before) + rows_for(ms, j as int, today@));
            }
            j = j + 1;
        }
        rows
    }
}

// ---------------------------------------------------------------------------
// The sidebar
// ---------------------------------------------------------------------------

/// One row of the sidebar.
#[derive(Debug, PartialEq)]
pub enum SidebarRow {
    /// The line above the chats that are in no folder: "── Sonstige ──".
    OtherHeader(String),
    /// A folder's header: its name, whether it is collapsed, and how many
    /// chats it holds.
    FolderHeader { folder_id: String, name: String, collapsed: bool, count: usize },
    /// A chat, by its index in the chat list, under its shown name.
    Chat { index: usize, label: String, selected: bool },
}

/// The mathematical content of a sidebar row.
pub enum SidebarRowView {
    OtherHeader(Seq<char>),
    FolderHeader { folder_id: Seq<char>, name: Seq<char>, collapsed: bool, count: usize },
    Chat { index: usize, label: Seq<char>, selected: bool },
}

impl View for SidebarRow {
    type V = SidebarRowView;

    open spec fn view(&self) -> SidebarRowView {
        match self {
            SidebarRow::OtherHeader(t) => SidebarRowView::OtherHeader(t@),
            SidebarRow::FolderHeader { folder_id, name, collapsed, count } => SidebarRowView::FolderHeader {
                folder_id: folder_id@,
                name: name@,
                collapsed: *collapsed,
                count: *count,
            },
            SidebarRow::Chat { index, label, selected } => SidebarRowView::Chat {
                index: *index,
                label: label@,
                selected: *selected,
            },
        }
    }
}

/// The views of a sequence of sidebar rows.
pub open spec fn sidebar_view(rows: Seq<SidebarRow>) -> Seq<SidebarRowView> {
    rows.map_values(|r: SidebarRow| r@)
}

/// The row of chat `i`: shown under its custom name when it has one, and
/// marked when it is the open chat.
pub open spec fn chat_row(s: MainScreenView, i: usize) -> SidebarRowView {
    SidebarRowView::Chat {
        index: i,
        label: resolved_name(s.chats[i as int].id, s.chats[i as int].display_name, s.custom_chat_names),
        selected: s.selected_chat_id == Some(s.chats[i as int].id),
    }
}

/// The rows of the first `n` chats of a section.
pub open spec fn chat_rows(s: MainScreenView, indices: Seq<usize>, n: nat) -> Seq<SidebarRowView>
    decreases n,
{
    if n == 0 {
        Seq::empty()
    } else {
        chat_rows(s, indices, (n - 1) as nat).push(chat_row(s, indices[n - 1]))
    }
}

/// Whether a section is the catch-all section.
pub open spec fn is_other(sec: SectionView) -> bool {
    sec.folder_id == "___other___"@
}

/// Whether some section is a real folder.
pub open spec fn has_real_folders(secs: Seq<SectionView>) -> bool {
    exists|k: int| 0 <= k < secs.len() && !is_other(#[trigger] secs[k])
}

/// The rows of a section: its header (the catch-all one only beside real
/// folders), then its chats unless it is a collapsed folder.
pub open spec fn section_rows(s: MainScreenView, sec: SectionView, real_folders: bool) -> Seq<
    SidebarRowView,
> {
    let collapsed = s.collapsed_folders.contains(sec.folder_id);
    let header = if is_other(sec) {
        if real_folders {
            seq![SidebarRowView::OtherHeader("── "@ + sec.name + " ──"@)]
        } else {
            Seq::empty()
        }
    } else {
        seq![
            SidebarRowView::FolderHeader {
                folder_id: sec.folder_id,
                name: sec.name,
                collapsed: collapsed,
                count: sec.chat_indices.len() as usize,
            },
        ]
    };
    header + if !collapsed || is_other(sec) {
        chat_rows(s, sec.chat_indices, sec.chat_indices.len())
    } else {
        Seq::empty()
    }
}

/// The rows of the first `n` sections.
pub open spec fn sidebar_upto(s: MainScreenView, secs: Seq<SectionView>, n: nat) -> Seq<SidebarRowView>
    decreases n,
{
    if n == 0 {
        Seq::empty()
    } else {
        sidebar_upto(s, secs, (n - 1) as nat) + section_rows(s, secs[n - 1], has_real_folders(secs))
    }
}

/// The sections of the screen's sidebar.
pub open spec fn screen_sections(screen: MainScreen) -> Seq<SectionView> {
    sidebar_sections(screen.chats@, screen.folders@, screen.folder_order@)
}

impl MainScreen {
    fn is_collapsed(&self, folder_id: &str) -> (b: bool)
        ensures
            b == self@.collapsed_folders.contains(folder_id@),
    {
        let mut i: usize = 0;
        while i < self.collapsed_folders.len()
            invariant
                i <= self.collapsed_folders.len(),
                forall|j: int| 0 <= j < i ==> (#[trigger] self.collapsed_folders@[j])@ != folder_id@,
            decreases self.collapsed_folders.len() - i,
        {
            if eq_str(self.collapsed_folders[i].as_str(), folder_id) {
                assert(self@.collapsed_folders.contains(folder_id@)) by {
                    assert(self.collapsed_folders@[i as int]@ == folder_id@);
                }
                return true;
            }
            i = i + 1;
        }
        false
    }

    fn push_chat_rows(&self, rows: &mut Vec<SidebarRow>, indices: &Vec<usize>)
        requires
            forall|k: int| 0 <= k < indices@.len() ==> #[trigger] indices@[k] < self.chats@.len(),
        ensures
            sidebar_view(final(rows)@) == sidebar_view(old(rows)@) + chat_rows(
                self@,
                indices@,
                indices@.len(),
            ),
    {
        let ghost start = sidebar_view(rows@);
        let mut t: usize = 0;
        proof {
            assert(start + chat_rows(self@, indices@, 0) =~= start);
        }
        while t < indices.len()
            invariant
                forall|k: int| 0 <= k < indices@.len() ==> #[trigger] indices@[k] < self.chats@.len(),
                t <= indices.len(),
                sidebar_view(rows@) == start + chat_rows(self@, indices@, t as nat),
            decreases indices.len() - t,
        {
            let idx = indices[t];
            assert(idx < self.chats@.len());
            let chat = &self.chats[idx];
            proof {
                assert(self@.chats[idx as int] == chat@);
            }
            let label = resolve_display_name(
                chat.id.as_str(),
                chat.display_name.as_str(),
                &self.custom_chat_names,
            );
            let selected = match &self.selected_chat_id {
                Some(id) => eq_str(id.as_str(), chat.id.as_str()),
                None => false,
            };
            let ghost before = rows@;
            rows.push(SidebarRow::Chat { index: idx, label, selected });
            proof {
                assert(sidebar_view(rows@) =~= sidebar_view(before).push(chat_row(self@, idx)));
            }
            t = t + 1;
        }
    }

    /// The rows of the sidebar: each section's header and, unless it is a
    /// collapsed folder, its chats.
    pub fn sidebar_rows(&self) -> (rows: Vec<SidebarRow>)
        ensures
            sidebar_view(rows@) == sidebar_upto(
                self@,
                screen_sections(*self),
                screen_sections(*self).len(),
            ),
    {
        let sections = build_sidebar_sections(
            self.chats.as_slice(),
            self.folders.as_slice(),
            self.folder_order.as_slice(),
        );
        let ghost secs = screen_sections(*self);
        proof {
            assert(self.chats@.len() == self.chats.len());
            lemma_sidebar_sections_partition(self.chats@, self.folders@, self.folder_order@);
            assert(sections@.map_values(|x: SidebarSection| x@) =~= secs);
        }
        let mut real_folders = false;
        let mut k: usize = 0;
        while k < sections.len()
            invariant
                k <= sections.len(),
                sections@.len() == secs.len(),
                forall|q: int| 0 <= q < sections@.len() ==> #[trigger] sections@[q]@ == secs[q],
                real_folders == exists|q: int| 0 <= q < k && !is_other(#[trigger] secs[q]),
            decreases sections.len() - k,
        {
            proof {
                assert(sections@[k as int]@ == secs[k as int]);
            }
            if !eq_str(sections[k].folder_id.as_str(), "___other___") {
                real_folders = true;
            }
            k = k + 1;
        }
        let mut rows: Vec<SidebarRow> = Vec::new();
        let mut k: usize = 0;
        while k < sections.len()
            invariant
                k <= sections.len(),
                sections@.len() == secs.len(),
                secs == screen_sections(*self),
                forall|q: int| 0 <= q < sections@.len() ==> #[trigger] sections@[q]@ == secs[q],
                forall|q: int|
                    0 <= q < secs.len() ==> ascending_below(
                        (#[trigger] secs[q]).chat_indices,
                        self.chats@.len(),
                    ),
                real_folders == has_real_folders(secs),
                sidebar_view(rows@) == sidebar_upto(self@, secs, k as nat),
            decreases sections.len() - k,
        {
            let sec = &sections[k];
            proof {
                assert(sec@ == secs[k as int]);
            }
            let other = eq_str(sec.folder_id.as_str(), "___other___");
            let collapsed = self.is_collapsed(sec.folder_id.as_str());
            let ghost before = sidebar_view(rows@);
            if other {
                if real_folders {
                    let label = concat(concat("── ", sec.name.as_str()).as_str(), " ──");
                    rows.push(SidebarRow::OtherHeader(label));
                }
            } else {
                rows.push(
                    SidebarRow::FolderHeader {
                        folder_id: sec.folder_id.clone(),
                        name: sec.name.clone(),
                        collapsed,
                        count: sec.chat_indices.len(),
                    },
                );
            }
            let ghost mid = sidebar_view(rows@);
            proof {
                let header = if is_other(sec@) {
                    if real_folders {
                        seq![SidebarRowView::OtherHeader("── "@ + sec@.name + " ──"@)]
                    } else {
                        Seq::empty()
                    }
                } else {
                    seq![
                        SidebarRowView::FolderHeader {
                            folder_id: sec@.folder_id,
                            name: sec@.name,
                            collapsed: collapsed,
                            count: sec@.chat_indices.len() as usize,
                        },
                    ]
                };
                assert(mid =~= before + header);
            }
            if !collapsed || other {
                proof {
                    assert(ascending_below(secs[k as int].chat_indices, self.chats@.len()));
                }
                self.push_chat_rows(&mut rows, &sec.chat_indices);
            }
            proof {
                assert(sidebar_view(rows@) =~= before + section_rows(self@, secs[k as int], real_folders));
            }
            k = k + 1;
        }
        rows
    }
}

// ---------------------------------------------------------------------------
// The main area
// ---------------------------------------------------------------------------

/// What fills the main area.
#[derive(Debug, Clone, Copy, PartialEq, Eq, Structural)]
pub enum MainPane {
    /// "Loading chats..."
    LoadingChats,
    /// No chats: the raw chat-list text, for debugging.
    ChatListText,
    /// The open chat: header, messages and input.
    Chat,
    /// "Select a chat"
    SelectChat,
}

/// What the open chat's message area shows.
#[derive(Debug, Clone, Copy, PartialEq, Eq, Structural)]
pub enum MessagePane {
    /// The loading error.
    Error,
    /// "Loading messages..."
    LoadingMessages,
    /// The timeline.
    Timeline,
}

/// The main area of a screen state.
pub open spec fn main_pane_of(s: MainScreenView) -> MainPane {
    if s.loading {
        MainPane::LoadingChats
    } else if s.chats.len() == 0 {
        MainPane::ChatListText
    } else if s.selected_chat_name is Some {
        MainPane::Chat
    } else {
        MainPane::SelectChat
    }
}

/// The message area of a screen state.
pub open spec fn message_pane_of(s: MainScreenView) -> MessagePane {
    if s.messages_error is Some {
        MessagePane::Error
    } else if s.messages.len() == 0 {
        MessagePane::LoadingMessages
    } else {
        MessagePane::Timeline
    }
}

impl MainScreen {
    /// What fills the main area: loading, the raw list, the open chat, or a
    /// prompt to select one.
    pub fn main_pane(&self) -> (p: MainPane)
        ensures
            p == main_pane_of(self@),
    {
        if self.loading {
            MainPane::LoadingChats
        } else if self.chats.len() == 0 {
            MainPane::ChatListText
        } else if self.selected_chat_name.is_some() {
            MainPane::Chat
        } else {
            MainPane::SelectChat
        }
    }

    /// What the open chat's message area shows.
    pub fn message_pane(&self) -> (p: MessagePane)
        ensures
            p == message_pane_of(self@),
    {
        if self.messages_error.is_some() {
            MessagePane::Error
        } else if self.messages.len() == 0 {
            MessagePane::LoadingMessages
        } else {
            MessagePane::Timeline
        }
    }

    /// The length, in characters, of the longest sender name, which sets
    /// the width of the name column.
    pub fn longest_sender_name(&self) -> (n: usize)
        ensures
            forall|i: int|
                0 <= i < self.messages@.len() ==> (#[trigger] self.messages@[i]).sender_name@.len()
                    <= n,
            n == 0 || exists|i: int|
                0 <= i < self.messages@.len() && (#[trigger] self.messages@[i]).sender_name@.len()
                    == n,
    {
        let mut best: usize = 0;
        let mut i: usize = 0;
        while i < self.messages.len()
            invariant
                i <= self.messages.len(),
                forall|k: int| 0 <= k < i ==> (#[trigger] self.messages@[k]).sender_name@.len() <= best,
                best == 0 || exists|k: int|
                    0 <= k < i && (#[trigger] self.messages@[k]).sender_name@.len() == best,
            decreases self.messages.len() - i,
        {
            let len = self.messages[i].sender_name.as_str().unicode_len();
            if len > best {
                best = len;
            }
            i = i + 1;
        }
        best
    }
}

} // verus!
