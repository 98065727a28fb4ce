//! The default consumer policy: keep or skip a message by its author's handle
//! or by its date.
use vstd::prelude::*;

use chrono::{Datelike, Timelike};

use crate::reader::{MessageEvent, EventView};

verus! {

/// A calendar date and time of day, as the export writes message dates.
#[derive(Debug, PartialEq, Eq, Structural, Copy, Clone)]
pub struct DateStamp {
    pub year: i32,
    pub month: u32,
    pub day: u32,
    pub hour: u32,
    pub minute: u32,
    pub second: u32,
    /// Fraction of the second; at or above one second during a leap second.
    pub nanosecond: u32,
}

pub type StampView = (int, int, int, int, int, int, int);

impl DateStamp {
    pub open spec fn view(self) -> StampView {
        (self.year as int, self.month as int, self.day as int, self.hour as int, self.minute as int,
            self.second as int, self.nanosecond as int)
    }
}

pub open spec fn stamp_option_view(d: Option<DateStamp>) -> Option<StampView> {
    match d {
        Some(d) => Some(d@),
        None => None,
    }
}

/// `a` is strictly earlier than `b`: field by field, from the year down.
pub open spec fn earlier(a: StampView, b: StampView) -> bool {
    if a.0 != b.0 {
        a.0 < b.0
    } else if a.1 != b.1 {
        a.1 < b.1
    } else if a.2 != b.2 {
        a.2 < b.2
    } else if a.3 != b.3 {
        a.3 < b.3
    } else if a.4 != b.4 {
        a.4 < b.4
    } else if a.5 != b.5 {
        a.5 < b.5
    } else {
        a.6 < b.6
    }
}

/// The date and time that a message date in the export's `YYYY.MM.DD hh:mm:ss`
/// form denotes, if it denotes one.
pub uninterp spec fn parsed_date(s: Seq<char>) -> Option<StampView>;

/// Relies on chrono's `NaiveDateTime::parse_from_str` with the format
/// `%Y.%m.%d %H:%M:%S`, read back through its calendar and clock fields.
#[verifier::external_body]
fn parse_stamp(s: &str) -> (r: Option<DateStamp>)
    ensures
        stamp_option_view(r) == parsed_date(s@),
{
    chrono::NaiveDateTime::parse_from_str(s, "%Y.%m.%d %H:%M:%S").ok().map(|d| DateStamp {
        year: d.year(),
        month: d.month(),
        day: d.day(),
        hour: d.hour(),
        minute: d.minute(),
        second: d.second(),
        nanosecond: d.nanosecond(),
    })
}

fn is_earlier(a: &DateStamp, b: &DateStamp) -> (r: bool)
    ensures
        r == earlier(a@, b@),
{
    if a.year != b.year {
        a.year < b.year
    } else if a.month != b.month {
        a.month < b.month
    } else if a.day != b.day {
        a.day < b.day
    } else if a.hour != b.hour {
        a.hour < b.hour
    } else if a.minute != b.minute {
        a.minute < b.minute
    } else if a.second != b.second {
        a.second < b.second
    } else {
        a.nanosecond < b.nanosecond
    }
}

/// Which messages to keep. An allow-list, when set, takes precedence over a
/// deny-list.
pub struct Filter {
    pub since_date: Option<DateStamp>,
    pub short_name_whitelist: Option<Vec<String>>,
    pub short_name_blacklist: Option<Vec<String>>,
}

/// `name` is one of the strings in `list`.
pub open spec fn listed(list: Seq<String>, name: Seq<char>) -> bool {
    exists|i: int| 0 <= i < list.len() && #[trigger] list[i]@ == name
}

impl Filter {
    /// Whether a message by the author with handle `name` is kept.
    pub open spec fn short_name_ok(self, name: Seq<char>) -> bool {
        match self.short_name_whitelist {
            Some(w) => listed(w@, name),
            None => match self.short_name_blacklist {
                Some(b) => !listed(b@, name),
                None => true,
            },
        }
    }

    /// Whether a message dated `date` is kept. With a threshold set, a date that
    /// does not parse is not kept.
    pub open spec fn date_ok(self, date: Seq<char>) -> bool {
        match self.since_date {
            None => true,
            Some(since) => match parsed_date(date) {
                Some(d) => !earlier(d, since@),
                None => false,
            },
        }
    }

    /// Whether the filter can judge `e`: with a threshold set, a date must parse.
    pub open spec fn judges(self, e: EventView) -> bool {
        match e {
            EventView::Date(d) => self.since_date is None || parsed_date(d) is Some,
            _ => true,
        }
    }

    /// Whether the filter lets `e` through.
    pub open spec fn passes(self, e: EventView) -> bool {
        match e {
            EventView::ShortName(n) => self.short_name_ok(n),
            EventView::Date(d) => self.date_ok(d),
            _ => true,
        }
    }
}

impl Default for Filter {
    fn default() -> (r: Filter)
        ensures
            r.since_date is None,
            r.short_name_whitelist is None,
            r.short_name_blacklist is None,
    {
        Filter { since_date: None, short_name_whitelist: None, short_name_blacklist: None }
    }
}

fn is_listed(list: &Vec<String>, name: &String) -> (r: bool)
    ensures
        r == listed(list@, name@),
{
    let mut i: usize = 0;
    while i < list.len()
        invariant
            i <= list@.len(),
            forall|k: int| 0 <= k < i ==> list@[k]@ != name@,
        decreases list@.len() - i,
    {
        if list[i] == *name {
            return true;
        }
        i += 1;
    }
    false
}

fn short_name_passes(filter: &Filter, short_name: &String) -> (r: bool)
    ensures
        r == filter.short_name_ok(short_name@),
{
    if let Some(whitelist) = &filter.short_name_whitelist {
        is_listed(whitelist, short_name)
    } else if let Some(blacklist) = &filter.short_name_blacklist {
        !is_listed(blacklist, short_name)
    } else {
        true
    }
}

fn date_passes(filter: &Filter, date: &String) -> (r: bool)
    requires
        filter.since_date is None || parsed_date(date@) is Some,
    ensures
        r == filter.date_ok(date@),
{
    if let Some(since_date) = &filter.since_date {
        match parse_stamp(date.as_str()) {
            Some(msg_date) => !is_earlier(&msg_date, since_date),
            None => false,  // excluded by the precondition
        }
    } else {
        true
    }
}

impl Filter {
    /// Hands `event` back if the filter lets it through: a handle must pass the
    /// name lists and a date the threshold; every other event passes.
    pub fn filter_event(&self, event: MessageEvent) -> (r: Option<MessageEvent>)
        requires
            self.judges(event@),
        ensures
            r == (if self.passes(event@) {
                Some(event)
            } else {
                None
            }),
    {
        let keep = match &event {
            MessageEvent::ShortNameExtracted(name) => short_name_passes(self, name),
            MessageEvent::DateExtracted(date) => date_passes(self, date),
            _ => true,
        };
        if keep {
            Some(event)
        } else {
            None
        }
    }
}

/// A message date that does not parse while a date threshold is set.
#[derive(Debug, PartialEq, Eq, Structural, Copy, Clone)]
pub struct UnparsableDate;

impl Filter {
    /// `filter_event` for any event: a date that the threshold cannot be
    /// compared with is reported instead of judged.
    pub fn screen_event(&self, event: MessageEvent) -> (r: Result<Option<MessageEvent>, UnparsableDate>)
        ensures
            r == (if !self.judges(event@) {
                Err(UnparsableDate)
            } else if self.passes(event@) {
                Ok(Some(event))
            } else {
                Ok(None)
            }),
    {
        if let MessageEvent::DateExtracted(date) = &event {
            if self.since_date.is_some() && parse_stamp(date.as_str()).is_none() {
                return Err(UnparsableDate);
            }
        }
        Ok(self.filter_event(event))
    }
}

/// With only a deny-list set, every event of an author whose handle is not on
/// it passes: the filter lets through their handle and every other event alike,
/// so `filter_event` hands each back unchanged.
pub proof fn lemma_deny_list_keeps_others(f: Filter, handle: Seq<char>, e: EventView)
    requires
        f.since_date is None,
        f.short_name_whitelist is None,
        f.short_name_blacklist is Some,
        !listed(f.short_name_blacklist->Some_0@, handle),
        e is ShortName ==> e == EventView::ShortName(handle),
    ensures
        f.judges(e),
        f.passes(e),
{
}

} // verus!
