//! Daily clone counters and the instants that key them.

use vstd::prelude::*;

verus! {

/// What `chrono::DateTime::parse_from_rfc3339` followed by `timestamp` yields
/// for a text: the whole UTC seconds since the Unix epoch of the instant the
/// text names, or `None` when the text is no RFC 3339 date-time.
pub uninterp spec fn rfc3339_seconds(text: Seq<char>) -> Option<i64>;

/// What `chrono::DateTime::<Utc>::from_timestamp(secs, 0)` followed by
/// `to_rfc3339_opts(SecondsFormat::Secs, true)` yields: the fixed-format UTC
/// text of a second (`YYYY-MM-DDTHH:MM:SSZ`), or `None` for a second outside
/// chrono's range.
pub uninterp spec fn utc_seconds_text(secs: i64) -> Option<Seq<char>>;

/// Relies on `chrono::DateTime::parse_from_rfc3339` to read an RFC 3339 text,
/// and on `DateTime::timestamp` for its UTC second (the fraction is dropped).
#[verifier::external_body]
fn parse_instant(text: &str) -> (r: Option<i64>)
    ensures
        r == rfc3339_seconds(text@),
{
    match chrono::DateTime::parse_from_rfc3339(text) {
        Ok(t) => Some(t.timestamp()),
        Err(_) => None,
    }
}

/// Relies on `chrono::DateTime::<Utc>::from_timestamp` to build the instant of
/// a UTC second, and on `to_rfc3339_opts(SecondsFormat::Secs, true)` to write
/// it in the canonical second-precision form with a `Z` suffix.
#[verifier::external_body]
fn format_utc_seconds(secs: i64) -> (r: Option<String>)
    ensures
        r is Some <==> utc_seconds_text(secs) is Some,
        r is Some ==> r->0@ == utc_seconds_text(secs)->0,
{
    match chrono::DateTime::<chrono::Utc>::from_timestamp(secs, 0) {
        Some(t) => Some(t.to_rfc3339_opts(chrono::SecondsFormat::Secs, true)),
        None => None,
    }
}

/// One day's clone counters for one repository, as the hosting service
/// reports them. `day` is the reported instant as whole UTC seconds since the
/// Unix epoch: two texts that name the same UTC second give the same `day`.
#[derive(Clone, Copy, Debug, PartialEq, Eq, Structural)]
pub struct DailySample {
    pub day: i64,
    pub total: u64,
    pub unique: u64,
}

/// One entry of a report, as it arrives: the instant's text and both counters.
pub open spec fn entry_sample(entry: (Seq<char>, u64, u64)) -> Option<DailySample> {
    match rfc3339_seconds(entry.0) {
        Some(day) => Some(DailySample { day, total: entry.1, unique: entry.2 }),
        None => None,
    }
}

/// Whether every entry of a report carries a readable instant.
pub open spec fn entries_readable(entries: Seq<(Seq<char>, u64, u64)>) -> bool {
    forall|i: int| 0 <= i < entries.len() ==> (#[trigger] rfc3339_seconds(entries[i].0)) is Some
}

/// The view of a report entry whose text is held in a `String`.
pub open spec fn entry_view(entry: (String, u64, u64)) -> (Seq<char>, u64, u64) {
    (entry.0@, entry.1, entry.2)
}

impl DailySample {
    /// The sample that a report entry stands for, or `None` when its
    /// timestamp is no RFC 3339 date-time.
    pub fn from_entry(timestamp: &str, count: u64, uniques: u64) -> (r: Option<DailySample>)
        ensures
            r == entry_sample((timestamp@, count, uniques)),
    {
        match parse_instant(timestamp) {
            Some(day) => Some(DailySample { day, total: count, unique: uniques }),
            None => None,
        }
    }

    /// The canonical text of the sample's day: UTC, second precision, fixed
    /// format. `None` only for a second outside the representable range.
    pub fn day_text(&self) -> (r: Option<String>)
        ensures
            r is Some <==> utc_seconds_text(self.day) is Some,
            r is Some ==> r->0@ == utc_seconds_text(self.day)->0,
    {
        format_utc_seconds(self.day)
    }
}

/// Decodes the daily entries of a report, in order. The result is `Some` exactly
/// when every entry's timestamp is readable, and then holds one sample per entry.
pub fn decode_samples(entries: &Vec<(String, u64, u64)>) -> (r: Option<Vec<DailySample>>)
    ensures
        r is Some <==> entries_readable(entries@.map_values(|e| entry_view(e))),
        r is Some ==> r->0@.len() == entries@.len() && forall|i: int|
            0 <= i < entries@.len() ==> Some(#[trigger] r->0@[i]) == entry_sample(
                entry_view(entries@[i]),
            ),
{
    let mut out: Vec<DailySample> = Vec::new();
    let mut i: usize = 0;
    while i < entries.len()
        invariant
            i <= entries@.len(),
            out@.len() == i,
            forall|j: int|
                0 <= j < i ==> Some(#[trigger] out@[j]) == entry_sample(entry_view(entries@[j])),
        decreases entries@.len() - i,
    {
        let entry = &entries[i];
        match DailySample::from_entry(entry.0.as_str(), entry.1, entry.2) {
            Some(s) => out.push(s),
            None => {
                proof {
                    let views = entries@.map_values(|e| entry_view(e));
                    assert(views[i as int] == entry_view(entries@[i as int]));
                }
                return None;
            },
        }
        i = i + 1;
    }
    proof {
        let views = entries@.map_values(|e| entry_view(e));
        assert forall|j: int| 0 <= j < views.len() implies (#[trigger] rfc3339_seconds(
            views[j].0,
        )) is Some by {
            assert(views[j] == entry_view(entries@[j]));
            assert(Some(out@[j]) == entry_sample(entry_view(entries@[j])));
        }
    }
    Some(out)
}

} // verus!
