//! Changing one occurrence of a recurring series.
//!
//! Editing or deleting one occurrence leaves the series master's own times and
//! texts alone:
//!
//! - An edit adds, or updates, a detached override: an event with the same
//!   UID, a `RECURRENCE-ID` equal to the occurrence's original slot, and the
//!   new properties. It shadows the generated instance.
//! - A deletion adds an `EXDATE` for the slot to the master and drops any
//!   override for it.
//!
//! `RECURRENCE-ID` and `EXDATE` are written in the representation of the
//! master's `DTSTART`: the same `TZID`, or UTC, or `VALUE=DATE`. Servers match
//! the slot by that representation.

use vstd::prelude::*;

use crate::civil::Civil;
use crate::error::{Error, ErrorView};
use crate::model::{
    Calendar, Component, ComponentKind, ComponentView, Entry, EntryView, Param, ParamView,
    PartialDate, Property, PropertyName, PropertyView, Value, ValueView,
};

verus! {

/// What may change on one occurrence. `None` leaves a field as it is.
#[derive(Debug)]
pub struct InstanceFields {
    pub summary: Option<String>,
    pub start: Option<String>,
    pub end: Option<String>,
    pub description: Option<String>,
    pub location: Option<String>,
}

/// What an [`InstanceFields`] holds.
pub struct FieldsView {
    pub summary: Option<Seq<char>>,
    pub start: Option<Seq<char>>,
    pub end: Option<Seq<char>>,
    pub description: Option<Seq<char>>,
    pub location: Option<Seq<char>>,
}

impl View for InstanceFields {
    type V = FieldsView;

    open spec fn view(&self) -> FieldsView {
        FieldsView {
            summary: crate::model::text_view(self.summary),
            start: crate::model::text_view(self.start),
            end: crate::model::text_view(self.end),
            description: crate::model::text_view(self.description),
            location: crate::model::text_view(self.location),
        }
    }
}

impl Default for InstanceFields {
    fn default() -> (r: InstanceFields)
        ensures
            r@ == (FieldsView {
                summary: None,
                start: None,
                end: None,
                description: None,
                location: None,
            }),
    {
        InstanceFields { summary: None, start: None, end: None, description: None, location: None }
    }
}

/// How the master expresses its date-times.
#[derive(Debug)]
pub enum DateStyle {
    AllDay,
    Utc,
    Tzid(String),
    Floating,
}

/// What a [`DateStyle`] holds.
pub enum StyleView {
    AllDay,
    Utc,
    Tzid(Seq<char>),
    Floating,
}

impl View for DateStyle {
    type V = StyleView;

    open spec fn view(&self) -> StyleView {
        match self {
            DateStyle::AllDay => StyleView::AllDay,
            DateStyle::Utc => StyleView::Utc,
            DateStyle::Tzid(s) => StyleView::Tzid(s@),
            DateStyle::Floating => StyleView::Floating,
        }
    }
}

/// The style of a master, by its `DTSTART`: a date without a time of day is
/// all-day; a date-time has the zone that the entry names, or is in UTC where
/// it carries an offset, else floating. UTC stands in for a missing date.
pub open spec fn style_of(c: ComponentView) -> StyleView {
    match crate::read::date(c, PropertyName::Dtstart) {
        Some(d) => if !crate::read::timed(d) {
            StyleView::AllDay
        } else {
            match crate::read::tzid(crate::read::property(c.entries, PropertyName::Dtstart)->0.params) {
                Some(tz) => StyleView::Tzid(tz),
                None => if d.tz_hour is Some {
                    StyleView::Utc
                } else {
                    StyleView::Floating
                },
            }
        },
        None => StyleView::Utc,
    }
}

/// Derives the style of a master from its `DTSTART`.
pub fn master_style(c: &Component) -> (r: DateStyle)
    ensures
        r@ == style_of(c@),
{
    match crate::read::date_prop(c, PropertyName::Dtstart) {
        Some(d) => {
            if !d.has_time() {
                return DateStyle::AllDay;
            }
            let zone = match crate::read::find_property(c, PropertyName::Dtstart) {
                Some(p) => crate::read::tzid_of(p),
                None => None,
            };
            match zone {
                Some(tz) => DateStyle::Tzid(tz),
                None => {
                    if d.tz_hour.is_some() {
                        DateStyle::Utc
                    } else {
                        DateStyle::Floating
                    }
                },
            }
        },
        None => DateStyle::Utc,
    }
}

/// The wall clock of a slot, for comparing: the slot that was asked for and an
/// override's `RECURRENCE-ID` live in the master's time zone.
#[derive(Clone, Copy, Debug, PartialEq, Eq, Structural)]
pub struct SlotKey {
    pub year: u16,
    pub month: u8,
    pub day: u8,
    pub hour: u8,
    pub minute: u8,
    pub second: u8,
}

/// The key of a date, 0 for what it leaves out.
pub open spec fn key(d: PartialDate) -> SlotKey {
    SlotKey {
        year: d.year.unwrap_or(0),
        month: d.month.unwrap_or(0),
        day: d.day.unwrap_or(0),
        hour: d.hour.unwrap_or(0),
        minute: d.minute.unwrap_or(0),
        second: d.second.unwrap_or(0),
    }
}

/// The key of a date.
fn pdt_key(d: &PartialDate) -> (r: SlotKey)
    ensures
        r == key(*d),
{
    SlotKey {
        year: d.year.unwrap_or(0),
        month: d.month.unwrap_or(0),
        day: d.day.unwrap_or(0),
        hour: d.hour.unwrap_or(0),
        minute: d.minute.unwrap_or(0),
        second: d.second.unwrap_or(0),
    }
}

/// The wall clock to store for a date-time: of an RFC 3339 timestamp the clock
/// in UTC for a series in UTC and the clock that it shows for any other; a
/// date-time without an offset as it is.
pub open spec fn clock(s: Seq<char>, style: StyleView) -> Result<Civil, ErrorView> {
    match crate::civil::rfc3339(s) {
        Some(t) => Ok(
            if style is Utc {
                t.utc
            } else {
                t.local
            },
        ),
        None => match crate::civil::date_time(s) {
            Some(c) => Ok(c),
            None => Err(ErrorView::BadDateTime(s)),
        },
    }
}

/// Reads a date-time as the wall clock to store for `style`.
pub fn parse_timed(input: &str, style: &DateStyle) -> (r: Result<Civil, Error>)
    ensures
        match r {
            Ok(c) => clock(input@, style@) == Ok::<Civil, ErrorView>(c) && c.valid(),
            Err(e) => clock(input@, style@) == Err::<Civil, ErrorView>(e@),
        },
{
    if let Some(t) = crate::civil::parse_rfc3339(input) {
        return match style {
            DateStyle::Utc => Ok(t.utc),
            _ => Ok(t.local),
        };
    }
    match crate::civil::parse_date_time(input) {
        Some(c) => Ok(c),
        None => Err(Error::BadDateTime(input.to_owned())),
    }
}

/// A wall clock as the date-time of a property.
fn naive_to_pdt(c: Civil, utc: bool) -> (r: PartialDate)
    ensures
        r == crate::ical::date_time_value(c, utc),
{
    PartialDate {
        year: Some(#[verifier::truncate] (c.year as u16)),
        month: Some(c.month),
        day: Some(c.day),
        hour: Some(c.hour),
        minute: Some(c.minute),
        second: Some(c.second),
        tz_hour: if utc { Some(0) } else { None },
        tz_minute: if utc { Some(0) } else { None },
        tz_minus: false,
    }
}

/// A day as the date of a property. The year is kept in 16 bits.
pub open spec fn date_value(c: Civil) -> PartialDate {
    PartialDate {
        year: Some(c.year as u16),
        month: Some(c.month),
        day: Some(c.day),
        hour: None,
        minute: None,
        second: None,
        tz_hour: None,
        tz_minute: None,
        tz_minus: false,
    }
}

/// A day as the date of a property.
fn date_to_pdt(c: Civil) -> (r: PartialDate)
    ensures
        r == date_value(c),
{
    PartialDate {
        year: Some(#[verifier::truncate] (c.year as u16)),
        month: Some(c.month),
        day: Some(c.day),
        hour: None,
        minute: None,
        second: None,
        tz_hour: None,
        tz_minute: None,
        tz_minus: false,
    }
}

/// The parameters that go with a date in the master's style.
pub open spec fn style_params(style: StyleView) -> Seq<ParamView> {
    match style {
        StyleView::AllDay => seq![ParamView::ValueDate],
        StyleView::Tzid(tz) => seq![ParamView::Tzid(tz)],
        _ => seq![],
    }
}

/// A date in the master's style. For an all-day series the first ten bytes of
/// the input count.
pub open spec fn slot_value(s: Seq<char>, style: StyleView) -> Result<PartialDate, ErrorView> {
    match style {
        StyleView::AllDay => match crate::civil::date(crate::text::byte_prefix(s, 10)) {
            Some(c) => Ok(date_value(c)),
            None => Err(ErrorView::BadDate(s)),
        },
        _ => match clock(s, style) {
            Ok(c) => Ok(crate::ical::date_time_value(c, style is Utc)),
            Err(e) => Err(e),
        },
    }
}

/// Builds the parameters that go with a date in the master's style.
fn params_for(style: &DateStyle) -> (r: Vec<Param>)
    ensures
        crate::model::param_list(r@) == style_params(style@),
        forall|i: int| 0 <= i < r@.len() ==> (#[trigger] r@[i]).wf(),
{
    let mut out: Vec<Param> = Vec::new();
    match style {
        DateStyle::AllDay => {
            out.push(Param::ValueDate);
        },
        DateStyle::Tzid(tz) => {
            out.push(Param::Tzid(tz.clone()));
        },
        _ => {},
    }
    assert(crate::model::param_list(out@) =~= style_params(style@));
    out
}

/// Builds a date in the master's style.
pub fn build_value(input: &str, style: &DateStyle) -> (r: Result<PartialDate, Error>)
    ensures
        match r {
            Ok(d) => slot_value(input@, style@) == Ok::<PartialDate, ErrorView>(d),
            Err(e) => slot_value(input@, style@) == Err::<PartialDate, ErrorView>(e@),
        },
{
    match style {
        DateStyle::AllDay => {
            match crate::civil::parse_date(crate::text::cut_bytes(input, 10)) {
                Some(c) => Ok(date_to_pdt(c)),
                None => Err(Error::BadDate(input.to_owned())),
            }
        },
        DateStyle::Utc => {
            match parse_timed(input, style) {
                Ok(c) => Ok(naive_to_pdt(c, true)),
                Err(e) => Err(e),
            }
        },
        _ => {
            match parse_timed(input, style) {
                Ok(c) => Ok(naive_to_pdt(c, false)),
                Err(e) => Err(e),
            }
        },
    }
}

/// The wall clock of the property `n`.
pub open spec fn clock_of(c: ComponentView, n: PropertyName) -> Option<Civil> {
    match crate::read::date(c, n) {
        Some(d) => crate::read::wall_clock(d),
        None => None,
    }
}

/// How long a component lasts, in seconds: from `DTSTART` to `DTEND` where both
/// can be read, else a day in an all-day style and nothing in any other.
pub open spec fn length(c: ComponentView, style: StyleView) -> int {
    match (clock_of(c, PropertyName::Dtstart), clock_of(c, PropertyName::Dtend)) {
        (Some(s), Some(e)) => e.seconds() - s.seconds(),
        _ => if style is AllDay {
            86400
        } else {
            0
        },
    }
}

/// How long the master lasts, in seconds, in its own style.
pub open spec fn duration(c: ComponentView) -> int {
    length(c, style_of(c))
}

/// The wall clock of the property `n`.
fn read_clock(c: &Component, n: PropertyName) -> (r: Option<Civil>)
    ensures
        r == clock_of(c@, n),
{
    match crate::read::date_prop(c, n) {
        Some(d) => crate::ical::wall_clock_of(d),
        None => None,
    }
}

/// How long the master lasts, by `style` where its dates do not tell.
pub fn master_duration(c: &Component, style: &DateStyle) -> (r: i64)
    ensures
        r == length(c@, style@),
        -30_000_000_000_000 <= r <= 30_000_000_000_000,
{
    match (read_clock(c, PropertyName::Dtstart), read_clock(c, PropertyName::Dtend)) {
        (Some(s), Some(e)) => {
            proof {
                crate::civil::lemma_seconds_bounded(s);
                crate::civil::lemma_seconds_bounded(e);
            }
            crate::civil::seconds_between(s, e)
        },
        _ => match style {
            DateStyle::AllDay => 86400,
            _ => 0,
        },
    }
}

/// How many days an all-day occurrence lasts, at least one.
pub open spec fn whole_days(seconds: int) -> int {
    if seconds < 86400 {
        1
    } else {
        seconds / 86400
    }
}

/// The end of an occurrence that starts at `s` and lasts `seconds`, as text in
/// a form that reads back: a date for an all-day series, else a date-time, in
/// UTC where the series is.
pub open spec fn end_text(s: Seq<char>, seconds: int, style: StyleView) -> Result<
    Seq<char>,
    ErrorView,
> {
    match style {
        StyleView::AllDay => match crate::civil::date(crate::text::byte_prefix(s, 10)) {
            Some(c) => Ok(
                crate::civil::date_text(crate::civil::added(c, whole_days(seconds) * 86400)->0),
            ),
            None => Err(ErrorView::BadAllDayStart(s)),
        },
        _ => match clock(s, style) {
            Ok(c) => {
                let e = crate::civil::added(c, seconds)->0;
                Ok(
                    if style is Utc {
                        crate::civil::date_time_text(e) + crate::civil::fraction_text(e)
                            + crate::civil::offset_text(0)
                    } else {
                        crate::civil::date_time_text(e)
                    },
                )
            },
            Err(e) => Err(e),
        },
    }
}

/// Does the end of an occurrence that starts at `s` lie within what `chrono`
/// can hold?
pub open spec fn end_fits(s: Seq<char>, seconds: int, style: StyleView) -> bool {
    match style {
        StyleView::AllDay => crate::civil::date(crate::text::byte_prefix(s, 10)) matches Some(c)
            ==> crate::civil::added(c, whole_days(seconds) * 86400) is Some,
        _ => clock(s, style) matches Ok(c) ==> crate::civil::added(c, seconds) is Some,
    }
}

/// The days of an all-day occurrence, in seconds.
fn day_seconds(seconds: i64) -> (r: i64)
    ensures
        r == whole_days(seconds as int) * 86400,
        0 <= r,
        r <= seconds || r == 86400,
{
    if seconds < 86400 {
        86400
    } else {
        seconds / 86400 * 86400
    }
}

/// Does the end of an occurrence lie within what `chrono` can hold?
fn end_in_range(start: &str, seconds: i64, style: &DateStyle) -> (r: bool)
    requires
        -9_000_000_000_000_000 <= seconds <= 9_000_000_000_000_000,
    ensures
        r == end_fits(start@, seconds as int, style@),
{
    if let DateStyle::AllDay = style {
        return match crate::civil::parse_date(crate::text::cut_bytes(start, 10)) {
            Some(c) => crate::civil::add_seconds(c, day_seconds(seconds)).is_some(),
            None => true,
        };
    }
    match parse_timed(start, style) {
        Ok(c) => crate::civil::add_seconds(c, seconds).is_some(),
        Err(_) => true,
    }
}

/// The end of an occurrence as the start plus `seconds`.
pub fn derive_end(start: &str, seconds: i64, style: &DateStyle) -> (r: Result<String, Error>)
    requires
        end_fits(start@, seconds as int, style@),
    ensures
        match r {
            Ok(s) => end_text(start@, seconds as int, style@) == Ok::<Seq<char>, ErrorView>(s@),
            Err(e) => end_text(start@, seconds as int, style@) == Err::<Seq<char>, ErrorView>(e@),
        },
{
    if let DateStyle::AllDay = style {
        return match crate::civil::parse_date(crate::text::cut_bytes(start, 10)) {
            Some(c) => {
                let n: i64 = day_seconds(seconds);
                proof {
                    crate::civil::lemma_step_bounded(c, n as int);
                }
                let e = crate::civil::add_seconds(c, n).unwrap();
                Ok(crate::civil::format_date(e))
            },
            None => Err(Error::BadAllDayStart(start.to_owned())),
        };
    }
    match parse_timed(start, style) {
        Ok(c) => {
            proof {
                crate::civil::lemma_step_bounded(c, seconds as int);
            }
            let e = crate::civil::add_seconds(c, seconds).unwrap();
            match style {
                DateStyle::Utc => Ok(crate::civil::format_utc(e)),
                _ => Ok(crate::civil::format_date_time(e)),
            }
        },
        Err(e) => Err(e),
    }
}

/// An entry with one date, in the master's style.
pub open spec fn date_entry(n: PropertyName, d: PartialDate, params: Seq<ParamView>) -> EntryView {
    EntryView::Known(PropertyView { name: n, params, values: seq![ValueView::Date(d)] })
}

/// An entry with one text.
pub open spec fn text_entry(n: PropertyName, s: Seq<char>) -> EntryView {
    EntryView::Known(PropertyView { name: n, params: seq![], values: seq![ValueView::Text(s)] })
}

/// The `SEQUENCE` entry.
pub open spec fn sequence_entry(i: i64) -> EntryView {
    EntryView::Known(
        PropertyView {
            name: PropertyName::Sequence,
            params: seq![],
            values: seq![ValueView::Integer(i)],
        },
    )
}

/// The `DTSTAMP` entry of an instant.
pub open spec fn stamp_entry(now: i64) -> EntryView {
    date_entry(
        PropertyName::Dtstamp,
        crate::ical::date_time_value(crate::civil::at(now as int, 0), true),
        seq![],
    )
}

/// The entries without those under the name `n`.
pub open spec fn dropped(entries: Seq<EntryView>, n: PropertyName) -> Seq<EntryView> {
    entries.filter(|e: EntryView| !crate::model::named(e, n))
}

/// The entries with `e` in place of those under the same name, at the end.
pub open spec fn set(entries: Seq<EntryView>, n: PropertyName, e: EntryView) -> Seq<EntryView> {
    dropped(entries, n).push(e)
}

/// Sets a text where there is one to set.
pub open spec fn set_some(
    entries: Seq<EntryView>,
    n: PropertyName,
    s: Option<Seq<char>>,
) -> Seq<EntryView> {
    match s {
        Some(t) => set(entries, n, text_entry(n, t)),
        None => entries,
    }
}

/// A text entry, where there is a text.
pub open spec fn some_entry(n: PropertyName, s: Option<Seq<char>>) -> Seq<EntryView> {
    match s {
        Some(t) => seq![text_entry(n, t)],
        None => seq![],
    }
}

/// Builds an entry with one date.
fn new_date_entry(n: PropertyName, d: PartialDate, params: Vec<Param>) -> (r: Entry)
    requires
        forall|i: int| 0 <= i < params@.len() ==> (#[trigger] params@[i]).wf(),
    ensures
        r@ == date_entry(n, d, crate::model::param_list(params@)),
        r.wf(),
{
    let mut values: Vec<Value> = Vec::new();
    values.push(Value::Date(d));
    assert(crate::model::value_list(values@) =~= seq![ValueView::Date(d)]);
    Entry::Known(Property { name: n, params, values })
}

/// Builds an entry with one text.
fn new_text_entry(n: PropertyName, s: &str) -> (r: Entry)
    ensures
        r@ == text_entry(n, s@),
        r.wf(),
{
    let mut values: Vec<Value> = Vec::new();
    values.push(Value::Text(s.to_owned()));
    let params: Vec<Param> = Vec::new();
    assert(crate::model::value_list(values@) =~= seq![ValueView::Text(s@)]);
    assert(crate::model::param_list(params@) =~= seq![]);
    Entry::Known(Property { name: n, params, values })
}

/// Builds a `SEQUENCE` entry.
fn new_sequence_entry(i: i64) -> (r: Entry)
    ensures
        r@ == sequence_entry(i),
        r.wf(),
{
    let mut values: Vec<Value> = Vec::new();
    values.push(Value::Integer(i));
    let params: Vec<Param> = Vec::new();
    assert(crate::model::value_list(values@) =~= seq![ValueView::Integer(i)]);
    assert(crate::model::param_list(params@) =~= seq![]);
    Entry::Known(Property { name: PropertyName::Sequence, params, values })
}

/// Builds the `DTSTAMP` entry of an instant.
fn new_stamp_entry(now: i64) -> (r: Entry)
    requires
        crate::civil::min_seconds() <= now <= crate::civil::max_seconds(),
    ensures
        r@ == stamp_entry(now),
        r.wf(),
{
    let params: Vec<Param> = Vec::new();
    assert(crate::model::param_list(params@) =~= seq![]);
    new_date_entry(PropertyName::Dtstamp, crate::ical::utc_date(now), params)
}

/// Drops the entries under the name `n`.
fn drop_entries(entries: Vec<Entry>, n: PropertyName) -> (r: Vec<Entry>)
    requires
        forall|i: int| 0 <= i < entries@.len() ==> (#[trigger] entries@[i]).wf(),
    ensures
        crate::model::entry_list(r@) == dropped(crate::model::entry_list(entries@), n),
        forall|i: int| 0 <= i < r@.len() ==> (#[trigger] r@[i]).wf(),
{
    let ghost all = entries@;
    let ghost views = crate::model::entry_list(all);
    let ghost keep = |e: EntryView| !crate::model::named(e, n);
    let mut out: Vec<Entry> = Vec::new();
    proof {
        reveal(Seq::filter);
        assert(views.take(0) =~= seq![]);
        assert(crate::model::entry_list(out@) =~= views.take(0).filter(keep));
    }
    for e in it: entries
        invariant
            it.seq() == all,
            views == crate::model::entry_list(all),
            keep == (|e: EntryView| !crate::model::named(e, n)),
            forall|i: int| 0 <= i < all.len() ==> (#[trigger] all[i]).wf(),
            forall|i: int| 0 <= i < out@.len() ==> (#[trigger] out@[i]).wf(),
            crate::model::entry_list(out@) == views.take(it.index() as int).filter(keep),
    {
        let ghost k = it.index() as int;
        let ghost before = out@;
        proof {
            reveal(Seq::filter);
            assert(views.take(k + 1).drop_last() =~= views.take(k));
            assert(views[k] == e@);
        }
        let gone = match &e {
            Entry::Known(p) => p.name == n,
            Entry::Foreign(_) => false,
        };
        if !gone {
            out.push(e);
            assert(crate::model::entry_list(out@) =~= crate::model::entry_list(before).push(e@));
        }
    }
    assert(views.take(all.len() as int) =~= views);
    out
}

/// Puts `e` in place of the entries of its name.
fn set_entry(c: &mut Component, n: PropertyName, e: Entry)
    requires
        old(c).wf(),
        e.wf(),
    ensures
        final(c).wf(),
        final(c)@ == (ComponentView { entries: set(old(c)@.entries, n, e@), ..old(c)@ }),
{
    let mut all: Vec<Entry> = Vec::new();
    std::mem::swap(&mut all, &mut c.entries);
    let mut kept = drop_entries(all, n);
    let ghost before = kept@;
    kept.push(e);
    assert(crate::model::entry_list(kept@) =~= crate::model::entry_list(before).push(e@));
    c.entries = kept;
}

/// Sets a text where there is one to set.
fn set_text(c: &mut Component, n: PropertyName, s: &Option<String>)
    requires
        old(c).wf(),
    ensures
        final(c).wf(),
        final(c)@ == (ComponentView {
            entries: set_some(old(c)@.entries, n, crate::model::text_view(*s)),
            ..old(c)@
        }),
{
    if let Some(t) = s {
        set_entry(c, n, new_text_entry(n, t.as_str()));
    }
}

/// The slot of an override.
pub open spec fn override_key(c: ComponentView) -> Option<SlotKey> {
    match crate::read::date(c, PropertyName::RecurrenceId) {
        Some(d) => Some(key(d)),
        None => None,
    }
}

/// Is this the override of a slot?
pub open spec fn overrides(c: ComponentView, k: SlotKey) -> bool {
    crate::read::is_event(c) && crate::model::is_override(c) && override_key(c) == Some(k)
}

/// Is this the override of a slot?
fn is_override_of(c: &Component, k: SlotKey) -> (r: bool)
    ensures
        r == overrides(c@, k),
{
    if c.is_event() && c.is_override() {
        match crate::read::date_prop(c, PropertyName::RecurrenceId) {
            Some(d) => pdt_key(&d) == k,
            None => false,
        }
    } else {
        false
    }
}

/// The dates of an occurrence: its original slot, and its new start and end.
#[derive(Clone, Copy, Debug)]
pub struct Times {
    pub slot: PartialDate,
    pub start: PartialDate,
    pub end: PartialDate,
}

/// The text of the new start: the one asked for, else the slot.
pub open spec fn start_text(slot: Seq<char>, fields: FieldsView) -> Seq<char> {
    match fields.start {
        Some(s) => s,
        None => slot,
    }
}

/// The dates of an occurrence of the master `c`. Where no end is asked for, it
/// follows the start by the master's duration.
pub open spec fn times(c: ComponentView, slot: Seq<char>, fields: FieldsView) -> Result<
    Times,
    ErrorView,
> {
    let end = match fields.end {
        Some(e) => Ok(e),
        None => end_text(start_text(slot, fields), duration(c), style_of(c)),
    };
    match slot_value(slot, style_of(c)) {
        Err(e) => Err(e),
        Ok(at) => match end {
            Err(e) => Err(e),
            Ok(end) => match slot_value(start_text(slot, fields), style_of(c)) {
                Err(e) => Err(e),
                Ok(from) => match slot_value(end, style_of(c)) {
                    Err(e) => Err(e),
                    Ok(to) => Ok(Times { slot: at, start: from, end: to }),
                },
            },
        },
    }
}

/// Are the dates left as they are?
pub open spec fn keeps_times(fields: FieldsView) -> bool {
    fields.start is None && fields.end is None
}

/// Does a change need an end that no one asked for? It does where the start
/// moves, and for a new override.
pub open spec fn derives_end(m: Seq<ComponentView>, k: SlotKey, fields: FieldsView) -> bool {
    fields.end is None && (fields.start is Some || override_of(m, k) is None)
}

/// Does the end of the occurrence lie within what `chrono` can hold, where it
/// has to be derived?
pub open spec fn update_fits(m: Seq<ComponentView>, slot: Seq<char>, fields: FieldsView) -> bool {
    match crate::read::master(m) {
        Some(i) => crate::read::text(m[i], PropertyName::Uid) is Some ==> (slot_value(
            slot,
            style_of(m[i]),
        ) matches Ok(d) ==> derives_end(m, key(d), fields) ==> end_fits(
            start_text(slot, fields),
            duration(m[i]),
            style_of(m[i]),
        )),
        None => true,
    }
}

/// The entries of an override with new dates, where there are any: the start
/// only where one was asked for.
pub open spec fn moved(
    entries: Seq<EntryView>,
    t: Option<Times>,
    fields: FieldsView,
    params: Seq<ParamView>,
) -> Seq<EntryView> {
    match t {
        Some(t) => {
            let a = if fields.start is Some {
                set(
                    entries,
                    PropertyName::Dtstart,
                    date_entry(PropertyName::Dtstart, t.start, params),
                )
            } else {
                entries
            };
            set(a, PropertyName::Dtend, date_entry(PropertyName::Dtend, t.end, params))
        },
        None => entries,
    }
}

/// An override that is there already, with the new dates, the new texts, and
/// a fresh `DTSTAMP`. What was not asked for stays.
pub open spec fn revised(
    c: ComponentView,
    t: Option<Times>,
    fields: FieldsView,
    params: Seq<ParamView>,
    now: i64,
) -> ComponentView {
    let b = moved(c.entries, t, fields, params);
    let d = set_some(b, PropertyName::Summary, fields.summary);
    let e = set_some(d, PropertyName::Description, fields.description);
    let f = set_some(e, PropertyName::Location, fields.location);
    ComponentView { entries: set(f, PropertyName::Dtstamp, stamp_entry(now)), ..c }
}

/// A text that is asked for, else the master's.
pub open spec fn text_or(s: Option<Seq<char>>, c: ComponentView, n: PropertyName) -> Option<
    Seq<char>,
> {
    match s {
        Some(t) => Some(t),
        None => crate::read::text(c, n),
    }
}

/// A new override of an occurrence of the master `c`: the master's UID and
/// `SEQUENCE`, the slot, the new dates, and the texts asked for or else the
/// master's.
pub open spec fn new_override(
    c: ComponentView,
    uid: Seq<char>,
    t: Times,
    fields: FieldsView,
    now: i64,
) -> ComponentView {
    let params = style_params(style_of(c));
    ComponentView {
        kind: ComponentKind::Event,
        entries: seq![
            text_entry(PropertyName::Uid, uid),
            date_entry(PropertyName::RecurrenceId, t.slot, params),
            date_entry(PropertyName::Dtstart, t.start, params),
            date_entry(PropertyName::Dtend, t.end, params),
        ] + some_entry(
            PropertyName::Summary,
            text_or(fields.summary, c, PropertyName::Summary),
        ) + some_entry(
            PropertyName::Description,
            text_or(fields.description, c, PropertyName::Description),
        ) + some_entry(
            PropertyName::Location,
            text_or(fields.location, c, PropertyName::Location),
        ) + match crate::read::integer(c, PropertyName::Sequence) {
            Some(i) => seq![sequence_entry(i)],
            None => seq![],
        } + seq![stamp_entry(now)],
        children: seq![],
    }
}

/// Where the calendar itself stands among the components.
pub open spec fn root(m: Seq<ComponentView>) -> int {
    match crate::read::position(m, |c: ComponentView| c.kind is Calendar) {
        Some(i) => i,
        None => 0,
    }
}

/// The calendar with one more component, under its root.
pub open spec fn attached(m: Seq<ComponentView>, c: ComponentView) -> Seq<ComponentView> {
    m.update(
        root(m),
        ComponentView { children: m[root(m)].children.push(m.len() as u32), ..m[root(m)] },
    ).push(c)
}

/// The first override of a slot.
pub open spec fn override_of(m: Seq<ComponentView>, k: SlotKey) -> Option<int> {
    crate::read::position(m, |c: ComponentView| overrides(c, k))
}

/// The calendar with one occurrence changed.
pub open spec fn updated(
    m: Seq<ComponentView>,
    slot: Seq<char>,
    fields: FieldsView,
    now: i64,
) -> Result<Seq<ComponentView>, ErrorView> {
    match crate::read::master(m) {
        None => Err(ErrorView::NoEvent),
        Some(i) => match crate::read::text(m[i], PropertyName::Uid) {
            None => Err(ErrorView::NoUid),
            Some(uid) => match slot_value(slot, style_of(m[i])) {
                Err(e) => Err(e),
                Ok(d) => changed(m, i, uid, override_of(m, key(d)), slot, fields, now),
            },
        },
    }
}

/// The calendar with one occurrence of the master `i` changed, where `o` is the
/// override of its slot.
pub open spec fn changed(
    m: Seq<ComponentView>,
    i: int,
    uid: Seq<char>,
    o: Option<int>,
    slot: Seq<char>,
    fields: FieldsView,
    now: i64,
) -> Result<Seq<ComponentView>, ErrorView> {
    let params = style_params(style_of(m[i]));
    if o is Some && keeps_times(fields) {
        Ok(m.update(o->0, revised(m[o->0], None, fields, params, now)))
    } else {
        match times(m[i], slot, fields) {
            Err(e) => Err(e),
            Ok(t) => Ok(
                match o {
                    Some(k) => m.update(k, revised(m[k], Some(t), fields, params, now)),
                    None => attached(m, new_override(m[i], uid, t, fields, now)),
                },
            ),
        }
    }
}

/// Where the calendar itself stands among the components.
fn root_index(components: &Vec<Component>) -> (r: usize)
    requires
        components@.len() > 0,
    ensures
        r == root(crate::model::component_list(components@)),
        r < components@.len(),
{
    let ghost m = crate::model::component_list(components@);
    let ghost is_root = |c: ComponentView| c.kind is Calendar;
    let mut i: usize = 0;
    while i < components.len()
        invariant
            0 <= i <= components@.len(),
            m == crate::model::component_list(components@),
            is_root == (|c: ComponentView| c.kind is Calendar),
            forall|j: int| 0 <= j < i ==> !is_root(#[trigger] m[j]),
        decreases components@.len() - i,
    {
        assert(m[i as int] == components@[i as int]@);
        if let ComponentKind::Calendar = components[i].kind {
            proof {
                assert(crate::read::is_first(m, is_root, i as int));
                crate::read::lemma_position(m, is_root, i as int);
            }
            return i;
        }
        i = i + 1;
    }
    0
}

/// Where the first override of a slot stands.
fn find_override(components: &Vec<Component>, k: SlotKey) -> (r: Option<usize>)
    ensures
        match r {
            Some(i) => i < components@.len() && override_of(
                crate::model::component_list(components@),
                k,
            ) == Some(i as int),
            None => override_of(crate::model::component_list(components@), k) is None,
        },
{
    let ghost m = crate::model::component_list(components@);
    let ghost hit = |c: ComponentView| overrides(c, k);
    let mut i: usize = 0;
    while i < components.len()
        invariant
            0 <= i <= components@.len(),
            m == crate::model::component_list(components@),
            hit == (|c: ComponentView| overrides(c, k)),
            forall|j: int| 0 <= j < i ==> !hit(#[trigger] m[j]),
        decreases components@.len() - i,
    {
        assert(m[i as int] == components@[i as int]@);
        if is_override_of(&components[i], k) {
            proof {
                assert(crate::read::is_first(m, hit, i as int));
                crate::read::lemma_position(m, hit, i as int);
            }
            return Some(i);
        }
        i = i + 1;
    }
    None
}

/// The text of the new start.
fn start_input<'a>(slot: &'a str, fields: &'a InstanceFields) -> (r: &'a str)
    ensures
        r@ == start_text(slot@, fields@),
{
    match &fields.start {
        Some(s) => s.as_str(),
        None => slot,
    }
}

/// The dates of an occurrence.
fn occurrence_times(c: &Component, slot: &str, fields: &InstanceFields) -> (r: Result<Times, Error>)
    requires
        slot_value(slot@, style_of(c@)) is Ok && fields@.end is None ==> end_fits(
            start_text(slot@, fields@),
            duration(c@),
            style_of(c@),
        ),
    ensures
        match r {
            Ok(t) => times(c@, slot@, fields@) == Ok::<Times, ErrorView>(t),
            Err(e) => times(c@, slot@, fields@) == Err::<Times, ErrorView>(e@),
        },
{
    let style = master_style(c);
    let at = match build_value(slot, &style) {
        Ok(d) => d,
        Err(e) => {
            return Err(e);
        },
    };
    let start = start_input(slot, fields);
    let end: String = match &fields.end {
        Some(e) => e.clone(),
        None => match derive_end(start, master_duration(c, &style), &style) {
            Ok(e) => e,
            Err(e) => {
                return Err(e);
            },
        },
    };
    let from = match build_value(start, &style) {
        Ok(d) => d,
        Err(e) => {
            return Err(e);
        },
    };
    match build_value(end.as_str(), &style) {
        Ok(to) => Ok(Times { slot: at, start: from, end: to }),
        Err(e) => Err(e),
    }
}

/// Gives an override the new dates, texts and `DTSTAMP`.
fn revise(c: &mut Component, t: Option<Times>, fields: &InstanceFields, style: &DateStyle, now: i64)
    requires
        old(c).wf(),
        crate::civil::min_seconds() <= now <= crate::civil::max_seconds(),
    ensures
        final(c).wf(),
        final(c)@ == revised(old(c)@, t, fields@, style_params(style@), now),
{
    if let Some(t) = t {
        if fields.start.is_some() {
            let start = new_date_entry(PropertyName::Dtstart, t.start, params_for(style));
            set_entry(c, PropertyName::Dtstart, start);
        }
        let end = new_date_entry(PropertyName::Dtend, t.end, params_for(style));
        set_entry(c, PropertyName::Dtend, end);
    }
    set_text(c, PropertyName::Summary, &fields.summary);
    set_text(c, PropertyName::Description, &fields.description);
    set_text(c, PropertyName::Location, &fields.location);
    set_entry(c, PropertyName::Dtstamp, new_stamp_entry(now));
}

/// Appends an entry.
fn push_entry(entries: &mut Vec<Entry>, e: Entry)
    requires
        forall|i: int| 0 <= i < old(entries)@.len() ==> (#[trigger] old(entries)@[i]).wf(),
        e.wf(),
    ensures
        forall|i: int| 0 <= i < final(entries)@.len() ==> (#[trigger] final(entries)@[i]).wf(),
        crate::model::entry_list(final(entries)@) == crate::model::entry_list(
            old(entries)@,
        ).push(e@),
{
    entries.push(e);
    assert(crate::model::entry_list(entries@) =~= crate::model::entry_list(old(entries)@).push(e@));
}

/// Appends the text that is asked for, else the master's.
fn push_text(entries: &mut Vec<Entry>, n: PropertyName, s: &Option<String>, master: &Component)
    requires
        forall|i: int| 0 <= i < old(entries)@.len() ==> (#[trigger] old(entries)@[i]).wf(),
    ensures
        forall|i: int| 0 <= i < final(entries)@.len() ==> (#[trigger] final(entries)@[i]).wf(),
        crate::model::entry_list(final(entries)@) == crate::model::entry_list(old(entries)@)
            + some_entry(n, text_or(crate::model::text_view(*s), master@, n)),
{
    let ghost before = crate::model::entry_list(entries@);
    let inherited = match s {
        Some(t) => Some(t.clone()),
        None => crate::read::text_prop(master, n),
    };
    match &inherited {
        Some(t) => {
            push_entry(entries, new_text_entry(n, t.as_str()));
            assert(before.push(text_entry(n, t@)) =~= before + seq![text_entry(n, t@)]);
        },
        None => {
            assert(before =~= before + Seq::<EntryView>::empty());
        },
    }
}

/// Builds a new override.
fn build_override(
    master: &Component,
    uid: &str,
    t: Times,
    fields: &InstanceFields,
    style: &DateStyle,
    now: i64,
) -> (r: Component)
    requires
        style@ == style_of(master@),
        crate::civil::min_seconds() <= now <= crate::civil::max_seconds(),
    ensures
        r.wf(),
        r@ == new_override(master@, uid@, t, fields@, now),
{
    let mut entries: Vec<Entry> = Vec::new();
    assert(crate::model::entry_list(entries@) =~= seq![]);
    push_entry(&mut entries, new_text_entry(PropertyName::Uid, uid));
    push_entry(&mut entries, new_date_entry(PropertyName::RecurrenceId, t.slot, params_for(style)));
    push_entry(&mut entries, new_date_entry(PropertyName::Dtstart, t.start, params_for(style)));
    push_entry(&mut entries, new_date_entry(PropertyName::Dtend, t.end, params_for(style)));
    proof {
        let params = style_params(style@);
        assert(crate::model::entry_list(entries@) =~= seq![
            text_entry(PropertyName::Uid, uid@),
            date_entry(PropertyName::RecurrenceId, t.slot, params),
            date_entry(PropertyName::Dtstart, t.start, params),
            date_entry(PropertyName::Dtend, t.end, params),
        ]);
    }
    push_text(&mut entries, PropertyName::Summary, &fields.summary, master);
    push_text(&mut entries, PropertyName::Description, &fields.description, master);
    push_text(&mut entries, PropertyName::Location, &fields.location, master);
    let ghost before = crate::model::entry_list(entries@);
    let sequence = crate::read::integer_prop(master, PropertyName::Sequence);
    if let Some(i) = sequence {
        push_entry(&mut entries, new_sequence_entry(i));
        assert(before.push(sequence_entry(i)) =~= before + seq![sequence_entry(i)]);
    } else {
        assert(before =~= before + Seq::<EntryView>::empty());
    }
    let ghost numbered = crate::model::entry_list(entries@);
    push_entry(&mut entries, new_stamp_entry(now));
    assert(numbered.push(stamp_entry(now)) =~= numbered + seq![stamp_entry(now)]);
    let r = Component { kind: ComponentKind::Event, entries, children: Vec::new() };
    assert(r@.children =~= seq![]);
    r
}

/// Adds a component under the root of the calendar.
fn attach(cal: &mut Calendar, c: Component)
    requires
        old(cal).wf(),
        old(cal)@.len() <= u32::MAX,
        c.wf(),
        c@.children.len() == 0,
    ensures
        final(cal).wf(),
        final(cal)@ == attached(old(cal)@, c@),
{
    let ghost m = cal@;
    let at: usize = root_index(&cal.components);
    let id: u32 = cal.components.len() as u32;
    cal.components[at].children.push(id);
    cal.components.push(c);
    proof {
        assert(cal@ =~= attached(m, c@));
    }
}

/// Changes one occurrence in a parsed calendar, with `now` for the fresh
/// `DTSTAMP`.
pub fn update_calendar(cal: Calendar, slot: &str, fields: &InstanceFields, now: i64) -> (r: Result<
    Calendar,
    Error,
>)
    requires
        cal.wf(),
        cal@.len() <= u32::MAX,
        crate::civil::min_seconds() <= now <= crate::civil::max_seconds(),
        update_fits(cal@, slot@, fields@),
    ensures
        match r {
            Ok(c) => updated(cal@, slot@, fields@, now) == Ok::<
                Seq<ComponentView>,
                ErrorView,
            >(c@) && c.wf(),
            Err(e) => updated(cal@, slot@, fields@, now) == Err::<
                Seq<ComponentView>,
                ErrorView,
            >(e@),
        },
{
    let ghost m = cal@;
    let mut cal = cal;
    let at: usize = match crate::read::master_index(&cal.components) {
        Some(i) => i,
        None => {
            return Err(Error::NoEvent);
        },
    };
    assert(cal.components@[at as int]@ == m[at as int]);
    let uid = match crate::read::text_prop(&cal.components[at], PropertyName::Uid) {
        Some(s) => s,
        None => {
            return Err(Error::NoUid);
        },
    };
    let style = master_style(&cal.components[at]);
    let d = match build_value(slot, &style) {
        Ok(d) => d,
        Err(e) => {
            return Err(e);
        },
    };
    let existing = find_override(&cal.components, pdt_key(&d));
    let t = if existing.is_some() && fields.start.is_none() && fields.end.is_none() {
        None
    } else {
        match occurrence_times(&cal.components[at], slot, fields) {
            Ok(t) => Some(t),
            Err(e) => {
                return Err(e);
            },
        }
    };
    match existing {
        Some(k) => {
            assert(cal.components@[k as int]@ == m[k as int]);
            revise(&mut cal.components[k], t, fields, &style, now);
            proof {
                assert(cal@ =~= m.update(
                    k as int,
                    revised(m[k as int], t, fields@, style_params(style@), now),
                ));
            }
        },
        None => {
            if let Some(t) = t {
                let c = build_override(&cal.components[at], uid.as_str(), t, fields, &style, now);
                attach(&mut cal, c);
            }
        },
    }
    Ok(cal)
}

/// The master with one slot taken out: an `EXDATE` in its own style, and a
/// fresh `DTSTAMP`.
pub open spec fn excluding(c: ComponentView, slot: PartialDate, now: i64) -> ComponentView {
    let entries = c.entries.push(
        date_entry(PropertyName::Exdate, slot, style_params(style_of(c))),
    );
    ComponentView { entries: set(entries, PropertyName::Dtstamp, stamp_entry(now)), ..c }
}

/// Where the overrides of a slot stand among the first `n` components.
pub open spec fn override_ids(m: Seq<ComponentView>, k: SlotKey, n: nat) -> Seq<u32>
    decreases n,
{
    if n == 0 {
        seq![]
    } else if overrides(m[n - 1], k) {
        override_ids(m, k, (n - 1) as nat).push((n - 1) as u32)
    } else {
        override_ids(m, k, (n - 1) as nat)
    }
}

/// The calendar with one slot taken out at the master, and the places of the
/// overrides of that slot.
pub open spec fn excluded(m: Seq<ComponentView>, slot: Seq<char>, now: i64) -> Result<
    (Seq<ComponentView>, Seq<u32>),
    ErrorView,
> {
    match crate::read::master(m) {
        None => Err(ErrorView::NoEvent),
        Some(i) => if !crate::model::is_recurrent(m[i]) {
            Err(ErrorView::NotRecurring)
        } else {
            match slot_value(slot, style_of(m[i])) {
                Err(e) => Err(e),
                Ok(d) => {
                    let marked = m.update(i, excluding(m[i], d, now));
                    Ok((marked, override_ids(marked, key(d), marked.len())))
                },
            }
        },
    }
}

/// The calendar with one occurrence deleted.
pub open spec fn deleted(m: Seq<ComponentView>, slot: Seq<char>, now: i64) -> Result<
    Seq<ComponentView>,
    ErrorView,
> {
    match excluded(m, slot, now) {
        Err(e) => Err(e),
        Ok((marked, ids)) => Ok(
            if ids.len() == 0 {
                marked
            } else {
                crate::model::without(marked, ids)
            },
        ),
    }
}

/// Does the root stay? A root that is itself the override of the slot holds
/// all the other components, and nothing would be left.
pub open spec fn delete_fits(m: Seq<ComponentView>, slot: Seq<char>) -> bool {
    match crate::read::master(m) {
        Some(i) => crate::model::is_recurrent(m[i]) ==> (slot_value(slot, style_of(m[i])) matches Ok(
            d,
        ) ==> !overrides(m[0], key(d))),
        None => true,
    }
}

/// Adds the `EXDATE` of a slot, and a fresh `DTSTAMP`.
fn exclude(c: &mut Component, slot: PartialDate, style: &DateStyle, now: i64)
    requires
        old(c).wf(),
        style@ == style_of(old(c)@),
        crate::civil::min_seconds() <= now <= crate::civil::max_seconds(),
    ensures
        final(c).wf(),
        final(c)@ == excluding(old(c)@, slot, now),
{
    let ghost before = c@.entries;
    let e = new_date_entry(PropertyName::Exdate, slot, params_for(style));
    let ghost added = e@;
    c.entries.push(e);
    assert(c@.entries =~= before.push(added));
    set_entry(c, PropertyName::Dtstamp, new_stamp_entry(now));
}

/// Where the overrides of a slot stand.
fn find_overrides(components: &Vec<Component>, k: SlotKey) -> (r: Vec<u32>)
    requires
        components@.len() <= u32::MAX,
    ensures
        r@ == override_ids(
            crate::model::component_list(components@),
            k,
            components@.len(),
        ),
{
    let ghost m = crate::model::component_list(components@);
    let mut out: Vec<u32> = Vec::new();
    let mut i: usize = 0;
    while i < components.len()
        invariant
            0 <= i <= components@.len() <= u32::MAX,
            m == crate::model::component_list(components@),
            out@ == override_ids(m, k, i as nat),
        decreases components@.len() - i,
    {
        assert(m[i as int] == components@[i as int]@);
        if is_override_of(&components[i], k) {
            out.push(i as u32);
        }
        i = i + 1;
    }
    out
}

/// Takes one slot out at the master of a parsed calendar, with `now` for the
/// fresh `DTSTAMP`, and finds the overrides of that slot.
pub fn exclude_slot(cal: Calendar, slot: &str, now: i64) -> (r: Result<
    (Calendar, Vec<u32>),
    Error,
>)
    requires
        cal.wf(),
        cal@.len() <= u32::MAX,
        crate::civil::min_seconds() <= now <= crate::civil::max_seconds(),
    ensures
        match r {
            Ok((c, ids)) => excluded(cal@, slot@, now) == Ok::<
                (Seq<ComponentView>, Seq<u32>),
                ErrorView,
            >((c@, ids@)) && c.wf(),
            Err(e) => excluded(cal@, slot@, now) == Err::<
                (Seq<ComponentView>, Seq<u32>),
                ErrorView,
            >(e@),
        },
{
    let ghost m = cal@;
    let mut cal = cal;
    let at: usize = match crate::read::master_index(&cal.components) {
        Some(i) => i,
        None => {
            return Err(Error::NoEvent);
        },
    };
    assert(cal.components@[at as int]@ == m[at as int]);
    let style = master_style(&cal.components[at]);
    if !cal.components[at].is_recurrent() {
        return Err(Error::NotRecurring);
    }
    let d = match build_value(slot, &style) {
        Ok(d) => d,
        Err(e) => {
            return Err(e);
        },
    };
    exclude(&mut cal.components[at], d, &style, now);
    proof {
        assert(cal@ =~= m.update(at as int, excluding(m[at as int], d, now)));
    }
    let ids = find_overrides(&cal.components, pdt_key(&d));
    Ok((cal, ids))
}

/// Dropping the entries of one name hides them and no others.
pub proof fn lemma_dropped(entries: Seq<EntryView>, n: PropertyName, p: PropertyName)
    ensures
        crate::read::property(dropped(entries, n), p) == if p == n {
            None
        } else {
            crate::read::property(entries, p)
        },
    decreases entries.len(),
{
    reveal(Seq::filter);
    if entries.len() > 0 {
        let front = entries.drop_last();
        lemma_dropped(front, n, p);
        if !crate::model::named(entries.last(), n) {
            assert(dropped(entries, n).drop_last() =~= dropped(front, n));
        }
    }
}

/// What a lookup finds behind one more entry.
pub proof fn lemma_pushed(entries: Seq<EntryView>, e: EntryView, p: PropertyName)
    ensures
        crate::read::property(entries, p) is Some || !crate::model::named(e, p)
            ==> crate::read::property(entries.push(e), p) == crate::read::property(entries, p),
        crate::read::property(entries, p) is None && crate::model::named(e, p)
            ==> crate::read::property(entries.push(e), p) == Some(e->Known_0),
{
    assert(entries.push(e).drop_last() =~= entries);
}

/// What a lookup finds after a property was set: the new entry under its name,
/// and what was there before under any other.
pub proof fn lemma_set(entries: Seq<EntryView>, n: PropertyName, e: EntryView, p: PropertyName)
    requires
        crate::model::named(e, n),
    ensures
        crate::read::property(set(entries, n, e), p) == if p == n {
            Some(e->Known_0)
        } else {
            crate::read::property(entries, p)
        },
{
    lemma_dropped(entries, n, p);
    lemma_pushed(dropped(entries, n), e, p);
}

/// A component has an entry of a name where a lookup finds one.
pub proof fn lemma_has(c: ComponentView, n: PropertyName)
    ensures
        crate::model::has(c, n) <==> crate::read::property(c.entries, n) is Some,
    decreases c.entries.len(),
{
    if c.entries.len() > 0 {
        let front = ComponentView { entries: c.entries.drop_last(), ..c };
        lemma_has(front, n);
        if crate::model::has(front, n) {
            let i = choose|i: int|
                0 <= i < front.entries.len() && crate::model::named(#[trigger] front.entries[i], n);
            assert(crate::model::named(c.entries[i], n));
        }
        if crate::model::has(c, n) {
            let i = choose|i: int|
                0 <= i < c.entries.len() && crate::model::named(#[trigger] c.entries[i], n);
            if i < front.entries.len() {
                assert(crate::model::named(front.entries[i], n));
            }
        } else if crate::model::named(c.entries.last(), n) {
            assert(crate::model::named(c.entries[c.entries.len() - 1], n));
        }
    }
}

/// Taking a slot out at the master leaves every property but `DTSTAMP` and
/// `EXDATE` as it was.
pub proof fn lemma_excluding(c: ComponentView, slot: PartialDate, now: i64, p: PropertyName)
    requires
        p != PropertyName::Dtstamp,
        p != PropertyName::Exdate,
    ensures
        crate::read::property(excluding(c, slot, now).entries, p) == crate::read::property(
            c.entries,
            p,
        ),
{
    let e = date_entry(PropertyName::Exdate, slot, style_params(style_of(c)));
    lemma_pushed(c.entries, e, p);
    lemma_set(c.entries.push(e), PropertyName::Dtstamp, stamp_entry(now), p);
}

/// Whether a component overrides a slot rests on its `RECURRENCE-ID` alone.
pub proof fn lemma_same_override(a: ComponentView, b: ComponentView, k: SlotKey)
    requires
        a.kind == b.kind,
        crate::read::property(a.entries, PropertyName::RecurrenceId) == crate::read::property(
            b.entries,
            PropertyName::RecurrenceId,
        ),
    ensures
        overrides(a, k) == overrides(b, k),
{
    lemma_has(a, PropertyName::RecurrenceId);
    lemma_has(b, PropertyName::RecurrenceId);
}

/// The places of the overrides of a slot.
pub proof fn lemma_override_ids(m: Seq<ComponentView>, k: SlotKey, n: nat, i: u32)
    requires
        n <= m.len() <= u32::MAX,
    ensures
        override_ids(m, k, n).contains(i) <==> i < n && overrides(m[i as int], k),
    decreases n,
{
    if n > 0 {
        let front = override_ids(m, k, (n - 1) as nat);
        lemma_override_ids(m, k, (n - 1) as nat, i);
        if overrides(m[n - 1], k) {
            let all = front.push((n - 1) as u32);
            assert(all[front.len() as int] == (n - 1) as u32);
            if front.contains(i) {
                let j = choose|j: int| 0 <= j < front.len() && front[j] == i;
                assert(all[j] == i);
            }
            if all.contains(i) {
                let j = choose|j: int| 0 <= j < all.len() && all[j] == i;
                if j < front.len() {
                    assert(front[j] == i);
                }
            }
        }
    }
}

/// Where the root is not an override of the slot, a tree is left.
proof fn lemma_deleted_is_tree(m: Seq<ComponentView>, slot: Seq<char>, now: i64)
    requires
        crate::ical::readable(m),
        delete_fits(m, slot),
        excluded(m, slot, now) is Ok,
    ensures
        crate::model::is_tree(deleted(m, slot, now)->Ok_0),
{
    let i = crate::read::master(m)->0;
    let d = slot_value(slot, style_of(m[i]))->Ok_0;
    let (marked, ids) = excluded(m, slot, now)->Ok_0;
    lemma_excluding(m[i], d, now, PropertyName::RecurrenceId);
    lemma_same_override(m[0], marked[0], key(d));
    lemma_override_ids(marked, key(d), marked.len(), 0);
    assert(crate::model::is_tree(marked)) by {
        assert forall|x: int, j: int|
            0 <= x < marked.len() && 0 <= j < marked[x].children.len() implies x
            < #[trigger] marked[x].children[j] < marked.len() by {
            assert(marked[x].children == m[x].children);
            assert(x < m[x].children[j]);
        }
    }
    if ids.len() > 0 {
        assert(!crate::model::removed(marked, ids, 0));
        crate::model::lemma_kept(marked, ids, marked.len(), 0);
        crate::model::lemma_without_is_tree(marked, ids);
    }
}

/// What changing one occurrence of the first calendar in a text gives, with
/// `now` for the fresh `DTSTAMP`.
pub open spec fn update_text(
    ics: Seq<char>,
    slot: Seq<char>,
    fields: FieldsView,
    now: i64,
) -> Result<Seq<char>, ErrorView> {
    match crate::ical::first_calendar(ics) {
        None => Err(ErrorView::NoCalendar),
        Some(m) => match updated(m, slot, fields, now) {
            Ok(n) => Ok(crate::ical::ics_text(n)),
            Err(e) => Err(e),
        },
    }
}

/// What deleting one occurrence of the first calendar in a text gives, with
/// `now` for the fresh `DTSTAMP`.
pub open spec fn delete_text(ics: Seq<char>, slot: Seq<char>, now: i64) -> Result<
    Seq<char>,
    ErrorView,
> {
    match crate::ical::first_calendar(ics) {
        None => Err(ErrorView::NoCalendar),
        Some(m) => match deleted(m, slot, now) {
            Ok(n) => Ok(crate::ical::ics_text(n)),
            Err(e) => Err(e),
        },
    }
}

/// Changes one occurrence. `slot` is its original start, or the
/// `RECURRENCE-ID` of an override. Gives the text to store in place of `ics`.
pub fn apply_instance_update(ics: &str, slot: &str, fields: &InstanceFields) -> (r: Result<
    String,
    Error,
>)
    requires
        crate::ical::first_calendar(ics@) matches Some(m) ==> update_fits(m, slot@, fields@),
    ensures
        exists|now: i64|
            crate::civil::min_seconds() <= now <= crate::civil::max_seconds()
                && crate::error::text_result(r) == #[trigger] update_text(
                ics@,
                slot@,
                fields@,
                now,
            ),
{
    let now: i64 = crate::civil::now();
    let parsed = match crate::ical::parse_one(ics) {
        Ok(c) => crate::ical::import_calendar(c),
        Err(e) => {
            let r: Result<String, Error> = Err(e);
            assert(crate::error::text_result(r) == update_text(ics@, slot@, fields@, now));
            return r;
        },
    };
    let r = match update_calendar(parsed, slot, fields, now) {
        Ok(c) => Ok(crate::ical::write_calendar(&crate::ical::export_calendar(c))),
        Err(e) => Err(e),
    };
    assert(crate::error::text_result(r) == update_text(ics@, slot@, fields@, now));
    r
}

/// Deletes one occurrence: excludes the slot at the master and drops any
/// override for it. Gives the text to store in place of `ics`.
pub fn apply_instance_delete(ics: &str, slot: &str) -> (r: Result<String, Error>)
    requires
        crate::ical::first_calendar(ics@) matches Some(m) ==> delete_fits(m, slot@),
    ensures
        exists|now: i64|
            crate::civil::min_seconds() <= now <= crate::civil::max_seconds()
                && crate::error::text_result(r) == #[trigger] delete_text(ics@, slot@, now),
{
    let now: i64 = crate::civil::now();
    let parsed = match crate::ical::parse_one(ics) {
        Ok(c) => crate::ical::import_calendar(c),
        Err(e) => {
            let r: Result<String, Error> = Err(e);
            assert(crate::error::text_result(r) == delete_text(ics@, slot@, now));
            return r;
        },
    };
    let ghost m = parsed@;
    let r = match exclude_slot(parsed, slot, now) {
        Ok((c, ids)) => {
            proof {
                lemma_deleted_is_tree(m, slot@, now);
            }
            let mut out = crate::ical::export_calendar(c);
            if ids.len() > 0 {
                crate::ical::remove_components(&mut out, &ids);
            }
            Ok(crate::ical::write_calendar(&out))
        },
        Err(e) => Err(e),
    };
    assert(crate::error::text_result(r) == delete_text(ics@, slot@, now));
    r
}

/// Changes one occurrence where its end lies within what `chrono` can hold,
/// else gives nothing.
pub fn try_instance_update(ics: &str, slot: &str, fields: &InstanceFields) -> (r: Option<
    Result<String, Error>,
>)
    ensures
        r is Some <==> (crate::ical::first_calendar(ics@) matches Some(m) ==> update_fits(
            m,
            slot@,
            fields@,
        )),
        r matches Some(x) ==> exists|now: i64|
            crate::civil::min_seconds() <= now <= crate::civil::max_seconds()
                && crate::error::text_result(x) == #[trigger] update_text(
                ics@,
                slot@,
                fields@,
                now,
            ),
{
    if let Ok(c) = crate::ical::parse_one(ics) {
        let cal = crate::ical::import_calendar(c);
        if let Some(at) = crate::read::master_index(&cal.components) {
            let master = &cal.components[at];
            assert(master@ == cal@[at as int]);
            let style = master_style(master);
            if fields.end.is_none() && crate::read::text_prop(master, PropertyName::Uid).is_some() {
                if let Ok(d) = build_value(slot, &style) {
                    let fresh = find_override(&cal.components, pdt_key(&d)).is_none();
                    if (fields.start.is_some() || fresh) && !end_in_range(
                        start_input(slot, fields),
                        master_duration(master, &style),
                        &style,
                    ) {
                        return None;
                    }
                }
            }
        }
    }
    Some(apply_instance_update(ics, slot, fields))
}

/// Deletes one occurrence where the root of the calendar stays, else gives
/// nothing.
pub fn try_instance_delete(ics: &str, slot: &str) -> (r: Option<Result<String, Error>>)
    ensures
        r is Some <==> (crate::ical::first_calendar(ics@) matches Some(m) ==> delete_fits(
            m,
            slot@,
        )),
        r matches Some(x) ==> exists|now: i64|
            crate::civil::min_seconds() <= now <= crate::civil::max_seconds()
                && crate::error::text_result(x) == #[trigger] delete_text(ics@, slot@, now),
{
    if let Ok(c) = crate::ical::parse_one(ics) {
        let cal = crate::ical::import_calendar(c);
        if let Some(at) = crate::read::master_index(&cal.components) {
            let master = &cal.components[at];
            assert(master@ == cal@[at as int]);
            if master.is_recurrent() {
                if let Ok(d) = build_value(slot, &master_style(master)) {
                    assert(cal.components@[0]@ == cal@[0]);
                    if is_override_of(&cal.components[0], pdt_key(&d)) {
                        return None;
                    }
                }
            }
        }
    }
    Some(apply_instance_delete(ics, slot))
}

} // verus!
