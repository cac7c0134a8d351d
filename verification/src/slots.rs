//! What holds of changing and of deleting one occurrence, in terms of the
//! calendar before and after.

use vstd::prelude::*;

use crate::civil::Civil;
use crate::error::ErrorView;
use crate::model::{
    ComponentView, EntryView, ParamView, PartialDate, PropertyName, PropertyView, ValueView,
};
use crate::write::{FieldsView, StyleView, Times};

verus! {

/// Do two dates show the same wall clock? What a date leaves out counts as 0.
pub open spec fn same_clock(a: PartialDate, b: PartialDate) -> bool {
    &&& a.year.unwrap_or(0) == b.year.unwrap_or(0)
    &&& a.month.unwrap_or(0) == b.month.unwrap_or(0)
    &&& a.day.unwrap_or(0) == b.day.unwrap_or(0)
    &&& a.hour.unwrap_or(0) == b.hour.unwrap_or(0)
    &&& a.minute.unwrap_or(0) == b.minute.unwrap_or(0)
    &&& a.second.unwrap_or(0) == b.second.unwrap_or(0)
}

/// Is this an event whose `RECURRENCE-ID` shows the wall clock of a slot?
pub open spec fn shows_slot(c: ComponentView, d: PartialDate) -> bool {
    &&& c.kind is Event
    &&& match crate::read::date(c, PropertyName::RecurrenceId) {
        Some(r) => same_clock(r, d),
        None => false,
    }
}

/// Keys tell slots apart: two dates have one key where they show the same wall
/// clock and nowhere else, so of two that give all six parts each has to be
/// equal.
pub proof fn keys_tell_slots_apart(a: PartialDate, b: PartialDate)
    ensures
        crate::write::key(a) == crate::write::key(b) <==> same_clock(a, b),
        a.year is Some && a.month is Some && a.day is Some && a.hour is Some && a.minute is Some
            && a.second is Some && b.year is Some && b.month is Some && b.day is Some
            && b.hour is Some && b.minute is Some && b.second is Some ==> (crate::write::key(a)
            == crate::write::key(b) <==> a.year == b.year && a.month == b.month && a.day == b.day
            && a.hour == b.hour && a.minute == b.minute && a.second == b.second),
{
}

/// An override belongs to a slot by the wall clock of its `RECURRENCE-ID`.
pub proof fn overrides_belong_to_their_clock(c: ComponentView, d: PartialDate)
    ensures
        crate::write::overrides(c, crate::write::key(d)) <==> shows_slot(c, d),
{
    crate::write::lemma_has(c, PropertyName::RecurrenceId);
    if let Some(r) = crate::read::date(c, PropertyName::RecurrenceId) {
        keys_tell_slots_apart(r, d);
    }
}

/// Does a date hold this wall clock, in UTC or without an offset?
pub open spec fn holds_clock(d: PartialDate, c: Civil, utc: bool) -> bool {
    &&& d.year == Some(c.year as u16)
    &&& d.month == Some(c.month)
    &&& d.day == Some(c.day)
    &&& d.hour == Some(c.hour)
    &&& d.minute == Some(c.minute)
    &&& d.second == Some(c.second)
    &&& utc ==> d.tz_hour == Some(0u8) && d.tz_minute == Some(0u8) && !d.tz_minus
    &&& !utc ==> d.tz_hour is None && d.tz_minute is None && !d.tz_minus
}

/// Does a date hold this day, and no time?
pub open spec fn holds_day(d: PartialDate, c: Civil) -> bool {
    &&& d.year == Some(c.year as u16)
    &&& d.month == Some(c.month)
    &&& d.day == Some(c.day)
    &&& d.hour is None && d.minute is None && d.second is None
    &&& d.tz_hour is None && d.tz_minute is None && !d.tz_minus
}

/// A slot is the wall clock that its text gives: of a timestamp with an offset
/// the clock in UTC for a series in UTC and the clock that it shows for any
/// other, of a date-time without one that clock, and of an all-day series the
/// day. What cannot be read so is refused, with the text that was given.
pub proof fn slots_are_the_clock_that_was_given(s: Seq<char>, style: StyleView)
    ensures
        style !is AllDay ==> match (crate::civil::rfc3339(s), crate::civil::date_time(s)) {
            (Some(t), _) => crate::write::slot_value(s, style) is Ok && holds_clock(
                crate::write::slot_value(s, style)->Ok_0,
                if style is Utc {
                    t.utc
                } else {
                    t.local
                },
                style is Utc,
            ),
            (None, Some(c)) => crate::write::slot_value(s, style) is Ok && holds_clock(
                crate::write::slot_value(s, style)->Ok_0,
                c,
                style is Utc,
            ),
            (None, None) => crate::write::slot_value(s, style) == Err::<PartialDate, ErrorView>(
                ErrorView::BadDateTime(s),
            ),
        },
        style is AllDay ==> match crate::civil::date(crate::text::byte_prefix(s, 10)) {
            Some(c) => crate::write::slot_value(s, style) is Ok && holds_day(
                crate::write::slot_value(s, style)->Ok_0,
                c,
            ),
            None => crate::write::slot_value(s, style) == Err::<PartialDate, ErrorView>(
                ErrorView::BadDate(s),
            ),
        },
{
}

/// The wall clock that stands for a text is that of a timestamp, in UTC for a
/// series in UTC and as it shows for any other, or that of a date-time.
pub proof fn clocks_are_what_was_given(s: Seq<char>, style: StyleView)
    ensures
        crate::civil::rfc3339(s) matches Some(t) ==> (style is Utc ==> crate::write::clock(s, style)
            == Ok::<Civil, ErrorView>(t.utc)) && (style !is Utc ==> crate::write::clock(s, style)
            == Ok::<Civil, ErrorView>(t.local)),
        crate::civil::rfc3339(s) is None ==> (crate::civil::date_time(s) matches Some(c)
            ==> crate::write::clock(s, style) == Ok::<Civil, ErrorView>(c)),
        crate::civil::rfc3339(s) is None && crate::civil::date_time(s) is None
            ==> crate::write::clock(s, style) == Err::<Civil, ErrorView>(ErrorView::BadDateTime(s)),
{
}

/// The style of a series is that of its `DTSTART`: all-day without a time, else
/// in the time zone that the entry names, else in UTC with an offset, else
/// floating. UTC stands in where there is none.
pub proof fn style_is_that_of_the_start(c: ComponentView)
    ensures
        ({
            let d = crate::read::date(c, PropertyName::Dtstart);
            let zone = crate::read::tzid(
                crate::read::property(c.entries, PropertyName::Dtstart)->0.params,
            );
            let style = crate::write::style_of(c);
            let timed = d is Some && d->0.hour is Some && d->0.minute is Some;
            &&& style is AllDay <==> d is Some && !timed
            &&& style is Tzid <==> timed && zone is Some
            &&& style matches StyleView::Tzid(z) ==> zone == Some(z)
            &&& style is Utc <==> d is None || timed && zone is None && d->0.tz_hour is Some
            &&& style is Floating <==> timed && zone is None && d->0.tz_hour is None
        }),
{
}

/// Are these the parameters of a date in a style: `VALUE=DATE` for a day, the
/// time zone where there is one, and nothing else?
pub open spec fn are_style_params(params: Seq<ParamView>, style: StyleView) -> bool {
    &&& style is AllDay ==> params.len() == 1 && params[0] is ValueDate
    &&& style matches StyleView::Tzid(z) ==> params.len() == 1 && params[0] == ParamView::Tzid(z)
    &&& style is Utc || style is Floating ==> params.len() == 0
}

/// Dates are written with the parameters of their style.
pub proof fn styles_have_their_params(style: StyleView)
    ensures
        are_style_params(crate::write::style_params(style), style),
{
}

/// The length of a component is the time from its `DTSTART` to its `DTEND` where
/// both exist, else a day in an all-day style, and nothing in any other.
pub proof fn length_is_from_start_to_end(c: ComponentView, style: StyleView)
    ensures
        ({
            let a = crate::read::date(c, PropertyName::Dtstart);
            let b = crate::read::date(c, PropertyName::Dtend);
            let from = crate::read::wall_clock(a->0);
            let to = crate::read::wall_clock(b->0);
            let told = a is Some && b is Some && from is Some && to is Some;
            &&& told ==> crate::write::length(c, style) == to->0.seconds() - from->0.seconds()
            &&& !told && style is AllDay ==> crate::write::length(c, style) == 86400
            &&& !told && style !is AllDay ==> crate::write::length(c, style) == 0
            &&& crate::write::duration(c) == crate::write::length(c, crate::write::style_of(c))
        }),
{
}

/// An all-day occurrence lasts for the whole days of its length, at least one.
pub proof fn days_are_whole(seconds: int)
    ensures
        ({
            let n = crate::write::whole_days(seconds);
            &&& n >= 1
            &&& seconds >= 86400 ==> n * 86400 <= seconds < n * 86400 + 86400
            &&& seconds < 86400 ==> n == 1
        }),
{
}

/// The end that is derived for a start is the start and the length, as text: a
/// date for an all-day series, in UTC with its offset, else without.
pub proof fn derived_ends_are_start_and_length(s: Seq<char>, seconds: int, style: StyleView)
    ensures
        ({
            let r = crate::write::end_text(s, seconds, style);
            let day = crate::civil::date(crate::text::byte_prefix(s, 10));
            let c = crate::write::clock(s, style);
            let n = crate::write::whole_days(seconds);
            &&& style is AllDay && day is None ==> r == Err::<Seq<char>, ErrorView>(
                ErrorView::BadAllDayStart(s),
            )
            &&& style is AllDay && day is Some ==> r == Ok::<Seq<char>, ErrorView>(
                crate::civil::date_text(crate::civil::added(day->0, n * 86400)->0),
            )
            &&& style !is AllDay && c is Err ==> r == Err::<Seq<char>, ErrorView>(
                ErrorView::BadDateTime(s),
            )
            &&& style is Utc && c is Ok ==> {
                let e = crate::civil::added(c->Ok_0, seconds)->0;
                r == Ok::<Seq<char>, ErrorView>(
                    crate::civil::date_time_text(e) + crate::civil::fraction_text(e)
                        + crate::civil::offset_text(0),
                )
            }
            &&& (style is Tzid || style is Floating) && c is Ok ==> r == Ok::<
                Seq<char>,
                ErrorView,
            >(crate::civil::date_time_text(crate::civil::added(c->Ok_0, seconds)->0))
        }),
{
}

/// Is this an entry with this date alone, written in this style?
pub open spec fn is_date_entry(
    e: Option<PropertyView>,
    n: PropertyName,
    d: PartialDate,
    style: StyleView,
) -> bool {
    &&& e is Some
    &&& e->0.name == n
    &&& e->0.values.len() == 1 && e->0.values[0] == ValueView::Date(d)
    &&& are_style_params(e->0.params, style)
}

/// Is this the `DTSTAMP` of an instant, in UTC and without parameters?
pub open spec fn is_stamp(e: Option<PropertyView>, now: i64) -> bool {
    &&& e is Some
    &&& e->0.name is Dtstamp
    &&& e->0.params.len() == 0
    &&& e->0.values.len() == 1
    &&& e->0.values[0] is Date
    &&& holds_clock(e->0.values[0]->Date_0, crate::civil::at(now as int, 0), true)
}

/// The text of the start of a changed occurrence: the one that was asked for,
/// else the slot.
pub open spec fn start_asked_for(slot: Seq<char>, fields: FieldsView) -> Seq<char> {
    if fields.start is Some {
        fields.start->0
    } else {
        slot
    }
}

/// The text of its end: the one that was asked for, else the start and the length
/// of the master.
pub open spec fn end_asked_for(c: ComponentView, slot: Seq<char>, fields: FieldsView) -> Seq<char> {
    if fields.end is Some {
        fields.end->0
    } else {
        crate::write::end_text(
            start_asked_for(slot, fields),
            crate::write::length(c, crate::write::style_of(c)),
            crate::write::style_of(c),
        )->Ok_0
    }
}

/// The dates of a changed occurrence are its slot, the start and the end that
/// were asked for, or follow from the slot and the length of the master.
proof fn lemma_times(c: ComponentView, slot: Seq<char>, fields: FieldsView)
    ensures
        crate::write::times(c, slot, fields) matches Ok(t) ==> {
            let style = crate::write::style_of(c);
            let from = start_asked_for(slot, fields);
            let to = end_asked_for(c, slot, fields);
            &&& crate::write::slot_value(slot, style) == Ok::<PartialDate, ErrorView>(t.slot)
            &&& crate::write::slot_value(from, style) == Ok::<PartialDate, ErrorView>(t.start)
            &&& crate::write::slot_value(to, style) == Ok::<PartialDate, ErrorView>(t.end)
            &&& fields.end is None ==> crate::write::end_text(
                from,
                crate::write::length(c, style),
                style,
            ) is Ok
        },
{
}

/// A change of one occurrence is refused without an event, without a UID, where
/// its slot cannot be read, or, unless an override keeps its dates, where its end
/// cannot be derived, its start or its end cannot be read, in this order; and
/// nowhere else.
pub proof fn changes_are_refused_where_they_cannot_be_made(
    m: Seq<ComponentView>,
    slot: Seq<char>,
    fields: FieldsView,
    now: i64,
)
    ensures
        ({
            let r = crate::write::updated(m, slot, fields, now);
            let c = m[crate::read::master(m)->0];
            let style = crate::write::style_of(c);
            let at = crate::write::slot_value(slot, style);
            let from = start_asked_for(slot, fields);
            let derived = crate::write::end_text(from, crate::write::length(c, style), style);
            let to = end_asked_for(c, slot, fields);
            let keeps = fields.start is None && fields.end is None && exists|j: int|
                0 <= j < m.len() && #[trigger] shows_slot(m[j], at->Ok_0);
            if crate::read::master(m) is None {
                r == Err::<Seq<ComponentView>, ErrorView>(ErrorView::NoEvent)
            } else if crate::read::text(c, PropertyName::Uid) is None {
                r == Err::<Seq<ComponentView>, ErrorView>(ErrorView::NoUid)
            } else if at is Err {
                r == Err::<Seq<ComponentView>, ErrorView>(at->Err_0)
            } else if keeps {
                r is Ok
            } else if fields.end is None && derived is Err {
                r == Err::<Seq<ComponentView>, ErrorView>(derived->Err_0)
            } else if crate::write::slot_value(from, style) is Err {
                r == Err::<Seq<ComponentView>, ErrorView>(
                    crate::write::slot_value(from, style)->Err_0,
                )
            } else if crate::write::slot_value(to, style) is Err {
                r == Err::<Seq<ComponentView>, ErrorView>(
                    crate::write::slot_value(to, style)->Err_0,
                )
            } else {
                r is Ok
            }
        }),
{
    if crate::read::master(m) is Some {
        let c = m[crate::read::master(m)->0];
        let at = crate::write::slot_value(slot, crate::write::style_of(c));
        if at is Ok {
            slots_with_an_override_are_shown(m, at->Ok_0);
        }
    }
}

/// There is an override of a slot where a component shows it, and it is the first
/// that does.
pub proof fn slots_with_an_override_are_shown(m: Seq<ComponentView>, d: PartialDate)
    ensures
        crate::write::override_of(m, crate::write::key(d)) is Some <==> exists|j: int|
            0 <= j < m.len() && #[trigger] shows_slot(m[j], d),
        crate::write::override_of(m, crate::write::key(d)) matches Some(o) ==> 0 <= o < m.len()
            && shows_slot(m[o], d) && forall|j: int|
            0 <= j < o ==> !#[trigger] shows_slot(m[j], d),
{
    let k = crate::write::key(d);
    let hit = |c: ComponentView| crate::write::overrides(c, k);
    assert forall|j: int| 0 <= j < m.len() implies hit(m[j]) == #[trigger] shows_slot(m[j], d) by {
        overrides_belong_to_their_clock(m[j], d);
    }
    if crate::write::override_of(m, k) is Some {
        let o = crate::write::override_of(m, k)->0;
        assert(crate::read::is_first(m, hit, o));
        assert(shows_slot(m[o], d));
        assert forall|j: int| 0 <= j < o implies !#[trigger] shows_slot(m[j], d) by {
            assert(!hit(m[j]));
        }
    }
    if exists|j: int| 0 <= j < m.len() && #[trigger] shows_slot(m[j], d) {
        let j = choose|j: int| 0 <= j < m.len() && #[trigger] shows_slot(m[j], d);
        crate::read::lemma_first_exists(m, hit, j);
    }
}

/// The first component that shows a slot, where one does.
pub proof fn first_shown(m: Seq<ComponentView>, d: PartialDate) -> (o: int)
    requires
        exists|j: int| 0 <= j < m.len() && #[trigger] shows_slot(m[j], d),
    ensures
        0 <= o < m.len(),
        shows_slot(m[o], d),
        forall|j: int| 0 <= j < o ==> !#[trigger] shows_slot(m[j], d),
{
    slots_with_an_override_are_shown(m, d);
    crate::write::override_of(m, crate::write::key(d))->0
}

/// Where the calendar itself stands.
pub proof fn root_of(m: Seq<ComponentView>) -> (r: int)
    requires
        m.len() > 0,
    ensures
        is_root(m, r),
{
    let is_calendar = |c: ComponentView| c.kind is Calendar;
    if exists|j: int| 0 <= j < m.len() && #[trigger] m[j].kind is Calendar {
        let j = choose|j: int| 0 <= j < m.len() && #[trigger] m[j].kind is Calendar;
        crate::read::lemma_first_exists(m, is_calendar, j);
        let k = crate::read::position(m, is_calendar)->0;
        assert(crate::read::is_first(m, is_calendar, k));
        assert forall|x: int| 0 <= x < k implies !(#[trigger] m[x].kind is Calendar) by {
            assert(!is_calendar(m[x]));
        }
        k
    } else {
        0
    }
}

/// How many of three texts are there.
pub open spec fn texts_there(
    a: Option<Seq<char>>,
    b: Option<Seq<char>>,
    c: Option<Seq<char>>,
) -> int {
    (if a is Some {
        1int
    } else {
        0
    }) + (if b is Some {
        1int
    } else {
        0
    }) + (if c is Some {
        1int
    } else {
        0
    })
}

/// Changing an occurrence without an override adds one event, behind all others
/// and under the root: with the UID and the `SEQUENCE` of the master, the slot,
/// the dates that were asked for or follow, for each text the one that was asked
/// for or else the master's, a fresh stamp, and nothing more. Nothing else
/// changes.
pub proof fn change_of_a_generated_occurrence(
    m: Seq<ComponentView>,
    slot: Seq<char>,
    fields: FieldsView,
    now: i64,
    d: PartialDate,
)
    requires
        crate::write::updated(m, slot, fields, now) is Ok,
        crate::write::slot_value(
            slot,
            crate::write::style_of(m[crate::read::master(m)->0]),
        ) == Ok::<PartialDate, ErrorView>(d),
        forall|j: int| 0 <= j < m.len() ==> !#[trigger] shows_slot(m[j], d),
    ensures
        ({
            let n = crate::write::updated(m, slot, fields, now)->Ok_0;
            let c = m[crate::read::master(m)->0];
            let style = crate::write::style_of(c);
            let o = n[m.len() as int];
            let from = crate::write::slot_value(start_asked_for(slot, fields), style);
            let to = crate::write::slot_value(end_asked_for(c, slot, fields), style);
            &&& n.len() == m.len() + 1
            &&& o.kind is Event && o.children.len() == 0
            &&& crate::read::text(o, PropertyName::Uid) == crate::read::text(c, PropertyName::Uid)
            &&& is_date_entry(
                crate::read::property(o.entries, PropertyName::RecurrenceId),
                PropertyName::RecurrenceId,
                d,
                style,
            )
            &&& from is Ok && is_date_entry(
                crate::read::property(o.entries, PropertyName::Dtstart),
                PropertyName::Dtstart,
                from->Ok_0,
                style,
            )
            &&& to is Ok && is_date_entry(
                crate::read::property(o.entries, PropertyName::Dtend),
                PropertyName::Dtend,
                to->Ok_0,
                style,
            )
            &&& fields.summary is Some ==> crate::read::text(o, PropertyName::Summary)
                == fields.summary
            &&& fields.summary is None ==> crate::read::text(o, PropertyName::Summary)
                == crate::read::text(c, PropertyName::Summary)
            &&& fields.description is Some ==> crate::read::text(o, PropertyName::Description)
                == fields.description
            &&& fields.description is None ==> crate::read::text(o, PropertyName::Description)
                == crate::read::text(c, PropertyName::Description)
            &&& fields.location is Some ==> crate::read::text(o, PropertyName::Location)
                == fields.location
            &&& fields.location is None ==> crate::read::text(o, PropertyName::Location)
                == crate::read::text(c, PropertyName::Location)
            &&& crate::read::integer(o, PropertyName::Sequence) == crate::read::integer(
                c,
                PropertyName::Sequence,
            )
            &&& is_stamp(crate::read::property(o.entries, PropertyName::Dtstamp), now)
            &&& o.entries.len() == 5 + texts_there(
                crate::read::text(o, PropertyName::Summary),
                crate::read::text(o, PropertyName::Description),
                crate::read::text(o, PropertyName::Location),
            ) + (if crate::read::integer(c, PropertyName::Sequence) is Some {
                1int
            } else {
                0
            })
        }),
{
    let n = crate::write::updated(m, slot, fields, now)->Ok_0;
    let c = m[crate::read::master(m)->0];
    let t = crate::write::times(c, slot, fields)->Ok_0;
    let uid = crate::read::text(c, PropertyName::Uid)->0;
    let o = n[m.len() as int];
    slots_with_an_override_are_shown(m, d);
    lemma_times(c, slot, fields);
    styles_have_their_params(crate::write::style_of(c));
    crate::laws::new_override_properties(c, uid, t, fields, now, PropertyName::Uid);
    crate::laws::new_override_properties(c, uid, t, fields, now, PropertyName::RecurrenceId);
    crate::laws::new_override_properties(c, uid, t, fields, now, PropertyName::Dtstart);
    crate::laws::new_override_properties(c, uid, t, fields, now, PropertyName::Dtend);
    crate::laws::new_override_properties(c, uid, t, fields, now, PropertyName::Summary);
    crate::laws::new_override_properties(c, uid, t, fields, now, PropertyName::Description);
    crate::laws::new_override_properties(c, uid, t, fields, now, PropertyName::Location);
    crate::laws::new_override_properties(c, uid, t, fields, now, PropertyName::Sequence);
    crate::laws::new_override_properties(c, uid, t, fields, now, PropertyName::Dtstamp);
}

/// The text that a change asks for under a name.
pub open spec fn text_asked_for(fields: FieldsView, p: PropertyName) -> Option<Seq<char>> {
    if p is Summary {
        fields.summary
    } else if p is Description {
        fields.description
    } else {
        fields.location
    }
}

/// Changing an occurrence without an override keeps the texts that were not asked
/// for: for each of summary, description and location, what is read of the new
/// override is what is read of the master.
pub proof fn new_overrides_keep_the_texts_of_the_master(
    m: Seq<ComponentView>,
    slot: Seq<char>,
    fields: FieldsView,
    now: i64,
    d: PartialDate,
    p: PropertyName,
)
    requires
        crate::write::updated(m, slot, fields, now) is Ok,
        crate::write::slot_value(
            slot,
            crate::write::style_of(m[crate::read::master(m)->0]),
        ) == Ok::<PartialDate, ErrorView>(d),
        forall|j: int| 0 <= j < m.len() ==> !#[trigger] shows_slot(m[j], d),
        p is Summary || p is Description || p is Location,
    ensures
        ({
            let n = crate::write::updated(m, slot, fields, now)->Ok_0;
            let c = m[crate::read::master(m)->0];
            let o = n[m.len() as int];
            &&& text_asked_for(fields, p) is None ==> crate::read::text(o, p) == crate::read::text(
                c,
                p,
            )
            &&& text_asked_for(fields, p) is Some ==> crate::read::text(o, p) == text_asked_for(
                fields,
                p,
            )
        }),
{
    let c = m[crate::read::master(m)->0];
    let t = crate::write::times(c, slot, fields)->Ok_0;
    let uid = crate::read::text(c, PropertyName::Uid)->0;
    slots_with_an_override_are_shown(m, d);
    crate::laws::new_override_properties(c, uid, t, fields, now, p);
}

/// Is this where the calendar itself stands: the first component that is one,
/// else the first of all?
pub open spec fn is_root(m: Seq<ComponentView>, r: int) -> bool {
    &&& 0 <= r < m.len()
    &&& forall|j: int| 0 <= j < r ==> !(#[trigger] m[j].kind is Calendar)
    &&& m[r].kind is Calendar || r == 0 && forall|j: int|
        0 <= j < m.len() ==> !(#[trigger] m[j].kind is Calendar)
}

/// A new override is listed at the root, and nothing else changes in the other
/// components.
pub proof fn new_overrides_stand_under_the_root(
    m: Seq<ComponentView>,
    slot: Seq<char>,
    fields: FieldsView,
    now: i64,
    d: PartialDate,
    r: int,
)
    requires
        crate::write::updated(m, slot, fields, now) is Ok,
        crate::write::slot_value(
            slot,
            crate::write::style_of(m[crate::read::master(m)->0]),
        ) == Ok::<PartialDate, ErrorView>(d),
        forall|j: int| 0 <= j < m.len() ==> !#[trigger] shows_slot(m[j], d),
        is_root(m, r),
    ensures
        ({
            let n = crate::write::updated(m, slot, fields, now)->Ok_0;
            &&& n.len() == m.len() + 1
            &&& n[r].kind == m[r].kind && n[r].entries == m[r].entries
            &&& n[r].children == m[r].children.push(m.len() as u32)
            &&& forall|j: int| 0 <= j < m.len() && j != r ==> #[trigger] n[j] == m[j]
        }),
{
    let is_calendar = |c: ComponentView| c.kind is Calendar;
    slots_with_an_override_are_shown(m, d);
    if m[r].kind is Calendar {
        assert(crate::read::is_first(m, is_calendar, r));
        crate::read::lemma_position(m, is_calendar, r);
    } else if crate::read::position(m, is_calendar) is Some {
        let k = crate::read::position(m, is_calendar)->0;
        assert(crate::read::is_first(m, is_calendar, k));
        assert(m[k].kind is Calendar);
    }
}

/// Does a change set the property? The stamp always, a text where it was asked
/// for, the start where it was, and the end where it or the start was.
pub open spec fn is_touched(fields: FieldsView, n: PropertyName) -> bool {
    ||| n is Dtstamp
    ||| n is Dtstart && fields.start is Some
    ||| n is Dtend && (fields.start is Some || fields.end is Some)
    ||| n is Summary && fields.summary is Some
    ||| n is Description && fields.description is Some
    ||| n is Location && fields.location is Some
}

/// Is the entry one that a change leaves?
pub open spec fn is_left(fields: FieldsView, e: EntryView) -> bool {
    !(e is Known && is_touched(fields, e->Known_0.name))
}

/// Picking among picked items.
proof fn lemma_filter_twice(
    s: Seq<EntryView>,
    p: spec_fn(EntryView) -> bool,
    q: spec_fn(EntryView) -> bool,
)
    requires
        forall|e: EntryView| #[trigger] q(e) ==> p(e),
    ensures
        s.filter(p).filter(q) == s.filter(q),
    decreases s.len(),
{
    reveal(Seq::filter);
    if s.len() > 0 {
        let front = s.drop_last();
        let last = s.last();
        lemma_filter_twice(front, p, q);
        if p(last) {
            let kept = front.filter(p).push(last);
            assert(kept.drop_last() =~= front.filter(p));
            assert(kept.last() == last);
        }
    }
}

/// Picking where nothing is picked.
proof fn lemma_filter_none(s: Seq<EntryView>, q: spec_fn(EntryView) -> bool)
    requires
        forall|i: int| 0 <= i < s.len() ==> !q(#[trigger] s[i]),
    ensures
        s.filter(q) == Seq::<EntryView>::empty(),
    decreases s.len(),
{
    reveal(Seq::filter);
    if s.len() > 0 {
        let front = s.drop_last();
        assert(!q(s[s.len() - 1]));
        assert forall|i: int| 0 <= i < front.len() implies !q(#[trigger] front[i]) by {
            assert(!q(s[i]));
        }
        lemma_filter_none(front, q);
    }
}

/// Setting a property: what is picked of other names stays, and of its own name
/// only the new entry is there.
proof fn lemma_set_filter(
    s: Seq<EntryView>,
    n: PropertyName,
    e: EntryView,
    q: spec_fn(EntryView) -> bool,
)
    requires
        crate::model::named(e, n),
    ensures
        (forall|x: EntryView| #[trigger] q(x) ==> !crate::model::named(x, n)) ==> crate::write::set(
            s,
            n,
            e,
        ).filter(q) == s.filter(q),
        (forall|x: EntryView| #[trigger] q(x) <==> crate::model::named(x, n)) ==> crate::write::set(
            s,
            n,
            e,
        ).filter(q) == seq![e],
{
    reveal(Seq::filter);
    let keep = |x: EntryView| !crate::model::named(x, n);
    let kept = crate::write::dropped(s, n);
    let all = kept.push(e);
    assert(all.drop_last() =~= kept);
    assert(all.last() == e);
    if forall|x: EntryView| #[trigger] q(x) ==> !crate::model::named(x, n) {
        lemma_filter_twice(s, keep, q);
        assert(!q(e));
    }
    if forall|x: EntryView| #[trigger] q(x) <==> crate::model::named(x, n) {
        assert forall|i: int| 0 <= i < kept.len() implies !q(#[trigger] kept[i]) by {
            s.lemma_filter_pred(keep, i);
        }
        lemma_filter_none(kept, q);
        assert(q(e));
        assert(all.filter(q) =~= seq![e]);
    }
}

/// Setting a text where there is one, in the same way.
proof fn lemma_set_some_filter(
    s: Seq<EntryView>,
    n: PropertyName,
    t: Option<Seq<char>>,
    q: spec_fn(EntryView) -> bool,
)
    ensures
        t is None ==> crate::write::set_some(s, n, t).filter(q) == s.filter(q),
        (forall|x: EntryView| #[trigger] q(x) ==> !crate::model::named(x, n))
            ==> crate::write::set_some(s, n, t).filter(q) == s.filter(q),
        t is Some && (forall|x: EntryView| #[trigger] q(x) <==> crate::model::named(x, n))
            ==> crate::write::set_some(s, n, t).filter(q) == seq![
            crate::write::text_entry(n, t->0),
        ],
{
    if let Some(x) = t {
        lemma_set_filter(s, n, crate::write::text_entry(n, x), q);
    }
}

/// Picking entries that no step of a change sets.
proof fn lemma_revised_left(
    c: ComponentView,
    t: Option<Times>,
    fields: FieldsView,
    params: Seq<ParamView>,
    now: i64,
)
    requires
        t is Some <==> fields.start is Some || fields.end is Some,
    ensures
        crate::write::revised(c, t, fields, params, now).entries.filter(
            |e: EntryView| is_left(fields, e),
        ) == c.entries.filter(|e: EntryView| is_left(fields, e)),
{
    let q = |e: EntryView| is_left(fields, e);
    let b = crate::write::moved(c.entries, t, fields, params);
    if let Some(t) = t {
        let start = crate::write::date_entry(PropertyName::Dtstart, t.start, params);
        let end = crate::write::date_entry(PropertyName::Dtend, t.end, params);
        let a = if fields.start is Some {
            crate::write::set(c.entries, PropertyName::Dtstart, start)
        } else {
            c.entries
        };
        lemma_set_filter(c.entries, PropertyName::Dtstart, start, q);
        lemma_set_filter(a, PropertyName::Dtend, end, q);
    }
    let x = crate::write::set_some(b, PropertyName::Summary, fields.summary);
    let y = crate::write::set_some(x, PropertyName::Description, fields.description);
    let z = crate::write::set_some(y, PropertyName::Location, fields.location);
    lemma_set_some_filter(b, PropertyName::Summary, fields.summary, q);
    lemma_set_some_filter(x, PropertyName::Description, fields.description, q);
    lemma_set_some_filter(y, PropertyName::Location, fields.location, q);
    lemma_set_filter(z, PropertyName::Dtstamp, crate::write::stamp_entry(now), q);
}

/// Of a name that a change sets there is one entry behind it.
proof fn lemma_revised_touched(
    c: ComponentView,
    t: Option<Times>,
    fields: FieldsView,
    params: Seq<ParamView>,
    now: i64,
    n: PropertyName,
)
    requires
        t is Some <==> fields.start is Some || fields.end is Some,
        is_touched(fields, n),
    ensures
        crate::write::revised(c, t, fields, params, now).entries.filter(
            |e: EntryView| crate::model::named(e, n),
        ).len() == 1,
{
    let q = |e: EntryView| crate::model::named(e, n);
    let b = crate::write::moved(c.entries, t, fields, params);
    if let Some(t) = t {
        let start = crate::write::date_entry(PropertyName::Dtstart, t.start, params);
        let end = crate::write::date_entry(PropertyName::Dtend, t.end, params);
        let a = if fields.start is Some {
            crate::write::set(c.entries, PropertyName::Dtstart, start)
        } else {
            c.entries
        };
        lemma_set_filter(c.entries, PropertyName::Dtstart, start, q);
        lemma_set_filter(a, PropertyName::Dtend, end, q);
    }
    let x = crate::write::set_some(b, PropertyName::Summary, fields.summary);
    let y = crate::write::set_some(x, PropertyName::Description, fields.description);
    let z = crate::write::set_some(y, PropertyName::Location, fields.location);
    lemma_set_some_filter(b, PropertyName::Summary, fields.summary, q);
    lemma_set_some_filter(x, PropertyName::Description, fields.description, q);
    lemma_set_some_filter(y, PropertyName::Location, fields.location, q);
    lemma_set_filter(z, PropertyName::Dtstamp, crate::write::stamp_entry(now), q);
}

/// Changing an occurrence that has an override sets there what was asked for,
/// once, and a fresh stamp, and leaves every other entry of it, in order, and
/// every other component as it is: overrides of other slots among them.
pub proof fn change_of_an_overridden_occurrence(
    m: Seq<ComponentView>,
    slot: Seq<char>,
    fields: FieldsView,
    now: i64,
    d: PartialDate,
    o: int,
)
    requires
        crate::write::updated(m, slot, fields, now) is Ok,
        crate::write::slot_value(
            slot,
            crate::write::style_of(m[crate::read::master(m)->0]),
        ) == Ok::<PartialDate, ErrorView>(d),
        0 <= o < m.len(),
        shows_slot(m[o], d),
        forall|j: int| 0 <= j < o ==> !#[trigger] shows_slot(m[j], d),
    ensures
        ({
            let n = crate::write::updated(m, slot, fields, now)->Ok_0;
            let c = m[crate::read::master(m)->0];
            let style = crate::write::style_of(c);
            let from = crate::write::slot_value(start_asked_for(slot, fields), style);
            let to = crate::write::slot_value(end_asked_for(c, slot, fields), style);
            &&& n.len() == m.len()
            &&& forall|j: int| 0 <= j < m.len() && j != o ==> #[trigger] n[j] == m[j]
            &&& n[o].kind == m[o].kind && n[o].children == m[o].children
            &&& n[o].entries.filter(|e: EntryView| is_left(fields, e)) == m[o].entries.filter(
                |e: EntryView| is_left(fields, e),
            )
            &&& fields.start is Some ==> from is Ok && is_date_entry(
                crate::read::property(n[o].entries, PropertyName::Dtstart),
                PropertyName::Dtstart,
                from->Ok_0,
                style,
            )
            &&& fields.start is Some || fields.end is Some ==> to is Ok && is_date_entry(
                crate::read::property(n[o].entries, PropertyName::Dtend),
                PropertyName::Dtend,
                to->Ok_0,
                style,
            )
            &&& fields.summary is Some ==> crate::read::text(n[o], PropertyName::Summary)
                == fields.summary
            &&& fields.description is Some ==> crate::read::text(n[o], PropertyName::Description)
                == fields.description
            &&& fields.location is Some ==> crate::read::text(n[o], PropertyName::Location)
                == fields.location
            &&& is_stamp(crate::read::property(n[o].entries, PropertyName::Dtstamp), now)
        }),
{
    let n = crate::write::updated(m, slot, fields, now)->Ok_0;
    let c = m[crate::read::master(m)->0];
    let style = crate::write::style_of(c);
    let params = crate::write::style_params(style);
    let k = crate::write::key(d);
    let hit = |x: ComponentView| crate::write::overrides(x, k);
    assert(crate::read::is_first(m, hit, o)) by {
        overrides_belong_to_their_clock(m[o], d);
        assert forall|j: int| 0 <= j < o implies !hit(#[trigger] m[j]) by {
            overrides_belong_to_their_clock(m[j], d);
        }
    }
    crate::read::lemma_position(m, hit, o);
    let t: Option<Times> = if fields.start is Some || fields.end is Some {
        Some(crate::write::times(c, slot, fields)->Ok_0)
    } else {
        None
    };
    assert(n[o] == crate::write::revised(m[o], t, fields, params, now));
    lemma_times(c, slot, fields);
    styles_have_their_params(style);
    lemma_revised_left(m[o], t, fields, params, now);
    crate::laws::revised_properties(m[o], t, fields, params, now, PropertyName::Dtstart);
    crate::laws::revised_properties(m[o], t, fields, params, now, PropertyName::Dtend);
    crate::laws::revised_properties(m[o], t, fields, params, now, PropertyName::Summary);
    crate::laws::revised_properties(m[o], t, fields, params, now, PropertyName::Description);
    crate::laws::revised_properties(m[o], t, fields, params, now, PropertyName::Location);
    crate::laws::revised_properties(m[o], t, fields, params, now, PropertyName::Dtstamp);
}

/// What a change sets in an override is there once.
pub proof fn changed_properties_stand_once(
    m: Seq<ComponentView>,
    slot: Seq<char>,
    fields: FieldsView,
    now: i64,
    d: PartialDate,
    o: int,
    p: PropertyName,
)
    requires
        crate::write::updated(m, slot, fields, now) is Ok,
        crate::write::slot_value(
            slot,
            crate::write::style_of(m[crate::read::master(m)->0]),
        ) == Ok::<PartialDate, ErrorView>(d),
        0 <= o < m.len(),
        shows_slot(m[o], d),
        forall|j: int| 0 <= j < o ==> !#[trigger] shows_slot(m[j], d),
        is_touched(fields, p),
    ensures
        crate::write::updated(m, slot, fields, now)->Ok_0[o].entries.filter(
            |e: EntryView| e is Known && e->Known_0.name == p,
        ).len() == 1,
{
    let n = crate::write::updated(m, slot, fields, now)->Ok_0;
    let c = m[crate::read::master(m)->0];
    let params = crate::write::style_params(crate::write::style_of(c));
    let k = crate::write::key(d);
    let hit = |x: ComponentView| crate::write::overrides(x, k);
    assert(crate::read::is_first(m, hit, o)) by {
        overrides_belong_to_their_clock(m[o], d);
        assert forall|j: int| 0 <= j < o implies !hit(#[trigger] m[j]) by {
            overrides_belong_to_their_clock(m[j], d);
        }
    }
    crate::read::lemma_position(m, hit, o);
    let t: Option<Times> = if fields.start is Some || fields.end is Some {
        Some(crate::write::times(c, slot, fields)->Ok_0)
    } else {
        None
    };
    assert(n[o] == crate::write::revised(m[o], t, fields, params, now));
    lemma_revised_touched(m[o], t, fields, params, now, p);
    let a = |e: EntryView| crate::model::named(e, p);
    let b = |e: EntryView| e is Known && e->Known_0.name == p;
    assert(a =~= b);
}

} // verus!
