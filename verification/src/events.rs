//! Projecting calendar data for a client: a thin list of expanded occurrences,
//! and the full detail of a single event.
//!
//! Recurrence expansion and time-zone resolution are `calcard`'s. What is kept
//! of the expansion, in which order, and in which shape, is decided here.

use vstd::prelude::*;

use crate::civil::{Civil, Moment, Stamp};
use crate::error::{Error, ErrorView};
use crate::ical::{LineView, Span, SpanView, Zone, ZoneView};
use crate::icloud::EventFields;
use crate::model::{
    Calendar, Component, ComponentView, Entry, EntryView, PropertyName, Value, ValueView,
};

verus! {

/// How many occurrences are generated for one resource before the window
/// filters them. The expansion starts at `DTSTART` and has no end date, so this
/// bounds endless series: a daily one stays in range for about 50 years.
pub const EXPAND_LIMIT: usize = 20_000;

/// One expanded occurrence.
#[derive(Debug, PartialEq)]
pub struct Occurrence {
    /// The UID of the event.
    pub uid: String,
    /// Does this belong to a recurring series, as a generated instance or as a
    /// detached override?
    pub recurring: bool,
    /// The slot of a detached override. A generated instance has none: its slot
    /// is its own `start`.
    pub recurrence_id: Option<String>,
    /// RFC 3339 with an offset, or a date where `all_day` is set.
    pub start: String,
    pub end: String,
    pub all_day: bool,
    pub summary: String,
    pub location: Option<String>,
    /// Where the resource is stored.
    pub master_href: String,
    pub master_etag: Option<String>,
}

/// What an [`Occurrence`] holds.
pub struct OccurrenceView {
    pub uid: Seq<char>,
    pub recurring: bool,
    pub recurrence_id: Option<Seq<char>>,
    pub start: Seq<char>,
    pub end: Seq<char>,
    pub all_day: bool,
    pub summary: Seq<char>,
    pub location: Option<Seq<char>>,
    pub master_href: Seq<char>,
    pub master_etag: Option<Seq<char>>,
}

impl View for Occurrence {
    type V = OccurrenceView;

    open spec fn view(&self) -> OccurrenceView {
        OccurrenceView {
            uid: self.uid@,
            recurring: self.recurring,
            recurrence_id: crate::model::text_view(self.recurrence_id),
            start: self.start@,
            end: self.end@,
            all_day: self.all_day,
            summary: self.summary@,
            location: crate::model::text_view(self.location),
            master_href: self.master_href@,
            master_etag: crate::model::text_view(self.master_etag),
        }
    }
}

/// The full detail of a single event.
#[derive(Debug, PartialEq)]
pub struct EventDetail {
    pub uid: String,
    pub summary: Option<String>,
    pub description: Option<String>,
    pub location: Option<String>,
    pub status: Option<String>,
    pub start: Option<String>,
    pub end: Option<String>,
    pub all_day: bool,
    pub recurring: bool,
    /// The recurrence rules of the master, such as `FREQ=WEEKLY;BYDAY=MO`.
    pub rrule: Vec<String>,
    pub organizer: Option<String>,
    pub attendees: Vec<String>,
    /// The detached overrides in the resource.
    pub overrides: Vec<OverrideInfo>,
    /// The original text, where it was asked for.
    pub raw: Option<String>,
}

/// One detached override.
#[derive(Debug, PartialEq)]
pub struct OverrideInfo {
    pub recurrence_id: Option<String>,
    pub summary: Option<String>,
}

/// What an [`OverrideInfo`] holds.
pub struct OverrideView {
    pub recurrence_id: Option<Seq<char>>,
    pub summary: Option<Seq<char>>,
}

impl View for OverrideInfo {
    type V = OverrideView;

    open spec fn view(&self) -> OverrideView {
        OverrideView {
            recurrence_id: crate::model::text_view(self.recurrence_id),
            summary: crate::model::text_view(self.summary),
        }
    }
}

/// What an [`EventDetail`] holds.
#[verifier::ext_equal]
pub struct DetailView {
    pub uid: Seq<char>,
    pub summary: Option<Seq<char>>,
    pub description: Option<Seq<char>>,
    pub location: Option<Seq<char>>,
    pub status: Option<Seq<char>>,
    pub start: Option<Seq<char>>,
    pub end: Option<Seq<char>>,
    pub all_day: bool,
    pub recurring: bool,
    pub rrule: Seq<Seq<char>>,
    pub organizer: Option<Seq<char>>,
    pub attendees: Seq<Seq<char>>,
    pub overrides: Seq<OverrideView>,
    pub raw: Option<Seq<char>>,
}

/// The views of a list of strings.
pub open spec fn texts(s: Seq<String>) -> Seq<Seq<char>> {
    Seq::new(s.len(), |i: int| s[i]@)
}

/// The views of a list of overrides.
pub open spec fn override_list(s: Seq<OverrideInfo>) -> Seq<OverrideView> {
    Seq::new(s.len(), |i: int| s[i]@)
}

impl View for EventDetail {
    type V = DetailView;

    open spec fn view(&self) -> DetailView {
        DetailView {
            uid: self.uid@,
            summary: crate::model::text_view(self.summary),
            description: crate::model::text_view(self.description),
            location: crate::model::text_view(self.location),
            status: crate::model::text_view(self.status),
            start: crate::model::text_view(self.start),
            end: crate::model::text_view(self.end),
            all_day: self.all_day,
            recurring: self.recurring,
            rrule: texts(self.rrule@),
            organizer: crate::model::text_view(self.organizer),
            attendees: texts(self.attendees@),
            overrides: override_list(self.overrides@),
            raw: crate::model::text_view(self.raw),
        }
    }
}

/// A moment as text: the date for an all-day event, else RFC 3339 with the
/// offset.
pub open spec fn moment_text(m: Moment, all_day: bool) -> Seq<char> {
    if all_day {
        crate::civil::date_text(m.wall())
    } else {
        crate::civil::date_time_text(m.wall()) + crate::civil::offset_text(m.offset as int)
    }
}

/// Formats a moment.
fn fmt_dt(m: Moment, all_day: bool) -> (r: String)
    requires
        m.ok(),
    ensures
        r@ == moment_text(m, all_day),
{
    if all_day {
        crate::civil::format_moment_date(m)
    } else {
        crate::civil::format_moment(m)
    }
}

/// The slot of an override as text, read in a time zone.
pub open spec fn slot_text(c: ComponentView, zone: ZoneView) -> Option<Seq<char>> {
    match crate::read::date(c, PropertyName::RecurrenceId) {
        Some(d) => match crate::ical::resolved(d, zone) {
            Some(m) => Some(moment_text(m, crate::read::all_day(c))),
            None => None,
        },
        None => None,
    }
}

/// The slot of an override.
fn override_recurrence_id(c: &Component, zone: &Zone, all_day: bool) -> (r: Option<String>)
    requires
        crate::ical::zone_ok(zone@),
        all_day == crate::read::all_day(c@),
    ensures
        crate::model::text_view(r) == slot_text(c@, zone@),
{
    match crate::read::date_prop(c, PropertyName::RecurrenceId) {
        Some(d) => match crate::ical::resolve(d, zone) {
            Some(m) => Some(fmt_dt(m, all_day)),
            None => None,
        },
        None => None,
    }
}

/// A text, or the empty one.
pub open spec fn text_or_empty(s: Option<Seq<char>>) -> Seq<char> {
    match s {
        Some(t) => t,
        None => seq![],
    }
}

/// A text that is not empty.
pub open spec fn non_empty(s: Option<Seq<char>>) -> Option<Seq<char>> {
    match s {
        Some(t) => if t.len() == 0 {
            None
        } else {
            Some(t)
        },
        None => None,
    }
}

/// A text, or the empty one.
fn or_empty(s: Option<String>) -> (r: String)
    ensures
        r@ == text_or_empty(crate::model::text_view(s)),
{
    match s {
        Some(t) => t,
        None => {
            let r = "".to_owned();
            proof {
                reveal_strlit("");
                assert(r@ =~= seq![]);
            }
            r
        },
    }
}

/// A text that is not empty.
fn filled(s: Option<String>) -> (r: Option<String>)
    ensures
        crate::model::text_view(r) == non_empty(crate::model::text_view(s)),
{
    match s {
        Some(t) => {
            if t.as_str().unicode_len() == 0 {
                None
            } else {
                Some(t)
            }
        },
        None => None,
    }
}

/// A copy of an optional text.
fn copied(s: &Option<String>) -> (r: Option<String>)
    ensures
        crate::model::text_view(r) == crate::model::text_view(*s),
{
    match s {
        Some(t) => Some(t.clone()),
        None => None,
    }
}

/// Does an occurrence overlap the window from `from` up to, and without, `to`?
pub open spec fn overlaps(s: SpanView, from: i64, to: i64) -> bool {
    s.start.timestamp < to && s.end.timestamp > from
}

/// What is listed of an occurrence of the component `c`.
pub open spec fn listed(
    c: ComponentView,
    s: SpanView,
    href: Seq<char>,
    etag: Option<Seq<char>>,
) -> OccurrenceView {
    let all_day = crate::read::all_day(c);
    OccurrenceView {
        uid: text_or_empty(crate::read::text(c, PropertyName::Uid)),
        recurring: crate::model::is_recurrent(c) || crate::model::is_override(c),
        recurrence_id: if crate::model::is_override(c) {
            slot_text(c, s.zone)
        } else {
            None
        },
        start: moment_text(s.start, all_day),
        end: moment_text(s.end, all_day),
        all_day,
        summary: text_or_empty(crate::read::text(c, PropertyName::Summary)),
        location: non_empty(crate::read::text(c, PropertyName::Location)),
        master_href: href,
        master_etag: etag,
    }
}

/// What is listed of an occurrence.
fn list_one(c: &Component, s: &Span, href: &String, etag: &Option<String>) -> (r: Occurrence)
    requires
        s.start.ok(),
        s.end.ok(),
        crate::ical::zone_ok(s.zone@),
    ensures
        r@ == listed(c@, s@, href@, crate::model::text_view(*etag)),
{
    let all_day = crate::read::comp_all_day(c);
    let detached = c.is_override();
    let recurring = c.is_recurrent() || detached;
    let recurrence_id = if detached {
        override_recurrence_id(c, &s.zone, all_day)
    } else {
        None
    };
    Occurrence {
        uid: or_empty(crate::read::text_prop(c, PropertyName::Uid)),
        recurring,
        recurrence_id,
        start: fmt_dt(s.start, all_day),
        end: fmt_dt(s.end, all_day),
        all_day,
        summary: or_empty(crate::read::text_prop(c, PropertyName::Summary)),
        location: filled(crate::read::text_prop(c, PropertyName::Location)),
        master_href: href.clone(),
        master_etag: copied(etag),
    }
}

/// One calendar of a stored resource, with the occurrences that it expands to.
#[derive(Debug)]
pub struct Resource {
    pub href: String,
    pub etag: Option<String>,
    pub calendar: Calendar,
    pub spans: Vec<Option<Span>>,
}

/// What a [`Resource`] holds.
pub struct ResourceView {
    pub href: Seq<char>,
    pub etag: Option<Seq<char>>,
    pub calendar: Seq<ComponentView>,
    pub spans: Seq<Option<SpanView>>,
}

impl View for Resource {
    type V = ResourceView;

    open spec fn view(&self) -> ResourceView {
        ResourceView {
            href: self.href@,
            etag: crate::model::text_view(self.etag),
            calendar: self.calendar@,
            spans: crate::ical::span_list(self.spans@),
        }
    }
}

impl ResourceView {
    /// Are the occurrences ones of the calendar?
    pub open spec fn ok(self) -> bool {
        crate::ical::spans_ok(self.calendar, self.spans)
    }
}

/// The views of a list of resources.
pub open spec fn resource_list(s: Seq<Resource>) -> Seq<ResourceView> {
    Seq::new(s.len(), |i: int| s[i]@)
}

/// An occurrence, under the second at which it starts.
pub type Row = (i64, OccurrenceView);

/// The views of a list of occurrences under their starts.
pub open spec fn row_list(s: Seq<(i64, Occurrence)>) -> Seq<Row> {
    Seq::new(s.len(), |i: int| (s[i].0, s[i].1@))
}

/// The views of a list of occurrences.
pub open spec fn occurrence_list(s: Seq<Occurrence>) -> Seq<OccurrenceView> {
    Seq::new(s.len(), |i: int| s[i]@)
}

/// What the first `n` occurrences of a resource put into the window, in order.
pub open spec fn rows_of(r: ResourceView, n: nat, from: i64, to: i64) -> Seq<Row>
    decreases n,
{
    if n == 0 {
        seq![]
    } else {
        let front = rows_of(r, (n - 1) as nat, from, to);
        match r.spans[n - 1] {
            Some(s) => if overlaps(s, from, to) {
                front.push(
                    (s.start.timestamp, listed(r.calendar[s.comp_id as int], s, r.href, r.etag)),
                )
            } else {
                front
            },
            None => front,
        }
    }
}

/// What all resources put into the window, in order.
pub open spec fn rows(s: Seq<ResourceView>, from: i64, to: i64) -> Seq<Row>
    decreases s.len(),
{
    if s.len() == 0 {
        seq![]
    } else {
        rows(s.drop_last(), from, to) + rows_of(s.last(), s.last().spans.len(), from, to)
    }
}

/// A row put behind all those that start no later.
pub open spec fn placed(s: Seq<Row>, x: Row) -> Seq<Row>
    decreases s.len(),
{
    if s.len() == 0 || s.last().0 <= x.0 {
        s.push(x)
    } else {
        placed(s.drop_last(), x).push(s.last())
    }
}

/// The rows by their starts; those with one start keep their order.
pub open spec fn by_start(s: Seq<Row>) -> Seq<Row>
    decreases s.len(),
{
    if s.len() == 0 {
        seq![]
    } else {
        placed(by_start(s.drop_last()), s.last())
    }
}

/// The occurrences in the window, by their starts.
pub open spec fn agenda(s: Seq<ResourceView>, from: i64, to: i64) -> Seq<OccurrenceView> {
    by_start(rows(s, from, to)).map_values(|r: Row| r.1)
}

/// Appends what one resource puts into the window.
fn collect_rows(r: &Resource, from: i64, to: i64, out: &mut Vec<(i64, Occurrence)>)
    requires
        r@.ok(),
    ensures
        row_list(final(out)@) == row_list(old(out)@) + rows_of(r@, r@.spans.len(), from, to),
{
    let ghost before = row_list(out@);
    let mut i: usize = 0;
    assert(before =~= before + rows_of(r@, 0, from, to));
    while i < r.spans.len()
        invariant
            0 <= i <= r.spans@.len(),
            r@.ok(),
            row_list(out@) == before + rows_of(r@, i as nat, from, to),
        decreases r.spans@.len() - i,
    {
        assert(crate::ical::span_ok(r@.calendar, r@.spans[i as int]));
        assert(r@.spans[i as int] == crate::ical::span_view(r.spans@[i as int]));
        let ghost prior = row_list(out@);
        if let Some(s) = &r.spans[i] {
            if s.start.timestamp < to && s.end.timestamp > from {
                let c = &r.calendar.components[s.comp_id as usize];
                assert(c@ == r@.calendar[s.comp_id as int]);
                let o = list_one(c, s, &r.href, &r.etag);
                let ghost row = (s.start.timestamp, o@);
                out.push((s.start.timestamp, o));
                assert(row_list(out@) =~= prior.push(row));
                assert(before + rows_of(r@, (i + 1) as nat, from, to) =~= (before + rows_of(
                    r@,
                    i as nat,
                    from,
                    to,
                )).push(row));
            }
        }
        i = i + 1;
    }
}

/// Puts a row behind all those that start no later.
fn place(out: &mut Vec<(i64, Occurrence)>, x: (i64, Occurrence))
    ensures
        row_list(final(out)@) == placed(row_list(old(out)@), (x.0, x.1@)),
{
    let ghost all = row_list(out@);
    let ghost row = (x.0, x.1@);
    let mut at: usize = out.len();
    proof {
        assert(all.take(at as int) =~= all);
        assert(placed(all, row) =~= placed(all.take(at as int), row) + all.skip(at as int));
    }
    while at > 0 && out[at - 1].0 > x.0
        invariant
            0 <= at <= out@.len(),
            all == row_list(out@),
            row == (x.0, x.1@),
            placed(all, row) == placed(all.take(at as int), row) + all.skip(at as int),
        decreases at,
    {
        proof {
            let front = all.take(at as int);
            assert(front.last() == all[at - 1]);
            assert(front.drop_last() =~= all.take(at - 1));
            assert(placed(front, row) == placed(all.take(at - 1), row).push(all[at - 1]));
            assert(placed(all.take(at - 1), row).push(all[at - 1]) + all.skip(at as int) =~= placed(
                all.take(at - 1),
                row,
            ) + all.skip(at - 1));
        }
        at = at - 1;
    }
    proof {
        let front = all.take(at as int);
        if at > 0 {
            assert(front.last() == all[at - 1]);
        }
        assert(placed(front, row) == front.push(row));
        assert(all.insert(at as int, row) =~= front.push(row) + all.skip(at as int));
    }
    out.insert(at, x);
    assert(row_list(out@) =~= all.insert(at as int, row));
}

/// Lists the occurrences of expanded resources that overlap the window, by
/// their starts.
pub fn list_occurrences(resources: &Vec<Resource>, window_start: i64, window_end: i64) -> (r: Vec<
    Occurrence,
>)
    requires
        forall|i: int| 0 <= i < resources@.len() ==> (#[trigger] resources@[i])@.ok(),
    ensures
        occurrence_list(r@) == agenda(resource_list(resources@), window_start, window_end),
{
    let ghost all = resource_list(resources@);
    let mut found: Vec<(i64, Occurrence)> = Vec::new();
    let mut i: usize = 0;
    proof {
        assert(all.take(0) =~= seq![]);
        assert(row_list(found@) =~= seq![]);
    }
    while i < resources.len()
        invariant
            0 <= i <= resources@.len(),
            all == resource_list(resources@),
            forall|i: int| 0 <= i < resources@.len() ==> (#[trigger] resources@[i])@.ok(),
            row_list(found@) == rows(all.take(i as int), window_start, window_end),
        decreases resources@.len() - i,
    {
        collect_rows(&resources[i], window_start, window_end, &mut found);
        proof {
            assert(all.take(i + 1).drop_last() =~= all.take(i as int));
            assert(all.take(i + 1).last() == resources@[i as int]@);
        }
        i = i + 1;
    }
    assert(all.take(i as int) =~= all);
    let ghost unsorted = found@;
    let ghost views = row_list(unsorted);
    let mut sorted: Vec<(i64, Occurrence)> = Vec::new();
    proof {
        assert(views.take(0) =~= seq![]);
        assert(row_list(sorted@) =~= seq![]);
    }
    for x in it: found
        invariant
            it.seq() == unsorted,
            views == row_list(unsorted),
            row_list(sorted@) == by_start(views.take(it.index() as int)),
    {
        proof {
            let k = it.index() as int;
            assert(views.take(k + 1).drop_last() =~= views.take(k));
            assert(views.take(k + 1).last() == (x.0, x.1@));
        }
        place(&mut sorted, x);
    }
    assert(views.take(unsorted.len() as int) =~= views);
    let ghost ordered = sorted@;
    let mut out: Vec<Occurrence> = Vec::new();
    for x in it: sorted
        invariant
            it.seq() == ordered,
            out@.len() == it.index(),
            forall|i: int| 0 <= i < out@.len() ==> (#[trigger] out@[i])@ == ordered[i].1@,
    {
        out.push(x.1);
    }
    assert(occurrence_list(out@) =~= agenda(all, window_start, window_end));
    out
}

/// What a stored object holds: where it is stored, its ETag, and its text.
pub type ObjectView = (Seq<char>, Option<Seq<char>>, Seq<char>);

/// The views of a list of stored objects.
pub open spec fn object_list(s: Seq<(String, Option<String>, String)>) -> Seq<ObjectView> {
    Seq::new(s.len(), |i: int| (s[i].0@, crate::model::text_view(s[i].1), s[i].2@))
}

/// One calendar of a stored object.
pub struct SourceView {
    pub href: Seq<char>,
    pub etag: Option<Seq<char>>,
    pub calendar: Seq<ComponentView>,
}

/// The calendars of a stored object.
pub open spec fn sources_of(o: ObjectView) -> Seq<SourceView> {
    crate::ical::calendars_in(crate::ical::text_entries(o.2)).map_values(
        |m: Seq<ComponentView>| SourceView { href: o.0, etag: o.1, calendar: m },
    )
}

/// The calendars of all stored objects, in order.
pub open spec fn sources(s: Seq<ObjectView>) -> Seq<SourceView>
    decreases s.len(),
{
    if s.len() == 0 {
        seq![]
    } else {
        sources(s.drop_last()) + sources_of(s.last())
    }
}

/// Is `r` the calendar `s` with what it may expand to?
pub open spec fn expands(s: SourceView, r: ResourceView) -> bool {
    &&& r.href == s.href
    &&& r.etag == s.etag
    &&& r.calendar == s.calendar
    &&& crate::ical::unfolds(
        s.calendar,
        crate::ical::expansion(s.calendar, EXPAND_LIMIT),
        r.spans,
    )
}

/// Are the resources `r` the calendars `s`, each with what it may expand to?
pub open spec fn all_expand(s: Seq<SourceView>, r: Seq<ResourceView>) -> bool {
    r.len() == s.len() && forall|i: int| 0 <= i < s.len() ==> expands(#[trigger] s[i], r[i])
}

/// May these be the occurrences in the window that are listed of stored objects,
/// whatever order the expansion leaves open?
pub open spec fn may_list(
    objects: Seq<ObjectView>,
    from: i64,
    to: i64,
    out: Seq<OccurrenceView>,
) -> bool {
    exists|e: Seq<ResourceView>| #[trigger]
        all_expand(sources(objects), e) && out == agenda(e, from, to)
}

/// Parses a stored object and appends its calendars, each with what it expands
/// to.
fn expand_object(o: &(String, Option<String>, String), out: &mut Vec<Resource>)
    ensures
        final(out)@.len() == old(out)@.len() + sources_of(
            (o.0@, crate::model::text_view(o.1), o.2@),
        ).len(),
        forall|i: int| 0 <= i < old(out)@.len() ==> (#[trigger] final(out)@[i]) == old(out)@[i],
        forall|i: int|
            old(out)@.len() <= i < final(out)@.len() ==> expands(
                sources_of((o.0@, crate::model::text_view(o.1), o.2@))[i - old(out)@.len()],
                (#[trigger] final(out)@[i])@,
            ),
        crate::ical::reads_documents(o.2@, crate::ical::text_entries(o.2@)),
{
    let ghost own = sources_of((o.0@, crate::model::text_view(o.1), o.2@));
    let ghost before = out@;
    let calendars = crate::ical::parse_calendars(o.2.as_str());
    let ghost all = calendars@;
    assert(own.len() == crate::ical::calendar_views(all).len());
    for c in it: calendars
        invariant
            it.seq() == all,
            own == sources_of((o.0@, crate::model::text_view(o.1), o.2@)),
            crate::ical::calendar_views(all) == crate::ical::calendars_in(
                crate::ical::text_entries(o.2@),
            ),
            own.len() == all.len(),
            forall|i: int|
                0 <= i < all.len() ==> crate::ical::readable(
                    crate::ical::calendar_view(#[trigger] all[i]),
                ),
            out@.len() == before.len() + it.index(),
            forall|i: int| 0 <= i < before.len() ==> (#[trigger] out@[i]) == before[i],
            forall|i: int|
                before.len() <= i < out@.len() ==> expands(
                    own[i - before.len()],
                    (#[trigger] out@[i])@,
                ),
    {
        let ghost k = it.index() as int;
        assert(own[k].calendar == crate::ical::calendar_views(all)[k]);
        assert(crate::ical::readable(crate::ical::calendar_view(all[k])));
        let spans = crate::ical::expand(&c, EXPAND_LIMIT);
        let calendar = crate::ical::import_calendar(c);
        out.push(Resource { href: o.0.clone(), etag: copied(&o.1), calendar, spans });
    }
}

/// Expands stored objects into the list of occurrences that overlap the
/// window, by their starts. An object is where it is stored, its ETag and its
/// text; the window is in seconds since the epoch.
pub fn expand_occurrences(
    objects: &[(String, Option<String>, String)],
    window_start: i64,
    window_end: i64,
) -> (r: Vec<Occurrence>)
    ensures
        may_list(object_list(objects@), window_start, window_end, occurrence_list(r@)),
        forall|i: int|
            0 <= i < objects@.len() ==> crate::ical::reads_documents(
                #[trigger] objects@[i].2@,
                crate::ical::text_entries(objects@[i].2@),
            ),
{
    let ghost all = object_list(objects@);
    let mut found: Vec<Resource> = Vec::new();
    let mut i: usize = 0;
    assert(all.take(0) =~= seq![]);
    while i < objects.len()
        invariant
            0 <= i <= objects@.len(),
            all == object_list(objects@),
            all_expand(sources(all.take(i as int)), resource_list(found@)),
            forall|j: int|
                0 <= j < i ==> crate::ical::reads_documents(
                    #[trigger] objects@[j].2@,
                    crate::ical::text_entries(objects@[j].2@),
                ),
        decreases objects@.len() - i,
    {
        let ghost before = found@;
        let ghost front = sources(all.take(i as int));
        let ghost own = sources_of(all[i as int]);
        expand_object(&objects[i], &mut found);
        proof {
            assert(all.take(i + 1).drop_last() =~= all.take(i as int));
            assert(all.take(i + 1).last() == all[i as int]);
            let joined = front + own;
            assert(sources(all.take(i + 1)) == joined);
            assert forall|j: int| 0 <= j < joined.len() implies expands(
                #[trigger] joined[j],
                resource_list(found@)[j],
            ) by {
                if j < front.len() {
                    assert(expands(front[j], resource_list(before)[j]));
                    assert(found@[j] == before[j]);
                } else {
                    assert(joined[j] == own[j - front.len()]);
                    assert(expands(own[j - front.len()], found@[j]@));
                }
            }
        }
        i = i + 1;
    }
    proof {
        assert(all.take(i as int) =~= all);
        assert forall|j: int| 0 <= j < found@.len() implies (#[trigger] found@[j])@.ok() by {
            assert(expands(sources(all)[j], resource_list(found@)[j]));
        }
        assert(all_expand(sources(all), resource_list(found@)));
    }
    list_occurrences(&found, window_start, window_end)
}

/// The first of the earliest occurrences among the first `n`, overrides left
/// out.
pub open spec fn earliest(m: Seq<ComponentView>, spans: Seq<Option<SpanView>>, n: nat) -> Option<
    SpanView,
>
    decreases n,
{
    if n == 0 {
        None
    } else {
        let best = earliest(m, spans, (n - 1) as nat);
        match spans[n - 1] {
            Some(s) => if !crate::model::is_override(m[s.comp_id as int]) && (best matches Some(b)
                ==> s.start.timestamp < b.start.timestamp) {
                Some(s)
            } else {
                best
            },
            None => best,
        }
    }
}

/// The text of a recurrence rule, or of what stands in its place.
pub open spec fn rule_text(v: ValueView) -> Option<Seq<char>> {
    match v {
        ValueView::Other(o) => match o.rule {
            Some(r) => Some(r),
            None => o.text,
        },
        _ => crate::read::value_text(v),
    }
}

/// The first value of an entry under the name `n`.
pub open spec fn entry_value(e: EntryView, n: PropertyName) -> Option<ValueView> {
    match e {
        EntryView::Known(p) => if p.name == n && p.values.len() > 0 {
            Some(p.values[0])
        } else {
            None
        },
        EntryView::Foreign(_) => None,
    }
}

/// The recurrence rules among some entries, in order.
pub open spec fn rules(entries: Seq<EntryView>) -> Seq<Seq<char>>
    decreases entries.len(),
{
    if entries.len() == 0 {
        seq![]
    } else {
        let front = rules(entries.drop_last());
        match entry_value(entries.last(), PropertyName::Rrule) {
            Some(v) => match rule_text(v) {
                Some(t) => front.push(t),
                None => front,
            },
            None => front,
        }
    }
}

/// The attendees among some entries, in order.
pub open spec fn attendees(entries: Seq<EntryView>) -> Seq<Seq<char>>
    decreases entries.len(),
{
    if entries.len() == 0 {
        seq![]
    } else {
        let front = attendees(entries.drop_last());
        match entry_value(entries.last(), PropertyName::Attendee) {
            Some(v) => match crate::read::value_text(v) {
                Some(t) => front.push(t),
                None => front,
            },
            None => front,
        }
    }
}

/// The label of a status value.
pub open spec fn status_label(v: ValueView) -> Option<Seq<char>> {
    match v {
        ValueView::Other(o) => o.status,
        _ => None,
    }
}

/// The first status among some entries.
pub open spec fn status(entries: Seq<EntryView>) -> Option<Seq<char>>
    decreases entries.len(),
{
    if entries.len() == 0 {
        None
    } else {
        match status(entries.drop_last()) {
            Some(s) => Some(s),
            None => match entry_value(entries.last(), PropertyName::Status) {
                Some(v) => status_label(v),
                None => None,
            },
        }
    }
}

/// The overrides among some components, in order.
pub open spec fn override_infos(m: Seq<ComponentView>) -> Seq<OverrideView>
    decreases m.len(),
{
    if m.len() == 0 {
        seq![]
    } else {
        let front = override_infos(m.drop_last());
        let c = m.last();
        if crate::read::is_event(c) && crate::model::is_override(c) {
            front.push(
                OverrideView {
                    recurrence_id: slot_text(c, ZoneView::Utc),
                    summary: crate::read::text(c, PropertyName::Summary),
                },
            )
        } else {
            front
        }
    }
}

/// The detail of the event in a calendar, with `first` its earliest occurrence
/// and `raw` the text where it was asked for.
pub open spec fn detail(
    m: Seq<ComponentView>,
    first: Option<SpanView>,
    raw: Option<Seq<char>>,
) -> Result<DetailView, ErrorView> {
    match crate::read::master(m) {
        None => Err(ErrorView::NoEvent),
        Some(i) => {
            let c = m[i];
            let all_day = crate::read::all_day(c);
            Ok(
                DetailView {
                    uid: text_or_empty(crate::read::text(c, PropertyName::Uid)),
                    summary: crate::read::text(c, PropertyName::Summary),
                    description: crate::read::text(c, PropertyName::Description),
                    location: non_empty(crate::read::text(c, PropertyName::Location)),
                    status: status(c.entries),
                    start: match first {
                        Some(s) => Some(moment_text(s.start, all_day)),
                        None => None,
                    },
                    end: match first {
                        Some(s) => Some(moment_text(s.end, all_day)),
                        None => None,
                    },
                    all_day,
                    recurring: crate::model::is_recurrent(c),
                    rrule: rules(c.entries),
                    organizer: crate::read::text(c, PropertyName::Organizer),
                    attendees: attendees(c.entries),
                    overrides: override_infos(m),
                    raw,
                },
            )
        },
    }
}

/// The original text, where it was asked for.
pub open spec fn raw_text(ics: Seq<char>, include_raw: bool) -> Option<Seq<char>> {
    if include_raw {
        Some(ics)
    } else {
        None
    }
}

/// What a fallible detail holds.
pub open spec fn detail_result(r: Result<EventDetail, Error>) -> Result<DetailView, ErrorView> {
    match r {
        Ok(d) => Ok(d@),
        Err(e) => Err(e@),
    }
}

/// Finds the first of the earliest occurrences, overrides left out.
fn find_earliest<'a>(cal: &Calendar, spans: &'a Vec<Option<Span>>) -> (r: Option<&'a Span>)
    requires
        crate::ical::spans_ok(cal@, crate::ical::span_list(spans@)),
    ensures
        match r {
            Some(s) => earliest(cal@, crate::ical::span_list(spans@), spans@.len()) == Some(s@)
                && s.start.ok() && s.end.ok(),
            None => earliest(cal@, crate::ical::span_list(spans@), spans@.len()) is None,
        },
{
    let ghost all = crate::ical::span_list(spans@);
    let mut best: Option<&Span> = None;
    let mut i: usize = 0;
    while i < spans.len()
        invariant
            0 <= i <= spans@.len(),
            all == crate::ical::span_list(spans@),
            crate::ical::spans_ok(cal@, all),
            match best {
                Some(s) => earliest(cal@, all, i as nat) == Some(s@) && s.start.ok()
                    && s.end.ok(),
                None => earliest(cal@, all, i as nat) is None,
            },
        decreases spans@.len() - i,
    {
        assert(crate::ical::span_ok(cal@, all[i as int]));
        assert(all[i as int] == crate::ical::span_view(spans@[i as int]));
        if let Some(s) = &spans[i] {
            let c = &cal.components[s.comp_id as usize];
            assert(c@ == cal@[s.comp_id as int]);
            if !c.is_override() {
                let sooner = match best {
                    Some(b) => s.start.timestamp < b.start.timestamp,
                    None => true,
                };
                if sooner {
                    best = Some(s);
                }
            }
        }
        i = i + 1;
    }
    best
}

/// The first value of an entry under the name `n`.
fn value_under(e: &Entry, n: PropertyName) -> (r: Option<&Value>)
    ensures
        match r {
            Some(v) => entry_value(e@, n) == Some(v@),
            None => entry_value(e@, n) is None,
        },
{
    match e {
        Entry::Known(p) => {
            if p.name == n && p.values.len() > 0 {
                Some(&p.values[0])
            } else {
                None
            }
        },
        Entry::Foreign(_) => None,
    }
}

/// Renders a recurrence rule as `FREQ=...`.
fn render_rrule(v: &Value) -> (r: Option<String>)
    ensures
        crate::model::text_view(r) == rule_text(v@),
{
    match v {
        Value::Other(o) => {
            if o.rule.is_some() {
                copied(&o.rule)
            } else {
                copied(&o.text)
            }
        },
        _ => crate::read::text_of_value(v),
    }
}

/// The recurrence rules of a component.
fn rules_of(c: &Component) -> (r: Vec<String>)
    ensures
        texts(r@) == rules(c@.entries),
{
    let ghost all = c@.entries;
    let mut out: Vec<String> = Vec::new();
    let mut i: usize = 0;
    proof {
        assert(all.take(0) =~= seq![]);
        assert(texts(out@) =~= seq![]);
    }
    while i < c.entries.len()
        invariant
            0 <= i <= c.entries@.len(),
            all == crate::model::entry_list(c.entries@),
            texts(out@) == rules(all.take(i as int)),
        decreases c.entries@.len() - i,
    {
        let ghost before = out@;
        proof {
            assert(all.take(i + 1).drop_last() =~= all.take(i as int));
            assert(all.take(i + 1).last() == c.entries@[i as int]@);
        }
        if let Some(v) = value_under(&c.entries[i], PropertyName::Rrule) {
            if let Some(t) = render_rrule(v) {
                out.push(t);
                assert(texts(out@) =~= texts(before).push(t@));
            }
        }
        i = i + 1;
    }
    assert(all.take(i as int) =~= all);
    out
}

/// The attendees of a component.
fn attendees_of(c: &Component) -> (r: Vec<String>)
    ensures
        texts(r@) == attendees(c@.entries),
{
    let ghost all = c@.entries;
    let mut out: Vec<String> = Vec::new();
    let mut i: usize = 0;
    proof {
        assert(all.take(0) =~= seq![]);
        assert(texts(out@) =~= seq![]);
    }
    while i < c.entries.len()
        invariant
            0 <= i <= c.entries@.len(),
            all == crate::model::entry_list(c.entries@),
            texts(out@) == attendees(all.take(i as int)),
        decreases c.entries@.len() - i,
    {
        let ghost before = out@;
        proof {
            assert(all.take(i + 1).drop_last() =~= all.take(i as int));
            assert(all.take(i + 1).last() == c.entries@[i as int]@);
        }
        if let Some(v) = value_under(&c.entries[i], PropertyName::Attendee) {
            if let Some(t) = crate::read::text_of_value(v) {
                out.push(t);
                assert(texts(out@) =~= texts(before).push(t@));
            }
        }
        i = i + 1;
    }
    assert(all.take(i as int) =~= all);
    out
}

/// A status among the first entries is the one of the component.
proof fn lemma_status_prefix(entries: Seq<EntryView>, k: int)
    requires
        0 <= k <= entries.len(),
        status(entries.take(k)) is Some,
    ensures
        status(entries) == status(entries.take(k)),
    decreases entries.len(),
{
    if k < entries.len() {
        assert(entries.drop_last().take(k) =~= entries.take(k));
        lemma_status_prefix(entries.drop_last(), k);
    } else {
        assert(entries.take(k) =~= entries);
    }
}

/// The status of a component.
fn status_of(c: &Component) -> (r: Option<String>)
    ensures
        crate::model::text_view(r) == status(c@.entries),
{
    let ghost all = c@.entries;
    let mut i: usize = 0;
    assert(all.take(0) =~= seq![]);
    while i < c.entries.len()
        invariant
            0 <= i <= c.entries@.len(),
            all == crate::model::entry_list(c.entries@),
            status(all.take(i as int)) is None,
        decreases c.entries@.len() - i,
    {
        proof {
            assert(all.take(i + 1).drop_last() =~= all.take(i as int));
            assert(all.take(i + 1).last() == c.entries@[i as int]@);
        }
        if let Some(Value::Other(o)) = value_under(&c.entries[i], PropertyName::Status) {
            if let Some(s) = &o.status {
                proof {
                    lemma_status_prefix(all, i + 1);
                }
                return Some(s.clone());
            }
        }
        i = i + 1;
    }
    assert(all.take(i as int) =~= all);
    None
}

/// The overrides of a calendar.
fn overrides_of(cal: &Calendar) -> (r: Vec<OverrideInfo>)
    ensures
        override_list(r@) == override_infos(cal@),
{
    let ghost all = cal@;
    let mut out: Vec<OverrideInfo> = Vec::new();
    let mut i: usize = 0;
    proof {
        assert(all.take(0) =~= seq![]);
        assert(override_list(out@) =~= seq![]);
    }
    while i < cal.components.len()
        invariant
            0 <= i <= cal.components@.len(),
            all == crate::model::component_list(cal.components@),
            override_list(out@) == override_infos(all.take(i as int)),
        decreases cal.components@.len() - i,
    {
        let ghost before = out@;
        let c = &cal.components[i];
        proof {
            assert(all.take(i + 1).drop_last() =~= all.take(i as int));
            assert(all.take(i + 1).last() == c@);
        }
        if c.is_event() && c.is_override() {
            let all_day = crate::read::comp_all_day(c);
            let info = OverrideInfo {
                recurrence_id: override_recurrence_id(c, &Zone::Utc, all_day),
                summary: crate::read::text_prop(c, PropertyName::Summary),
            };
            let ghost v = info@;
            out.push(info);
            assert(override_list(out@) =~= override_list(before).push(v));
        }
        i = i + 1;
    }
    assert(all.take(i as int) =~= all);
    out
}

/// Projects a parsed calendar and its occurrences into the detail of its
/// event.
pub fn detail_of(cal: &Calendar, spans: &Vec<Option<Span>>, ics: &str, include_raw: bool) -> (r:
    Result<EventDetail, Error>)
    requires
        crate::ical::spans_ok(cal@, crate::ical::span_list(spans@)),
    ensures
        detail_result(r) == detail(
            cal@,
            earliest(cal@, crate::ical::span_list(spans@), spans@.len()),
            raw_text(ics@, include_raw),
        ),
{
    let at: usize = match crate::read::master_index(&cal.components) {
        Some(i) => i,
        None => {
            return Err(Error::NoEvent);
        },
    };
    let c = &cal.components[at];
    assert(c@ == cal@[at as int]);
    let all_day = crate::read::comp_all_day(c);
    let (start, end) = match find_earliest(cal, spans) {
        Some(s) => (Some(fmt_dt(s.start, all_day)), Some(fmt_dt(s.end, all_day))),
        None => (None, None),
    };
    let raw = if include_raw {
        Some(ics.to_owned())
    } else {
        None
    };
    Ok(
        EventDetail {
            uid: or_empty(crate::read::text_prop(c, PropertyName::Uid)),
            summary: crate::read::text_prop(c, PropertyName::Summary),
            description: crate::read::text_prop(c, PropertyName::Description),
            location: filled(crate::read::text_prop(c, PropertyName::Location)),
            status: status_of(c),
            start,
            end,
            all_day,
            recurring: c.is_recurrent(),
            rrule: rules_of(c),
            organizer: crate::read::text_prop(c, PropertyName::Organizer),
            attendees: attendees_of(c),
            overrides: overrides_of(cal),
            raw,
        },
    )
}

/// The earliest occurrence does not depend on the order of the overrides that
/// match no slot: it is found among those with a fixed order.
proof fn lemma_earliest(
    m: Seq<ComponentView>,
    limit: usize,
    spans: Seq<Option<SpanView>>,
    n: nat,
)
    requires
        crate::ical::unfolds(m, crate::ical::expansion(m, limit), spans),
        n <= spans.len(),
    ensures
        earliest(m, spans, n) == earliest(
            m,
            crate::ical::expansion(m, limit).0,
            if n <= crate::ical::expansion(m, limit).0.len() {
                n
            } else {
                crate::ical::expansion(m, limit).0.len()
            },
        ),
    decreases n,
{
    let fixed = crate::ical::expansion(m, limit).0;
    if n > 0 {
        lemma_earliest(m, limit, spans, (n - 1) as nat);
        if n <= fixed.len() {
            assert(spans.take(fixed.len() as int)[n - 1] == spans[n - 1]);
        } else {
            assert(spans[n - 1] matches Some(x) ==> crate::model::is_override(m[x.comp_id as int]));
        }
    }
}

/// The detail of the event in the first calendar of a text.
pub open spec fn text_detail(ics: Seq<char>, include_raw: bool) -> Result<DetailView, ErrorView> {
    match crate::ical::first_calendar(ics) {
        None => Err(ErrorView::NoCalendar),
        Some(m) => {
            let spans = crate::ical::expansion(m, EXPAND_LIMIT).0;
            detail(m, earliest(m, spans, spans.len()), raw_text(ics, include_raw))
        },
    }
}

/// Can the text of an event be read as what it was written from? A carriage
/// return would be dropped, the UID is written as it stands, and the times have
/// to be ones that a clock without leap seconds shows, in a year of four digits
/// in UTC.
pub open spec fn is_readable(e: EventFields) -> bool {
    &&& !e.uid.contains('\\') && !e.uid.contains('\n') && !e.uid.contains('\r')
    &&& !e.summary.contains('\r')
    &&& e.description matches Some(d) ==> !d.contains('\r')
    &&& e.location matches Some(l) ==> !l.contains('\r')
    &&& crate::civil::rfc3339(e.start) matches Some(t) && t.utc.valid() && t.utc.ordinary() && 0
        <= t.utc.year <= 9999
    &&& crate::civil::rfc3339(e.end) matches Some(t) && t.utc.valid() && t.utc.ordinary() && 0
        <= t.utc.year <= 9999
}

/// An RFC 3339 timestamp in UTC and in whole seconds.
pub open spec fn utc_text(s: Seq<char>) -> Seq<char> {
    moment_text(crate::ical::moment_at(crate::civil::rfc3339(s)->0.utc, 0), false)
}

/// The detail of an event that was written from these fields.
pub open spec fn written_detail(e: EventFields, raw: Option<Seq<char>>) -> DetailView {
    DetailView {
        uid: e.uid,
        summary: non_empty(Some(e.summary)),
        description: non_empty(e.description),
        location: non_empty(e.location),
        status: None,
        start: Some(utc_text(e.start)),
        end: Some(utc_text(e.end)),
        all_day: false,
        recurring: false,
        rrule: seq![],
        organizer: None,
        attendees: seq![],
        overrides: seq![],
        raw,
    }
}

/// Is the detail of a text, where it is that of an event that was written from
/// readable fields, made up of these fields?
pub open spec fn gives_fields_back(
    ics: Seq<char>,
    include_raw: bool,
    d: Result<DetailView, ErrorView>,
) -> bool {
    forall|e: EventFields, now: i64|
        crate::civil::min_seconds() <= now <= crate::civil::max_seconds()
            && #[trigger] crate::icloud::vevent(e, now) == Ok::<Seq<char>, ErrorView>(ics)
            && is_readable(e) ==> d == Ok::<DetailView, ErrorView>(
            written_detail(e, raw_text(ics, include_raw)),
        )
}

/// The lines of an event.
pub open spec fn event_lines(e: EventFields, stamp: Civil, start: Civil, end: Civil) -> Seq<
    LineView,
> {
    let must = seq![
        LineView::Bare(PropertyName::Uid, e.uid),
        LineView::Instant(PropertyName::Dtstamp, stamp),
        LineView::Instant(PropertyName::Dtstart, start),
        LineView::Instant(PropertyName::Dtend, end),
        LineView::Text(PropertyName::Summary, e.summary),
    ];
    let some = match e.description {
        Some(d) => must.push(LineView::Text(PropertyName::Description, d)),
        None => must,
    };
    match e.location {
        Some(l) => some.push(LineView::Text(PropertyName::Location, l)),
        None => some,
    }
}

/// One more line stands behind the others.
proof fn lemma_contents_push(lines: Seq<LineView>, l: LineView)
    ensures
        crate::ical::contents(lines.push(l)) == crate::ical::contents(lines)
            + crate::ical::content(l),
{
    assert(lines.push(l).drop_last() =~= lines);
}

/// One more line stands behind the others, whatever stands before them.
proof fn lemma_behind(head: Seq<char>, lines: Seq<LineView>, l: LineView)
    ensures
        head + crate::ical::contents(lines.push(l)) == head + crate::ical::contents(lines)
            + crate::ical::content(l),
{
    lemma_contents_push(lines, l);
    assert(head + (crate::ical::contents(lines) + crate::ical::content(l)) =~= head
        + crate::ical::contents(lines) + crate::ical::content(l));
}

/// The line of the product, and what stands in it.
proof fn lemma_product()
    ensures
        crate::icloud::line("PRODID:-//mcp-icloud-calendar-rs//EN"@, seq![])
            == crate::icloud::line("PRODID:"@, "-//mcp-icloud-calendar-rs//EN"@),
        !"-//mcp-icloud-calendar-rs//EN"@.contains('\\'),
        !"-//mcp-icloud-calendar-rs//EN"@.contains('\n'),
        !"-//mcp-icloud-calendar-rs//EN"@.contains('\r'),
{
    reveal_strlit("PRODID:-//mcp-icloud-calendar-rs//EN");
    reveal_strlit("PRODID:");
    reveal_strlit("-//mcp-icloud-calendar-rs//EN");
    assert("PRODID:-//mcp-icloud-calendar-rs//EN"@ + Seq::<char>::empty() =~= "PRODID:"@
        + "-//mcp-icloud-calendar-rs//EN"@);
}

/// The text of an event is a calendar text with one event of its lines.
proof fn lemma_vevent_is_document(e: EventFields, stamp: Civil, start: Civil, end: Civil)
    ensures
        crate::icloud::vevent_text(
            e,
            crate::civil::basic_utc_text(stamp),
            crate::civil::basic_utc_text(start),
            crate::civil::basic_utc_text(end),
        ) == crate::ical::document(
            "-//mcp-icloud-calendar-rs//EN"@,
            event_lines(e, stamp, start, end),
        ),
{
    let none = Seq::<char>::empty();
    let head = crate::icloud::line("BEGIN:VCALENDAR"@, none) + crate::icloud::line(
        "VERSION:2.0"@,
        none,
    ) + crate::icloud::line("PRODID:"@, "-//mcp-icloud-calendar-rs//EN"@) + crate::icloud::line(
        "BEGIN:VEVENT"@,
        none,
    );
    let l1 = LineView::Bare(PropertyName::Uid, e.uid);
    let l2 = LineView::Instant(PropertyName::Dtstamp, stamp);
    let l3 = LineView::Instant(PropertyName::Dtstart, start);
    let l4 = LineView::Instant(PropertyName::Dtend, end);
    let l5 = LineView::Text(PropertyName::Summary, e.summary);
    let s0 = Seq::<LineView>::empty();
    let s1 = s0.push(l1);
    let s2 = s1.push(l2);
    let s3 = s2.push(l3);
    let s4 = s3.push(l4);
    let s5 = s4.push(l5);
    let s6 = match e.description {
        Some(d) => s5.push(LineView::Text(PropertyName::Description, d)),
        None => s5,
    };
    lemma_product();
    assert(s5 =~= seq![l1, l2, l3, l4, l5]);
    assert(head + crate::ical::contents(s0) =~= head);
    lemma_behind(head, s0, l1);
    lemma_behind(head, s1, l2);
    lemma_behind(head, s2, l3);
    lemma_behind(head, s3, l4);
    lemma_behind(head, s4, l5);
    let t5 = head + crate::ical::contents(s5);
    let t6 = head + crate::ical::contents(s6);
    match e.description {
        Some(d) => {
            lemma_behind(head, s5, LineView::Text(PropertyName::Description, d));
        },
        None => {
            assert(t5 + none =~= t5);
        },
    }
    match e.location {
        Some(l) => {
            lemma_behind(head, s6, LineView::Text(PropertyName::Location, l));
        },
        None => {
            assert(t6 + none =~= t6);
        },
    }
}

/// What a lookup finds among the entries of the lines of an event.
proof fn lemma_event_property(
    e: EventFields,
    stamp: Civil,
    start: Civil,
    end: Civil,
    p: PropertyName,
)
    ensures
        crate::read::property(
            event_lines(e, stamp, start, end).map_values(
                |l: LineView| crate::ical::line_entry(l),
            ),
            p,
        ) == match p {
            PropertyName::Uid => Some(
                crate::ical::line_entry(LineView::Bare(p, e.uid))->Known_0,
            ),
            PropertyName::Dtstamp => Some(
                crate::ical::line_entry(LineView::Instant(p, stamp))->Known_0,
            ),
            PropertyName::Dtstart => Some(
                crate::ical::line_entry(LineView::Instant(p, start))->Known_0,
            ),
            PropertyName::Dtend => Some(
                crate::ical::line_entry(LineView::Instant(p, end))->Known_0,
            ),
            PropertyName::Summary => Some(
                crate::ical::line_entry(LineView::Text(p, e.summary))->Known_0,
            ),
            PropertyName::Description => match e.description {
                Some(d) => Some(crate::ical::line_entry(LineView::Text(p, d))->Known_0),
                None => None,
            },
            PropertyName::Location => match e.location {
                Some(l) => Some(crate::ical::line_entry(LineView::Text(p, l))->Known_0),
                None => None,
            },
            _ => None,
        },
{
    let f = |l: LineView| crate::ical::line_entry(l);
    let l1 = LineView::Bare(PropertyName::Uid, e.uid);
    let l2 = LineView::Instant(PropertyName::Dtstamp, stamp);
    let l3 = LineView::Instant(PropertyName::Dtstart, start);
    let l4 = LineView::Instant(PropertyName::Dtend, end);
    let l5 = LineView::Text(PropertyName::Summary, e.summary);
    let s0 = Seq::<EntryView>::empty();
    let s1 = s0.push(f(l1));
    let s2 = s1.push(f(l2));
    let s3 = s2.push(f(l3));
    let s4 = s3.push(f(l4));
    let s5 = s4.push(f(l5));
    let s6 = match e.description {
        Some(d) => s5.push(f(LineView::Text(PropertyName::Description, d))),
        None => s5,
    };
    let s7 = match e.location {
        Some(l) => s6.push(f(LineView::Text(PropertyName::Location, l))),
        None => s6,
    };
    assert(event_lines(e, stamp, start, end).map_values(f) =~= s7);
    crate::write::lemma_pushed(s0, f(l1), p);
    crate::write::lemma_pushed(s1, f(l2), p);
    crate::write::lemma_pushed(s2, f(l3), p);
    crate::write::lemma_pushed(s3, f(l4), p);
    crate::write::lemma_pushed(s4, f(l5), p);
    if let Some(d) = e.description {
        crate::write::lemma_pushed(s5, f(LineView::Text(PropertyName::Description, d)), p);
    }
    if let Some(l) = e.location {
        crate::write::lemma_pushed(s6, f(LineView::Text(PropertyName::Location, l)), p);
    }
}

/// Without rules, attendees and a status, none is found.
proof fn lemma_nothing_more(entries: Seq<EntryView>)
    requires
        forall|i: int|
            0 <= i < entries.len() ==> !crate::model::named(
                #[trigger] entries[i],
                PropertyName::Rrule,
            ) && !crate::model::named(entries[i], PropertyName::Attendee) && !crate::model::named(
                entries[i],
                PropertyName::Status,
            ),
    ensures
        rules(entries) == Seq::<Seq<char>>::empty(),
        attendees(entries) == Seq::<Seq<char>>::empty(),
        status(entries) is None,
    decreases entries.len(),
{
    if entries.len() > 0 {
        assert(!crate::model::named(entries[entries.len() - 1], PropertyName::Rrule));
        assert forall|i: int| 0 <= i < entries.drop_last().len() implies !crate::model::named(
            #[trigger] entries.drop_last()[i],
            PropertyName::Rrule,
        ) && !crate::model::named(entries.drop_last()[i], PropertyName::Attendee)
            && !crate::model::named(entries.drop_last()[i], PropertyName::Status) by {
            assert(entries.drop_last()[i] == entries[i]);
        }
        lemma_nothing_more(entries.drop_last());
    }
}

/// A calendar with one event of the lines of an event has the detail that the
/// event was written from.
proof fn lemma_written_detail(
    m: Seq<ComponentView>,
    e: EventFields,
    stamp: Civil,
    raw: Option<Seq<char>>,
)
    requires
        is_readable(e),
        crate::ical::holds_lines(
            m,
            event_lines(
                e,
                stamp,
                crate::civil::rfc3339(e.start)->0.utc,
                crate::civil::rfc3339(e.end)->0.utc,
            ),
        ),
    ensures
        crate::ical::lone_event(m),
        detail(m, Some(crate::ical::lone_span(m)), raw) == Ok::<DetailView, ErrorView>(
            written_detail(e, raw),
        ),
        !crate::model::is_override(m[1]),
{
    let start = crate::civil::rfc3339(e.start)->0.utc;
    let end = crate::civil::rfc3339(e.end)->0.utc;
    let c = m[1];
    let lines = event_lines(e, stamp, start, end);
    let own = |x: ComponentView| crate::read::is_event(x) && !crate::model::is_override(x);
    lemma_event_property(e, stamp, start, end, PropertyName::Uid);
    lemma_event_property(e, stamp, start, end, PropertyName::Dtstart);
    lemma_event_property(e, stamp, start, end, PropertyName::Dtend);
    lemma_event_property(e, stamp, start, end, PropertyName::Summary);
    lemma_event_property(e, stamp, start, end, PropertyName::Description);
    lemma_event_property(e, stamp, start, end, PropertyName::Location);
    lemma_event_property(e, stamp, start, end, PropertyName::Organizer);
    lemma_event_property(e, stamp, start, end, PropertyName::RecurrenceId);
    lemma_event_property(e, stamp, start, end, PropertyName::Rrule);
    lemma_event_property(e, stamp, start, end, PropertyName::Rdate);
    crate::write::lemma_has(c, PropertyName::RecurrenceId);
    crate::write::lemma_has(c, PropertyName::Rrule);
    crate::write::lemma_has(c, PropertyName::Rdate);
    assert(own(m[1]) && !own(m[0]));
    assert(crate::read::is_first(m, own, 1));
    crate::read::lemma_position(m, own, 1);
    crate::laws::lemma_stored(start, true);
    crate::laws::lemma_stored(end, true);
    assert forall|i: int| 0 <= i < c.entries.len() implies !crate::model::named(
        #[trigger] c.entries[i],
        PropertyName::Rrule,
    ) && !crate::model::named(c.entries[i], PropertyName::Attendee) && !crate::model::named(
        c.entries[i],
        PropertyName::Status,
    ) by {
        assert(c.entries[i] == crate::ical::line_entry(lines[i]));
    }
    lemma_nothing_more(c.entries);
    assert forall|i: int|
        0 <= i < c.entries.len() && crate::model::named(
            #[trigger] c.entries[i],
            PropertyName::Dtstart,
        ) implies c.entries[i] == crate::ical::line_entry(
        LineView::Instant(PropertyName::Dtstart, start),
    ) by {
        assert(c.entries[i] == crate::ical::line_entry(lines[i]));
    }
    assert forall|i: int|
        0 <= i < c.entries.len() && crate::model::named(
            #[trigger] c.entries[i],
            PropertyName::Dtend,
        ) implies c.entries[i] == crate::ical::line_entry(
        LineView::Instant(PropertyName::Dtend, end),
    ) by {
        assert(c.entries[i] == crate::ical::line_entry(lines[i]));
    }
    reveal_with_fuel(override_infos, 3);
    assert(m.drop_last().drop_last() =~= seq![]);
    assert(m.last() == m[1] && m.drop_last().last() == m[0]);
    assert(override_infos(m) =~= seq![]);
    assert(crate::read::text(c, PropertyName::Summary) == non_empty(Some(e.summary)));
    assert(crate::read::text(c, PropertyName::Description) == non_empty(e.description));
    assert(crate::read::text(c, PropertyName::Location) == non_empty(e.location));
    assert(text_or_empty(crate::read::text(c, PropertyName::Uid)) =~= e.uid);
    assert(Civil { nano: 0, ..start }.seconds() == start.seconds());
    assert(Civil { nano: 0, ..end }.seconds() == end.seconds());
    assert(!crate::read::all_day(c));
}

/// The stamp of an event that could be written is an instant in a year of four
/// digits.
proof fn lemma_stamp_is_plain(now: i64)
    requires
        crate::civil::min_seconds() <= now <= crate::civil::max_seconds(),
        crate::icloud::caldav_utc(crate::icloud::zulu(now)) is Ok,
    ensures
        crate::icloud::caldav_utc(crate::icloud::zulu(now)) == Ok::<Seq<char>, ErrorView>(
            crate::civil::basic_utc_text(crate::civil::at(now as int, 0)),
        ),
        crate::ical::is_plain(
            LineView::Instant(PropertyName::Dtstamp, crate::civil::at(now as int, 0)),
        ),
{
    let stamp = crate::civil::at(now as int, 0);
    crate::civil::lemma_at(now as int, 0);
    if !(0 <= stamp.year <= 9999) {
        crate::civil::lemma_other_years_are_signed(stamp);
        assert(crate::icloud::zulu(now)[0] == crate::civil::date_time_text(stamp)[0]);
    }
    crate::icloud::stamp_is_now(now);
}

/// A calendar that is the only entry is the only calendar.
proof fn lemma_one_calendar(entries: Seq<Option<Seq<ComponentView>>>)
    requires
        entries.len() == 1,
        entries[0] is Some,
    ensures
        crate::ical::calendars_in(entries) == seq![entries[0]->0],
{
    reveal_with_fuel(crate::ical::calendars_in, 2);
    assert(entries.drop_last() =~= seq![]);
    assert(entries.last() == entries[0]);
    assert(crate::ical::calendars_in(entries) =~= seq![entries[0]->0]);
}

/// All lines of an event are plain where its texts and its instants are.
proof fn lemma_lines_are_plain(e: EventFields, stamp: Civil, start: Civil, end: Civil, i: int)
    requires
        crate::ical::is_plain(LineView::Bare(PropertyName::Uid, e.uid)),
        crate::ical::is_plain(LineView::Instant(PropertyName::Dtstamp, stamp)),
        crate::ical::is_plain(LineView::Instant(PropertyName::Dtstart, start)),
        crate::ical::is_plain(LineView::Instant(PropertyName::Dtend, end)),
        crate::ical::is_plain(LineView::Text(PropertyName::Summary, e.summary)),
        e.description matches Some(d) ==> crate::ical::is_plain(
            LineView::Text(PropertyName::Description, d),
        ),
        e.location matches Some(l) ==> crate::ical::is_plain(
            LineView::Text(PropertyName::Location, l),
        ),
        0 <= i < event_lines(e, stamp, start, end).len(),
    ensures
        crate::ical::is_plain(event_lines(e, stamp, start, end)[i]),
{
    let l = event_lines(e, stamp, start, end)[i];
    if i == 0 {
        assert(l == LineView::Bare(PropertyName::Uid, e.uid));
    } else if i == 1 {
        assert(l == LineView::Instant(PropertyName::Dtstamp, stamp));
    } else if i == 2 {
        assert(l == LineView::Instant(PropertyName::Dtstart, start));
    } else if i == 3 {
        assert(l == LineView::Instant(PropertyName::Dtend, end));
    } else if i == 4 {
        assert(l == LineView::Text(PropertyName::Summary, e.summary));
    } else if i == 5 && e.description is Some {
        assert(l == LineView::Text(PropertyName::Description, e.description->0));
    } else {
        assert(l == LineView::Text(PropertyName::Location, e.location->0));
    }
}

/// The lines of an event that is written at `now`.
pub open spec fn written_lines(e: EventFields, now: i64) -> Seq<LineView> {
    event_lines(
        e,
        crate::civil::at(now as int, 0),
        crate::civil::rfc3339(e.start)->0.utc,
        crate::civil::rfc3339(e.end)->0.utc,
    )
}

/// A text that was written from readable fields is read as a calendar with one
/// event of its lines.
proof fn lemma_written_calendar(ics: Seq<char>, e: EventFields, now: i64)
    requires
        crate::civil::min_seconds() <= now <= crate::civil::max_seconds(),
        crate::icloud::vevent(e, now) == Ok::<Seq<char>, ErrorView>(ics),
        is_readable(e),
        crate::ical::reads_documents(ics, crate::ical::text_entries(ics)),
    ensures
        crate::ical::calendars_in(crate::ical::text_entries(ics)).len() == 1,
        crate::ical::first_calendar(ics) is Some,
        crate::ical::holds_lines(crate::ical::first_calendar(ics)->0, written_lines(e, now)),
{
    let stamp = crate::civil::at(now as int, 0);
    let start = crate::civil::rfc3339(e.start)->0.utc;
    let end = crate::civil::rfc3339(e.end)->0.utc;
    let lines = written_lines(e, now);
    let product = "-//mcp-icloud-calendar-rs//EN"@;
    let entries = crate::ical::text_entries(ics);
    lemma_stamp_is_plain(now);
    lemma_vevent_is_document(e, stamp, start, end);
    lemma_product();
    assert forall|i: int| 0 <= i < lines.len() implies crate::ical::is_plain(
        #[trigger] lines[i],
    ) by {
        lemma_lines_are_plain(e, stamp, start, end, i);
    }
    assert(ics == crate::ical::document(product, lines));
    lemma_one_calendar(entries);
}

/// The earliest occurrence of a lone event is its only one.
proof fn lemma_lone_earliest(m: Seq<ComponentView>, spans: Seq<Option<SpanView>>)
    requires
        crate::ical::lone_event(m),
        crate::ical::unfolds(m, crate::ical::expansion(m, EXPAND_LIMIT), spans),
    ensures
        earliest(
            m,
            crate::ical::expansion(m, EXPAND_LIMIT).0,
            crate::ical::expansion(m, EXPAND_LIMIT).0.len(),
        ) == Some(crate::ical::lone_span(m)),
{
    let fixed = crate::ical::expansion(m, EXPAND_LIMIT).0;
    assert(spans[0] == Some(crate::ical::lone_span(m)));
    assert(spans.len() == 1);
    reveal_with_fuel(earliest, 2);
    assert(earliest(m, spans, 1) == Some(crate::ical::lone_span(m)));
    lemma_earliest(m, EXPAND_LIMIT, spans, 1);
}

/// The detail of a text that was written from readable fields.
proof fn lemma_gives_fields_back(
    ics: Seq<char>,
    include_raw: bool,
    spans: Seq<Option<SpanView>>,
    e: EventFields,
    now: i64,
)
    requires
        crate::civil::min_seconds() <= now <= crate::civil::max_seconds(),
        crate::icloud::vevent(e, now) == Ok::<Seq<char>, ErrorView>(ics),
        is_readable(e),
        crate::ical::reads_documents(ics, crate::ical::text_entries(ics)),
        crate::ical::first_calendar(ics) matches Some(m) ==> crate::ical::unfolds(
            m,
            crate::ical::expansion(m, EXPAND_LIMIT),
            spans,
        ),
    ensures
        text_detail(ics, include_raw) == Ok::<DetailView, ErrorView>(
            written_detail(e, raw_text(ics, include_raw)),
        ),
{
    let m = crate::ical::first_calendar(ics)->0;
    lemma_written_calendar(ics, e, now);
    lemma_written_detail(m, e, crate::civil::at(now as int, 0), raw_text(ics, include_raw));
    lemma_lone_earliest(m, spans);
}

/// The times in the detail of a written event are the instants that it was
/// written from, in whole seconds.
pub proof fn written_times_are_the_instants(s: Seq<char>)
    requires
        crate::civil::rfc3339(s) is Some,
        crate::civil::rfc3339(s)->0.utc.valid(),
        0 <= crate::civil::rfc3339(s)->0.utc.year <= 9999,
    ensures
        ({
            let c = crate::civil::rfc3339(s)->0.utc;
            let whole = Civil { nano: 0, ..c };
            &&& crate::civil::rfc3339(utc_text(s)) == Some(Stamp { local: whole, utc: whole })
            &&& whole.seconds() == c.seconds()
        }),
{
    let c = crate::civil::rfc3339(s)->0.utc;
    let whole = Civil { nano: 0, ..c };
    let m = crate::ical::moment_at(c, 0);
    crate::civil::lemma_seconds_bounded(c);
    crate::civil::lemma_seconds_in_range(c);
    crate::civil::wall_clock_is_unique(whole);
    assert(whole.seconds() == c.seconds());
    crate::civil::moment_reads_back(m);
}

/// Projects the text of a resource into the detail of its event. The original
/// text is part of it only where that is asked for. The text of an event that
/// was written from readable fields gives these fields back.
pub fn project_detail(ics: &str, include_raw: bool) -> (r: Result<EventDetail, Error>)
    ensures
        detail_result(r) == text_detail(ics@, include_raw),
        gives_fields_back(ics@, include_raw, detail_result(r)),
{
    let c = match crate::ical::parse_one(ics) {
        Ok(c) => c,
        Err(e) => {
            proof {
                assert forall|f: EventFields, now: i64|
                    crate::civil::min_seconds() <= now <= crate::civil::max_seconds()
                        && #[trigger] crate::icloud::vevent(f, now) == Ok::<Seq<char>, ErrorView>(
                        ics@,
                    ) && is_readable(f) implies text_detail(ics@, include_raw) == Ok::<
                    DetailView,
                    ErrorView,
                >(written_detail(f, raw_text(ics@, include_raw))) by {
                    lemma_gives_fields_back(ics@, include_raw, seq![], f, now);
                }
            }
            return Err(e);
        },
    };
    let ghost m = crate::ical::calendar_view(c);
    let spans = crate::ical::expand(&c, EXPAND_LIMIT);
    let cal = crate::ical::import_calendar(c);
    proof {
        lemma_earliest(m, EXPAND_LIMIT, crate::ical::span_list(spans@), spans@.len());
        assert forall|f: EventFields, now: i64|
            crate::civil::min_seconds() <= now <= crate::civil::max_seconds()
                && #[trigger] crate::icloud::vevent(f, now) == Ok::<Seq<char>, ErrorView>(ics@)
                && is_readable(f) implies text_detail(ics@, include_raw) == Ok::<
            DetailView,
            ErrorView,
        >(written_detail(f, raw_text(ics@, include_raw))) by {
            lemma_gives_fields_back(ics@, include_raw, crate::ical::span_list(spans@), f, now);
        }
    }
    detail_of(&cal, &spans, ics, include_raw)
}

/// Do the rows come by their starts?
pub open spec fn in_order(s: Seq<Row>) -> bool {
    forall|i: int, j: int| 0 <= i <= j < s.len() ==> #[trigger] s[i].0 <= #[trigger] s[j].0
}

/// Putting a row in its place keeps a bound on the starts.
proof fn lemma_placed_bound(s: Seq<Row>, x: Row, bound: i64)
    requires
        forall|i: int| 0 <= i < s.len() ==> (#[trigger] s[i]).0 <= bound,
        x.0 <= bound,
    ensures
        forall|i: int| 0 <= i < placed(s, x).len() ==> (#[trigger] placed(s, x)[i]).0 <= bound,
    decreases s.len(),
{
    let out = placed(s, x);
    if s.len() > 0 && s.last().0 > x.0 {
        let front = placed(s.drop_last(), x);
        lemma_placed_bound(s.drop_last(), x, bound);
        assert(s[s.len() - 1].0 <= bound);
        assert forall|i: int| 0 <= i < out.len() implies (#[trigger] out[i]).0 <= bound by {
            if i < front.len() {
                assert(out[i] == front[i]);
            }
        }
    } else {
        assert forall|i: int| 0 <= i < out.len() implies (#[trigger] out[i]).0 <= bound by {
            if i < s.len() {
                assert(out[i] == s[i]);
            }
        }
    }
}

/// Putting a row in its place keeps the order.
proof fn lemma_placed_in_order(s: Seq<Row>, x: Row)
    requires
        in_order(s),
    ensures
        in_order(placed(s, x)),
    decreases s.len(),
{
    if s.len() > 0 && s.last().0 > x.0 {
        let front = s.drop_last();
        lemma_placed_in_order(front, x);
        lemma_placed_bound(front, x, s.last().0);
    }
}

/// The occurrences are listed by their starts.
pub proof fn agenda_is_in_order(s: Seq<Row>)
    ensures
        in_order(by_start(s)),
    decreases s.len(),
{
    if s.len() > 0 {
        agenda_is_in_order(s.drop_last());
        lemma_placed_in_order(by_start(s.drop_last()), s.last());
    }
}

/// Putting a row in its place puts it behind those of its own start.
proof fn lemma_placed_stable(s: Seq<Row>, x: Row, start: i64)
    ensures
        placed(s, x).filter(|r: Row| r.0 == start) == if x.0 == start {
            s.filter(|r: Row| r.0 == start).push(x)
        } else {
            s.filter(|r: Row| r.0 == start)
        },
    decreases s.len(),
{
    reveal(Seq::filter);
    let p = |r: Row| r.0 == start;
    if s.len() == 0 || s.last().0 <= x.0 {
        assert(s.push(x).drop_last() =~= s);
    } else {
        let front = s.drop_last();
        lemma_placed_stable(front, x, start);
        let out = placed(front, x).push(s.last());
        assert(out.drop_last() =~= placed(front, x));
    }
}

/// Occurrences with one start are listed in the order in which they were found.
pub proof fn agenda_is_stable(s: Seq<Row>, start: i64)
    ensures
        by_start(s).filter(|r: Row| r.0 == start) == s.filter(|r: Row| r.0 == start),
    decreases s.len(),
{
    reveal(Seq::filter);
    if s.len() > 0 {
        agenda_is_stable(s.drop_last(), start);
        lemma_placed_stable(by_start(s.drop_last()), s.last(), start);
    }
}

/// Putting a row in its place adds that row alone.
proof fn lemma_placed_multiset(s: Seq<Row>, x: Row)
    ensures
        placed(s, x).to_multiset() == s.to_multiset().insert(x),
    decreases s.len(),
{
    broadcast use vstd::seq_lib::group_to_multiset_ensures;

    if s.len() > 0 && s.last().0 > x.0 {
        let front = s.drop_last();
        lemma_placed_multiset(front, x);
        assert(s =~= front.push(s.last()));
        assert(placed(s, x).to_multiset() =~= s.to_multiset().insert(x));
    }
}

/// Ordering the occurrences neither loses nor repeats one.
pub proof fn agenda_keeps_all(s: Seq<Row>)
    ensures
        by_start(s).to_multiset() == s.to_multiset(),
    decreases s.len(),
{
    broadcast use vstd::seq_lib::group_to_multiset_ensures;

    if s.len() > 0 {
        agenda_keeps_all(s.drop_last());
        lemma_placed_multiset(by_start(s.drop_last()), s.last());
        assert(s =~= s.drop_last().push(s.last()));
    }
}

/// Is `x` the row of the occurrence `k` of a resource?
pub open spec fn row_from(r: ResourceView, k: int, from: i64, to: i64, x: Row) -> bool {
    0 <= k < r.spans.len() && (r.spans[k] matches Some(s) && overlaps(s, from, to) && x == (
        s.start.timestamp,
        listed(r.calendar[s.comp_id as int], s, r.href, r.etag),
    ))
}

/// The rows of a resource are those of its occurrences in the window.
proof fn lemma_rows_of(r: ResourceView, n: nat, from: i64, to: i64, x: Row)
    requires
        n <= r.spans.len(),
    ensures
        rows_of(r, n, from, to).contains(x) <==> exists|k: int|
            k < n && #[trigger] row_from(r, k, from, to, x),
    decreases n,
{
    if n > 0 {
        lemma_rows_of(r, (n - 1) as nat, from, to, x);
        let front = rows_of(r, (n - 1) as nat, from, to);
        let all = rows_of(r, n, from, to);
        if row_from(r, n - 1, from, to, x) {
            assert(all[front.len() as int] == x);
        }
        if front.contains(x) {
            let j = choose|j: int| 0 <= j < front.len() && front[j] == x;
            assert(all[j] == x);
            let k = choose|k: int| k < n - 1 && #[trigger] row_from(r, k, from, to, x);
            assert(k < n && row_from(r, k, from, to, x));
        }
        if all.contains(x) && !front.contains(x) {
            let j = choose|j: int| 0 <= j < all.len() && all[j] == x;
            if j < front.len() {
                assert(front[j] == x);
            }
            assert(row_from(r, n - 1, from, to, x));
        }
        if exists|k: int| k < n && #[trigger] row_from(r, k, from, to, x) {
            let k = choose|k: int| k < n && #[trigger] row_from(r, k, from, to, x);
            if k < n - 1 {
                assert(k < n - 1 && row_from(r, k, from, to, x));
            }
        }
    }
}

/// A row is found exactly where some resource has an occurrence for it that
/// overlaps the window.
pub proof fn rows_are_what_overlaps(s: Seq<ResourceView>, from: i64, to: i64, x: Row)
    ensures
        rows(s, from, to).contains(x) <==> exists|i: int, k: int|
            0 <= i < s.len() && #[trigger] row_from(s[i], k, from, to, x),
    decreases s.len(),
{
    if s.len() > 0 {
        let front = rows(s.drop_last(), from, to);
        let own = rows_of(s.last(), s.last().spans.len(), from, to);
        let all = front + own;
        rows_are_what_overlaps(s.drop_last(), from, to, x);
        lemma_rows_of(s.last(), s.last().spans.len(), from, to, x);
        if all.contains(x) {
            let j = choose|j: int| 0 <= j < all.len() && all[j] == x;
            if j < front.len() {
                assert(front[j] == x);
                let (i, k) = choose|i: int, k: int|
                    0 <= i < s.drop_last().len() && #[trigger] row_from(
                        s.drop_last()[i],
                        k,
                        from,
                        to,
                        x,
                    );
                assert(row_from(s[i], k, from, to, x));
            } else {
                assert(own[j - front.len()] == x);
                let k = choose|k: int|
                    k < s.last().spans.len() && #[trigger] row_from(s.last(), k, from, to, x);
                assert(row_from(s[s.len() - 1], k, from, to, x));
            }
        }
        if exists|i: int, k: int| 0 <= i < s.len() && #[trigger] row_from(s[i], k, from, to, x) {
            let (i, k) = choose|i: int, k: int|
                0 <= i < s.len() && #[trigger] row_from(s[i], k, from, to, x);
            if i < s.len() - 1 {
                assert(row_from(s.drop_last()[i], k, from, to, x));
                let j = choose|j: int| 0 <= j < front.len() && front[j] == x;
                assert(all[j] == x);
            } else {
                assert(k < s.last().spans.len() && row_from(s.last(), k, from, to, x));
                let j = choose|j: int| 0 <= j < own.len() && own[j] == x;
                assert(all[front.len() + j] == x);
            }
        }
    }
}

/// An occurrence is listed exactly where some resource has it in the window.
pub proof fn agenda_is_what_overlaps(
    s: Seq<ResourceView>,
    from: i64,
    to: i64,
    o: OccurrenceView,
)
    ensures
        agenda(s, from, to).contains(o) <==> exists|start: i64, i: int, k: int|
            0 <= i < s.len() && #[trigger] row_from(s[i], k, from, to, (start, o)),
{
    broadcast use vstd::seq_lib::group_to_multiset_ensures;

    let found = rows(s, from, to);
    let sorted = by_start(found);
    let out = agenda(s, from, to);
    agenda_keeps_all(found);
    assert forall|x: Row| #[trigger] sorted.contains(x) <==> found.contains(x) by {
        assert(sorted.contains(x) <==> sorted.to_multiset().count(x) > 0);
        assert(found.contains(x) <==> found.to_multiset().count(x) > 0);
    }
    if out.contains(o) {
        let j = choose|j: int| 0 <= j < out.len() && out[j] == o;
        let x = sorted[j];
        assert(sorted.contains(x));
        rows_are_what_overlaps(s, from, to, x);
        let (i, k) = choose|i: int, k: int|
            0 <= i < s.len() && #[trigger] row_from(s[i], k, from, to, x);
        assert(row_from(s[i], k, from, to, (x.0, o)));
    }
    if exists|start: i64, i: int, k: int|
        0 <= i < s.len() && #[trigger] row_from(s[i], k, from, to, (start, o)) {
        let (start, i, k) = choose|start: i64, i: int, k: int|
            0 <= i < s.len() && #[trigger] row_from(s[i], k, from, to, (start, o));
        rows_are_what_overlaps(s, from, to, (start, o));
        assert(sorted.contains((start, o)));
        let j = choose|j: int| 0 <= j < sorted.len() && sorted[j] == (start, o);
        assert(out[j] == o);
    }
}

/// Dates that a series excludes are dropped: no occurrence that the series
/// generates starts at one of its `EXDATE`s.
pub proof fn excluded_dates_are_dropped(s: SourceView, r: ResourceView, k: int, q: int)
    requires
        expands(s, r),
        0 <= k < r.spans.len(),
        r.spans[k] is Some,
        crate::ical::generates(r.calendar[r.spans[k]->0.comp_id as int]),
        0 <= q < r.calendar[r.spans[k]->0.comp_id as int].entries.len(),
    ensures
        !crate::ical::excludes(
            r.calendar[r.spans[k]->0.comp_id as int],
            q,
            r.spans[k]->0,
        ),
{
}

/// An override takes the place of its slot: no occurrence that the series
/// generates starts when an override that is listed beside it says its slot is.
pub proof fn override_replaces_its_slot(s: SourceView, r: ResourceView, k: int, o: int)
    requires
        expands(s, r),
        0 <= k < r.spans.len(),
        0 <= o < r.spans.len(),
        r.spans[k] is Some,
        r.spans[o] is Some,
        crate::ical::generates(r.calendar[r.spans[k]->0.comp_id as int]),
        crate::ical::sole_rule(r.calendar, r.spans[k]->0.comp_id as int),
        crate::ical::reads_once(r.spans[k]->0),
    ensures
        !crate::ical::stands_for(
            r.calendar[r.spans[o]->0.comp_id as int],
            r.calendar[r.spans[k]->0.comp_id as int],
            r.spans[k]->0,
        ),
{
}

/// What `f` makes of each item, one behind the other.
pub open spec fn gathered<A, B>(s: Seq<A>, f: spec_fn(A) -> Seq<B>) -> Seq<B>
    decreases s.len(),
{
    if s.len() == 0 {
        seq![]
    } else {
        gathered(s.drop_last(), f) + f(s.last())
    }
}

/// Two lists are gathered one behind the other.
proof fn lemma_gathered_together<A, B>(a: Seq<A>, b: Seq<A>, f: spec_fn(A) -> Seq<B>)
    ensures
        gathered(a + b, f) == gathered(a, f) + gathered(b, f),
    decreases b.len(),
{
    if b.len() == 0 {
        assert(a + b =~= a);
        assert(gathered(a, f) + gathered(b, f) =~= gathered(a, f));
    } else {
        assert((a + b).drop_last() =~= a + b.drop_last());
        lemma_gathered_together(a, b.drop_last(), f);
        assert(gathered(a + b, f) =~= gathered(a, f) + gathered(b, f));
    }
}

/// Taking an item out of a list takes out what `f` makes of it.
proof fn lemma_gathered_without<A, B>(s: Seq<A>, i: int, f: spec_fn(A) -> Seq<B>)
    requires
        0 <= i < s.len(),
    ensures
        gathered(s, f).to_multiset() == gathered(s.remove(i), f).to_multiset().add(
            f(s[i]).to_multiset(),
        ),
{
    let before = s.take(i);
    let after = s.skip(i + 1);
    let upto = before.push(s[i]);
    assert(s =~= upto + after);
    assert(s.remove(i) =~= before + after);
    assert(upto.drop_last() =~= before);
    lemma_gathered_together(upto, after, f);
    lemma_gathered_together(before, after, f);
    vstd::seq_lib::lemma_multiset_commutative(gathered(before, f), f(s[i]));
    vstd::seq_lib::lemma_multiset_commutative(gathered(upto, f), gathered(after, f));
    vstd::seq_lib::lemma_multiset_commutative(gathered(before, f), gathered(after, f));
    assert(gathered(s, f).to_multiset() =~= gathered(s.remove(i), f).to_multiset().add(
        f(s[i]).to_multiset(),
    ));
}

/// The items of two lists that hold the same are found in one another.
proof fn lemma_found<A>(a: Seq<A>, b: Seq<A>) -> (i: int)
    requires
        a.to_multiset() == b.to_multiset(),
        b.len() > 0,
    ensures
        0 <= i < a.len(),
        a[i] == b.last(),
        a.remove(i).to_multiset() == b.drop_last().to_multiset(),
{
    broadcast use vstd::seq_lib::group_to_multiset_ensures;

    let x = b.last();
    assert(b.contains(x));
    assert(b.to_multiset().count(x) > 0);
    assert(a.contains(x));
    let i = choose|i: int| 0 <= i < a.len() && a[i] == x;
    assert(b.drop_last() =~= b.remove(b.len() - 1));
    i
}

/// Lists that hold the same are gathered into lists that hold the same.
proof fn lemma_gathered_in_any_order<A, B>(a: Seq<A>, b: Seq<A>, f: spec_fn(A) -> Seq<B>)
    requires
        a.to_multiset() == b.to_multiset(),
    ensures
        gathered(a, f).to_multiset() == gathered(b, f).to_multiset(),
    decreases b.len(),
{
    broadcast use vstd::seq_lib::group_to_multiset_ensures;

    assert(a.len() == a.to_multiset().len());
    if b.len() == 0 {
        assert(a =~= b);
    } else {
        let i = lemma_found(a, b);
        lemma_gathered_without(a, i, f);
        lemma_gathered_without(b, b.len() - 1, f);
        assert(b.remove(b.len() - 1) =~= b.drop_last());
        lemma_gathered_in_any_order(a.remove(i), b.drop_last(), f);
    }
}

/// Lists that hold the same do so behind a map.
proof fn lemma_mapped_in_any_order(a: Seq<Row>, b: Seq<Row>)
    requires
        a.to_multiset() == b.to_multiset(),
    ensures
        a.map_values(|r: Row| r.1).to_multiset() == b.map_values(|r: Row| r.1).to_multiset(),
{
    let one = |r: Row| seq![r.1];
    lemma_gathered_in_any_order(a, b, one);
    lemma_mapped(a);
    lemma_mapped(b);
}

/// A map gathers one item for each.
proof fn lemma_mapped(s: Seq<Row>)
    ensures
        s.map_values(|r: Row| r.1) == gathered(s, |r: Row| seq![r.1]),
    decreases s.len(),
{
    let one = |r: Row| seq![r.1];
    let map = |r: Row| r.1;
    if s.len() == 0 {
        assert(s.map_values(map) =~= gathered(s, one));
    } else {
        lemma_mapped(s.drop_last());
        assert(s.map_values(map) =~= s.drop_last().map_values(map) + seq![s.last().1]);
    }
}

/// The rows are gathered from the resources.
proof fn lemma_rows_gathered(s: Seq<ResourceView>, from: i64, to: i64)
    ensures
        rows(s, from, to) == gathered(s, |r: ResourceView| rows_of(r, r.spans.len(), from, to)),
    decreases s.len(),
{
    if s.len() > 0 {
        lemma_rows_gathered(s.drop_last(), from, to);
    }
}

/// The calendars are gathered from the stored objects.
proof fn lemma_sources_gathered(s: Seq<ObjectView>)
    ensures
        sources(s) == gathered(s, |o: ObjectView| sources_of(o)),
    decreases s.len(),
{
    if s.len() > 0 {
        lemma_sources_gathered(s.drop_last());
    }
}

/// Two batches of resources list together what each of them lists.
pub proof fn batches_list_together(a: Seq<ResourceView>, b: Seq<ResourceView>, from: i64, to: i64)
    ensures
        agenda(a + b, from, to).to_multiset() == agenda(a, from, to).to_multiset().add(
            agenda(b, from, to).to_multiset(),
        ),
{
    let f = |r: ResourceView| rows_of(r, r.spans.len(), from, to);
    let map = |r: Row| r.1;
    let x = rows(a, from, to);
    let y = rows(b, from, to);
    lemma_rows_gathered(a + b, from, to);
    lemma_rows_gathered(a, from, to);
    lemma_rows_gathered(b, from, to);
    lemma_gathered_together(a, b, f);
    agenda_keeps_all(x + y);
    agenda_keeps_all(x);
    agenda_keeps_all(y);
    lemma_mapped_in_any_order(by_start(x + y), x + y);
    lemma_mapped_in_any_order(by_start(x), x);
    lemma_mapped_in_any_order(by_start(y), y);
    assert((x + y).map_values(map) =~= x.map_values(map) + y.map_values(map));
    vstd::seq_lib::lemma_multiset_commutative(x.map_values(map), y.map_values(map));
}

/// The order in which resources come changes nothing in what is listed but the
/// order of occurrences with one start.
pub proof fn agenda_takes_any_order(a: Seq<ResourceView>, b: Seq<ResourceView>, from: i64, to: i64)
    requires
        a.to_multiset() == b.to_multiset(),
    ensures
        agenda(a, from, to).to_multiset() == agenda(b, from, to).to_multiset(),
{
    let f = |r: ResourceView| rows_of(r, r.spans.len(), from, to);
    let x = rows(a, from, to);
    let y = rows(b, from, to);
    lemma_rows_gathered(a, from, to);
    lemma_rows_gathered(b, from, to);
    lemma_gathered_in_any_order(a, b, f);
    agenda_keeps_all(x);
    agenda_keeps_all(y);
    lemma_mapped_in_any_order(by_start(x), by_start(y));
}

/// The row of an occurrence in the window, where it is one.
pub open spec fn row_of(r: ResourceView, s: Option<SpanView>, from: i64, to: i64) -> Seq<Row> {
    match s {
        Some(x) => if overlaps(x, from, to) {
            seq![(x.start.timestamp, listed(r.calendar[x.comp_id as int], x, r.href, r.etag))]
        } else {
            seq![]
        },
        None => seq![],
    }
}

/// The rows of a resource are gathered from its occurrences.
proof fn lemma_rows_of_gathered(r: ResourceView, n: nat, from: i64, to: i64)
    requires
        n <= r.spans.len(),
    ensures
        rows_of(r, n, from, to) == gathered(
            r.spans.take(n as int),
            |s: Option<SpanView>| row_of(r, s, from, to),
        ),
    decreases n,
{
    let f = |s: Option<SpanView>| row_of(r, s, from, to);
    let some = r.spans.take(n as int);
    if n > 0 {
        lemma_rows_of_gathered(r, (n - 1) as nat, from, to);
        assert(some.drop_last() =~= r.spans.take(n - 1));
        assert(some.last() == r.spans[n - 1]);
        assert(rows_of(r, n, from, to) =~= gathered(some, f));
    } else {
        assert(rows_of(r, n, from, to) =~= gathered(some, f));
    }
}

/// Whatever a calendar expands to, it puts the same rows into the window.
proof fn lemma_same_rows(s: SourceView, a: ResourceView, b: ResourceView, from: i64, to: i64)
    requires
        expands(s, a),
        expands(s, b),
    ensures
        rows_of(a, a.spans.len(), from, to).to_multiset() == rows_of(
            b,
            b.spans.len(),
            from,
            to,
        ).to_multiset(),
{
    let e = crate::ical::expansion(s.calendar, EXPAND_LIMIT);
    let n = e.0.len() as int;
    let f = |x: Option<SpanView>| row_of(a, x, from, to);
    let g = |x: Option<SpanView>| row_of(b, x, from, to);
    assert(f =~= g);
    vstd::seq_lib::lemma_multiset_commutative(a.spans.take(n), a.spans.skip(n));
    vstd::seq_lib::lemma_multiset_commutative(b.spans.take(n), b.spans.skip(n));
    assert(a.spans.take(n) + a.spans.skip(n) =~= a.spans);
    assert(b.spans.take(n) + b.spans.skip(n) =~= b.spans);
    lemma_gathered_in_any_order(a.spans, b.spans, f);
    lemma_rows_of_gathered(a, a.spans.len(), from, to);
    lemma_rows_of_gathered(b, b.spans.len(), from, to);
    assert(a.spans.take(a.spans.len() as int) =~= a.spans);
    assert(b.spans.take(b.spans.len() as int) =~= b.spans);
}

/// Whatever calendars expand to, they put the same rows into the window.
proof fn lemma_all_same_rows(
    s: Seq<SourceView>,
    a: Seq<ResourceView>,
    b: Seq<ResourceView>,
    from: i64,
    to: i64,
)
    requires
        all_expand(s, a),
        all_expand(s, b),
    ensures
        rows(a, from, to).to_multiset() == rows(b, from, to).to_multiset(),
    decreases s.len(),
{
    if s.len() > 0 {
        let front = s.drop_last();
        assert forall|i: int| 0 <= i < front.len() implies expands(
            #[trigger] front[i],
            a.drop_last()[i],
        ) && expands(front[i], b.drop_last()[i]) by {
            assert(expands(s[i], a[i]));
            assert(expands(s[i], b[i]));
        }
        lemma_all_same_rows(front, a.drop_last(), b.drop_last(), from, to);
        assert(expands(s[s.len() - 1], a[s.len() - 1]));
        assert(expands(s[s.len() - 1], b[s.len() - 1]));
        lemma_same_rows(s.last(), a.last(), b.last(), from, to);
        vstd::seq_lib::lemma_multiset_commutative(
            rows(a.drop_last(), from, to),
            rows_of(a.last(), a.last().spans.len(), from, to),
        );
        vstd::seq_lib::lemma_multiset_commutative(
            rows(b.drop_last(), from, to),
            rows_of(b.last(), b.last().spans.len(), from, to),
        );
    }
}

/// Two listings of the same calendars agree: whatever order the expansion
/// leaves open, both have the same occurrences.
pub proof fn listings_agree(
    s: Seq<SourceView>,
    a: Seq<ResourceView>,
    b: Seq<ResourceView>,
    from: i64,
    to: i64,
)
    requires
        all_expand(s, a),
        all_expand(s, b),
    ensures
        agenda(a, from, to).to_multiset() == agenda(b, from, to).to_multiset(),
{
    lemma_all_same_rows(s, a, b, from, to);
    agenda_keeps_all(rows(a, from, to));
    agenda_keeps_all(rows(b, from, to));
    lemma_mapped_in_any_order(by_start(rows(a, from, to)), by_start(rows(b, from, to)));
}

/// Two listings of the same stored objects have the same occurrences.
pub proof fn object_listings_agree(
    objects: Seq<ObjectView>,
    from: i64,
    to: i64,
    x: Seq<OccurrenceView>,
    y: Seq<OccurrenceView>,
)
    requires
        may_list(objects, from, to, x),
        may_list(objects, from, to, y),
    ensures
        x.to_multiset() == y.to_multiset(),
{
    let s = sources(objects);
    let a = choose|e: Seq<ResourceView>| #[trigger] all_expand(s, e) && x == agenda(e, from, to);
    let b = choose|e: Seq<ResourceView>| #[trigger] all_expand(s, e) && y == agenda(e, from, to);
    listings_agree(s, a, b, from, to);
}

/// The calendars of two batches of stored objects come one behind the other, and
/// whatever these expand to splits into what each batch may expand to.
proof fn lemma_objects_split(
    a: Seq<ObjectView>,
    b: Seq<ObjectView>,
    r: Seq<ResourceView>,
    from: i64,
    to: i64,
)
    requires
        all_expand(sources(a + b), r),
    ensures
        sources(a + b) == sources(a) + sources(b),
        ({
            let n = sources(a).len() as int;
            &&& n <= r.len()
            &&& all_expand(sources(a), r.take(n))
            &&& all_expand(sources(b), r.skip(n))
            &&& agenda(r, from, to).to_multiset() == agenda(r.take(n), from, to).to_multiset().add(
                agenda(r.skip(n), from, to).to_multiset(),
            )
        }),
{
    let f = |o: ObjectView| sources_of(o);
    let n = sources(a).len() as int;
    lemma_sources_gathered(a + b);
    lemma_sources_gathered(a);
    lemma_sources_gathered(b);
    lemma_gathered_together(a, b, f);
    let all = sources(a + b);
    assert forall|i: int| 0 <= i < sources(a).len() implies expands(
        #[trigger] sources(a)[i],
        r.take(n)[i],
    ) by {
        assert(all[i] == sources(a)[i]);
    }
    assert forall|i: int| 0 <= i < sources(b).len() implies expands(
        #[trigger] sources(b)[i],
        r.skip(n)[i],
    ) by {
        assert(all[n + i] == sources(b)[i]);
    }
    batches_list_together(r.take(n), r.skip(n), from, to);
    assert(r.take(n) + r.skip(n) =~= r);
}

/// Two batches of stored objects list together what each of them lists apart.
pub proof fn objects_list_together(
    a: Seq<ObjectView>,
    b: Seq<ObjectView>,
    from: i64,
    to: i64,
    both: Seq<OccurrenceView>,
    x: Seq<OccurrenceView>,
    y: Seq<OccurrenceView>,
)
    requires
        may_list(a + b, from, to, both),
        may_list(a, from, to, x),
        may_list(b, from, to, y),
    ensures
        both.to_multiset() == x.to_multiset().add(y.to_multiset()),
{
    let r = choose|e: Seq<ResourceView>| #[trigger]
        all_expand(sources(a + b), e) && both == agenda(e, from, to);
    let p = choose|e: Seq<ResourceView>| #[trigger]
        all_expand(sources(a), e) && x == agenda(e, from, to);
    let q = choose|e: Seq<ResourceView>| #[trigger]
        all_expand(sources(b), e) && y == agenda(e, from, to);
    let n = sources(a).len() as int;
    lemma_objects_split(a, b, r, from, to);
    listings_agree(sources(a), p, r.take(n), from, to);
    listings_agree(sources(b), q, r.skip(n), from, to);
}

/// What a list of calendars may expand to, put in the order of another list of
/// the same calendars.
proof fn lemma_expand_in_any_order(
    s: Seq<SourceView>,
    r: Seq<ResourceView>,
    t: Seq<SourceView>,
) -> (q: Seq<ResourceView>)
    requires
        all_expand(s, r),
        s.to_multiset() == t.to_multiset(),
    ensures
        all_expand(t, q),
        q.to_multiset() == r.to_multiset(),
    decreases t.len(),
{
    broadcast use vstd::seq_lib::group_to_multiset_ensures;

    assert(s.len() == s.to_multiset().len());
    assert(t.len() == t.to_multiset().len());
    if t.len() == 0 {
        r
    } else {
        let i = lemma_found(s, t);
        let less = r.remove(i);
        assert forall|j: int| 0 <= j < s.remove(i).len() implies expands(
            #[trigger] s.remove(i)[j],
            less[j],
        ) by {
            let k = if j < i {
                j
            } else {
                j + 1
            };
            assert(expands(s[k], r[k]));
        }
        let front = lemma_expand_in_any_order(s.remove(i), less, t.drop_last());
        let q = front.push(r[i]);
        assert forall|j: int| 0 <= j < t.len() implies expands(#[trigger] t[j], q[j]) by {
            if j < t.len() - 1 {
                assert(expands(t.drop_last()[j], front[j]));
            } else {
                assert(expands(s[i], r[i]));
            }
        }
        assert(r.to_multiset() =~= less.to_multiset().insert(r[i]));
        q
    }
}

/// The order in which the stored objects come changes nothing in what is listed
/// but the order of occurrences with one start.
pub proof fn objects_take_any_order(
    a: Seq<ObjectView>,
    b: Seq<ObjectView>,
    from: i64,
    to: i64,
    x: Seq<OccurrenceView>,
    y: Seq<OccurrenceView>,
)
    requires
        a.to_multiset() == b.to_multiset(),
        may_list(a, from, to, x),
        may_list(b, from, to, y),
    ensures
        x.to_multiset() == y.to_multiset(),
{
    let r = choose|e: Seq<ResourceView>| #[trigger]
        all_expand(sources(a), e) && x == agenda(e, from, to);
    let p = choose|e: Seq<ResourceView>| #[trigger]
        all_expand(sources(b), e) && y == agenda(e, from, to);
    lemma_sources_gathered(a);
    lemma_sources_gathered(b);
    lemma_gathered_in_any_order(a, b, |o: ObjectView| sources_of(o));
    let q = lemma_expand_in_any_order(sources(a), r, sources(b));
    agenda_takes_any_order(q, r, from, to);
    listings_agree(sources(b), p, q, from, to);
}

/// A stored object without a calendar in it adds nothing to the list.
pub proof fn objects_without_a_calendar_add_nothing(
    a: Seq<ObjectView>,
    o: ObjectView,
    b: Seq<ObjectView>,
    from: i64,
    to: i64,
    out: Seq<OccurrenceView>,
)
    requires
        crate::ical::calendars_in(crate::ical::text_entries(o.2)).len() == 0,
    ensures
        sources(a.push(o) + b) == sources(a + b),
        may_list(a.push(o) + b, from, to, out) <==> may_list(a + b, from, to, out),
{
    let f = |o: ObjectView| sources_of(o);
    let c = a.push(o);
    lemma_sources_gathered(c + b);
    lemma_sources_gathered(a + b);
    lemma_gathered_together(c, b, f);
    lemma_gathered_together(a, b, f);
    assert(c.drop_last() =~= a);
    assert(gathered(c, f) =~= gathered(a, f));
}

/// What is listed of an event that was written from these fields.
pub open spec fn written_occurrence(
    e: EventFields,
    href: Seq<char>,
    etag: Option<Seq<char>>,
) -> OccurrenceView {
    OccurrenceView {
        uid: e.uid,
        recurring: false,
        recurrence_id: None,
        start: utc_text(e.start),
        end: utc_text(e.end),
        all_day: false,
        summary: e.summary,
        location: non_empty(e.location),
        master_href: href,
        master_etag: etag,
    }
}

/// An event that was written from readable fields is listed, once, in every
/// window that it overlaps, and in no other.
pub proof fn written_event_is_listed(
    o: ObjectView,
    e: EventFields,
    now: i64,
    from: i64,
    to: i64,
    out: Seq<OccurrenceView>,
)
    requires
        crate::civil::min_seconds() <= now <= crate::civil::max_seconds(),
        crate::icloud::vevent(e, now) == Ok::<Seq<char>, ErrorView>(o.2),
        is_readable(e),
        crate::ical::reads_documents(o.2, crate::ical::text_entries(o.2)),
        may_list(seq![o], from, to, out),
    ensures
        out == if crate::civil::rfc3339(e.start)->0.utc.seconds() < to && crate::civil::rfc3339(
            e.end,
        )->0.utc.seconds() > from {
            seq![written_occurrence(e, o.0, o.1)]
        } else {
            seq![]
        },
{
    let all = seq![o];
    let r = choose|x: Seq<ResourceView>| #[trigger]
        all_expand(sources(all), x) && out == agenda(x, from, to);
    lemma_written_source(o, e, now);
    assert(all.drop_last() =~= seq![]);
    assert(sources(all.drop_last()) =~= seq![]);
    assert(sources(all) =~= sources_of(o));
    let s = sources(all)[0];
    assert(expands(s, r[0]));
    let m = s.calendar;
    lemma_written_detail(m, e, crate::civil::at(now as int, 0), None);
    lemma_written_span(m, e, now);
    let x = crate::ical::lone_span(m);
    assert(r[0].spans == seq![Some(x)]);
    assert(r =~= seq![r[0]]);
    lemma_single_agenda(r[0], x, from, to);
}

/// The calendar of an event that was written from readable fields.
proof fn lemma_written_source(o: ObjectView, e: EventFields, now: i64)
    requires
        crate::civil::min_seconds() <= now <= crate::civil::max_seconds(),
        crate::icloud::vevent(e, now) == Ok::<Seq<char>, ErrorView>(o.2),
        is_readable(e),
        crate::ical::reads_documents(o.2, crate::ical::text_entries(o.2)),
    ensures
        sources_of(o).len() == 1,
        sources_of(o)[0].href == o.0,
        sources_of(o)[0].etag == o.1,
        crate::ical::holds_lines(sources_of(o)[0].calendar, written_lines(e, now)),
{
    lemma_written_calendar(o.2, e, now);
}

/// What is listed of the occurrence of a written event.
proof fn lemma_written_span(m: Seq<ComponentView>, e: EventFields, now: i64)
    requires
        is_readable(e),
        crate::ical::holds_lines(m, written_lines(e, now)),
        crate::ical::lone_event(m),
        detail(m, Some(crate::ical::lone_span(m)), None) == Ok::<DetailView, ErrorView>(
            written_detail(e, None),
        ),
    ensures
        ({
            let x = crate::ical::lone_span(m);
            &&& x.comp_id == 1
            &&& x.start.timestamp == crate::civil::rfc3339(e.start)->0.utc.seconds()
            &&& x.end.timestamp == crate::civil::rfc3339(e.end)->0.utc.seconds()
            &&& forall|href: Seq<char>, etag: Option<Seq<char>>| #[trigger]
                listed(m[1], x, href, etag) == written_occurrence(e, href, etag)
        }),
{
    let stamp = crate::civil::at(now as int, 0);
    let start = crate::civil::rfc3339(e.start)->0.utc;
    let end = crate::civil::rfc3339(e.end)->0.utc;
    let c = m[1];
    let own = |x: ComponentView| crate::read::is_event(x) && !crate::model::is_override(x);
    assert(own(m[1]) && !own(m[0]));
    assert(crate::read::is_first(m, own, 1));
    crate::read::lemma_position(m, own, 1);
    lemma_event_property(e, stamp, start, end, PropertyName::Dtstart);
    lemma_event_property(e, stamp, start, end, PropertyName::Dtend);
    lemma_event_property(e, stamp, start, end, PropertyName::Summary);
    crate::laws::lemma_stored(start, true);
    crate::laws::lemma_stored(end, true);
    crate::civil::lemma_seconds_bounded(start);
    crate::civil::lemma_seconds_bounded(end);
    assert(Civil { nano: 0, ..start }.seconds() == start.seconds());
    assert(Civil { nano: 0, ..end }.seconds() == end.seconds());
    assert(text_or_empty(crate::read::text(c, PropertyName::Summary)) =~= e.summary);
}

/// What is listed of a resource with one occurrence.
proof fn lemma_single_agenda(r: ResourceView, x: SpanView, from: i64, to: i64)
    requires
        r.spans == seq![Some(x)],
    ensures
        agenda(seq![r], from, to) == if overlaps(x, from, to) {
            seq![listed(r.calendar[x.comp_id as int], x, r.href, r.etag)]
        } else {
            seq![]
        },
{
    reveal_with_fuel(rows_of, 2);
    reveal_with_fuel(rows, 2);
    reveal_with_fuel(by_start, 2);
    let all = seq![r];
    assert(all.drop_last() =~= seq![]);
    assert(all.last() == r);
    let own = rows_of(r, 1, from, to);
    assert(rows(all, from, to) =~= own);
    if overlaps(x, from, to) {
        let row = (x.start.timestamp, listed(r.calendar[x.comp_id as int], x, r.href, r.etag));
        assert(own =~= seq![row]);
        assert(own.drop_last() =~= seq![]);
        assert(by_start(own) =~= seq![row]);
        assert(agenda(all, from, to) =~= seq![row.1]);
    } else {
        assert(own =~= seq![]);
        assert(agenda(all, from, to) =~= seq![]);
    }
}

/// Only a detached override carries a recurrence ID, and whatever carries one
/// belongs to a series. A generated instance and a one-off event carry none.
pub proof fn only_overrides_carry_a_recurrence_id(
    c: ComponentView,
    s: SpanView,
    href: Seq<char>,
    etag: Option<Seq<char>>,
)
    ensures
        listed(c, s, href, etag).recurrence_id is Some ==> crate::model::is_override(c) && listed(
            c,
            s,
            href,
            etag,
        ).recurring,
        !crate::model::is_override(c) ==> listed(c, s, href, etag).recurrence_id is None,
        listed(c, s, href, etag).recurring <==> crate::model::is_recurrent(c)
            || crate::model::is_override(c),
{
}

/// Asking for the original text changes nothing but that it is there.
pub proof fn raw_is_opt_in(ics: Seq<char>)
    ensures
        match (text_detail(ics, false), text_detail(ics, true)) {
            (Ok(thin), Ok(full)) => thin.raw is None && full.raw == Some(ics) && thin == (
            DetailView { raw: None, ..full }),
            (Err(a), Err(b)) => a == b,
            _ => false,
        },
{
}

} // verus!
