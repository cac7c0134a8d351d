//! What holds of the list of occurrences and of the detail of an event, in terms
//! of the calendar that they are taken from.

use vstd::prelude::*;

use crate::civil::Moment;
use crate::error::ErrorView;
use crate::events::{DetailView, ObjectView, OccurrenceView, ResourceView, Row, SourceView};
use crate::ical::{SpanView, ZoneView};
use crate::model::{ComponentView, EntryView, PropertyName};

verus! {

/// Is `t` the moment as text: its date where the event is all-day, else its
/// date, time and offset?
pub open spec fn is_moment_text(t: Seq<char>, m: Moment, all_day: bool) -> bool {
    &&& all_day ==> t == crate::civil::date_text(m.wall())
    &&& !all_day ==> t == crate::civil::date_time_text(m.wall()) + crate::civil::offset_text(
        m.offset as int,
    )
}

/// Is the `DTSTART` of a component a date without a time of day?
pub open spec fn has_day_start(c: ComponentView) -> bool {
    match crate::read::date(c, PropertyName::Dtstart) {
        Some(d) => d.hour is None || d.minute is None,
        None => false,
    }
}

/// Does a component carry a `RECURRENCE-ID`?
pub open spec fn has_slot(c: ComponentView) -> bool {
    crate::read::property(c.entries, PropertyName::RecurrenceId) is Some
}

/// Does a component carry an `RRULE` or an `RDATE`?
pub open spec fn has_series(c: ComponentView) -> bool {
    crate::read::property(c.entries, PropertyName::Rrule) is Some || crate::read::property(
        c.entries,
        PropertyName::Rdate,
    ) is Some
}

/// Is `t` the slot of an override as text, read in a time zone? There is none
/// where it has no date, or where no moment is at that date.
pub open spec fn is_slot_text(t: Option<Seq<char>>, c: ComponentView, zone: ZoneView) -> bool {
    match crate::read::date(c, PropertyName::RecurrenceId) {
        Some(d) => match crate::ical::resolved(d, zone) {
            Some(m) => t is Some && is_moment_text(t->0, m, has_day_start(c)),
            None => t is None,
        },
        None => t is None,
    }
}

/// What is listed of an occurrence is what it and its component show: start and
/// end each the text of its own moment, a date where the event is all-day.
pub proof fn listed_shows_the_occurrence(
    c: ComponentView,
    s: SpanView,
    href: Seq<char>,
    etag: Option<Seq<char>>,
)
    ensures
        ({
            let o = crate::events::listed(c, s, href, etag);
            &&& crate::read::text(c, PropertyName::Uid) is Some ==> Some(o.uid)
                == crate::read::text(c, PropertyName::Uid)
            &&& crate::read::text(c, PropertyName::Uid) is None ==> o.uid.len() == 0
            &&& crate::read::text(c, PropertyName::Summary) is Some ==> Some(o.summary)
                == crate::read::text(c, PropertyName::Summary)
            &&& crate::read::text(c, PropertyName::Summary) is None ==> o.summary.len() == 0
            &&& o.location matches Some(l) ==> l.len() > 0 && crate::read::text(
                c,
                PropertyName::Location,
            ) == Some(l)
            &&& o.location is None ==> (crate::read::text(c, PropertyName::Location) matches Some(l)
                ==> l.len() == 0)
            &&& o.all_day <==> has_day_start(c)
            &&& is_moment_text(o.start, s.start, has_day_start(c))
            &&& is_moment_text(o.end, s.end, has_day_start(c))
            &&& o.recurring <==> has_series(c) || has_slot(c)
            &&& !has_slot(c) ==> o.recurrence_id is None
            &&& has_slot(c) ==> is_slot_text(o.recurrence_id, c, s.zone)
            &&& o.master_href == href
            &&& o.master_etag == etag
        }),
{
    crate::write::lemma_has(c, PropertyName::RecurrenceId);
    crate::write::lemma_has(c, PropertyName::Rrule);
    crate::write::lemma_has(c, PropertyName::Rdate);
}

/// The dates that are listed of an all-day event read back as the days of its
/// start and of its end, so they are as far apart as the occurrence is long.
pub proof fn listed_days_are_those_of_the_occurrence(
    c: ComponentView,
    s: SpanView,
    href: Seq<char>,
    etag: Option<Seq<char>>,
)
    requires
        has_day_start(c),
        s.start.ok() && s.end.ok(),
        0 <= s.start.wall().year <= 9999,
        0 <= s.end.wall().year <= 9999,
    ensures
        ({
            let o = crate::events::listed(c, s, href, etag);
            let a = crate::civil::date(o.start);
            let b = crate::civil::date(o.end);
            let from = s.start.wall();
            let to = s.end.wall();
            &&& a is Some && b is Some
            &&& a->0.year == from.year && a->0.month == from.month && a->0.day == from.day
            &&& b->0.year == to.year && b->0.month == to.month && b->0.day == to.day
            &&& from.hour == 0 && from.minute == 0 && from.second == 0 && to.hour == 0 && to.minute
                == 0 && to.second == 0 ==> b->0.seconds() - a->0.seconds() == (s.end.timestamp
                + s.end.offset) - (s.start.timestamp + s.start.offset)
        }),
{
    crate::civil::lemma_at(s.start.timestamp + s.start.offset, 0);
    crate::civil::lemma_at(s.end.timestamp + s.end.offset, 0);
    crate::civil::lemma_date_reads_back(s.start.wall());
    crate::civil::lemma_date_reads_back(s.end.wall());
}

/// The times that are listed of any other event read back as the instants of its
/// start and of its end.
pub proof fn listed_times_are_those_of_the_occurrence(
    c: ComponentView,
    s: SpanView,
    href: Seq<char>,
    etag: Option<Seq<char>>,
)
    requires
        !has_day_start(c),
        s.start.ok() && s.end.ok(),
        s.start.offset as int % 60 == 0 && s.end.offset as int % 60 == 0,
        0 <= s.start.wall().year <= 9999,
        0 <= s.end.wall().year <= 9999,
    ensures
        ({
            let o = crate::events::listed(c, s, href, etag);
            let a = crate::civil::rfc3339(o.start);
            let b = crate::civil::rfc3339(o.end);
            &&& a is Some && b is Some
            &&& a->0.utc.seconds() == s.start.timestamp && a->0.local == s.start.wall()
            &&& b->0.utc.seconds() == s.end.timestamp && b->0.local == s.end.wall()
        }),
{
    crate::civil::moment_reads_back(s.start);
    crate::civil::moment_reads_back(s.end);
}

/// Is the occurrence `k` of a resource one that starts before the window ends
/// and ends after it starts?
pub open spec fn in_window(r: ResourceView, k: int, from: i64, to: i64) -> bool {
    0 <= k < r.spans.len() && r.spans[k] is Some && r.spans[k]->0.start.timestamp < to
        && r.spans[k]->0.end.timestamp > from
}

/// What is listed is what lies in the window: every occurrence of every resource
/// that starts before the window ends and ends after it starts, and nothing
/// else.
pub proof fn list_is_what_lies_in_the_window(
    s: Seq<ResourceView>,
    from: i64,
    to: i64,
    o: OccurrenceView,
)
    ensures
        crate::events::agenda(s, from, to).contains(o) <==> exists|i: int, k: int|
            0 <= i < s.len() && #[trigger] in_window(s[i], k, from, to) && o
                == crate::events::listed(
                s[i].calendar[s[i].spans[k]->0.comp_id as int],
                s[i].spans[k]->0,
                s[i].href,
                s[i].etag,
            ),
{
    crate::events::agenda_is_what_overlaps(s, from, to, o);
    if crate::events::agenda(s, from, to).contains(o) {
        let (start, i, k) = choose|start: i64, i: int, k: int|
            0 <= i < s.len() && #[trigger] crate::events::row_from(s[i], k, from, to, (start, o));
        assert(in_window(s[i], k, from, to));
    }
    if exists|i: int, k: int|
        0 <= i < s.len() && #[trigger] in_window(s[i], k, from, to) && o == crate::events::listed(
            s[i].calendar[s[i].spans[k]->0.comp_id as int],
            s[i].spans[k]->0,
            s[i].href,
            s[i].etag,
        ) {
        let (i, k) = choose|i: int, k: int|
            0 <= i < s.len() && #[trigger] in_window(s[i], k, from, to) && o
                == crate::events::listed(
                s[i].calendar[s[i].spans[k]->0.comp_id as int],
                s[i].spans[k]->0,
                s[i].href,
                s[i].etag,
            );
        let x = s[i].spans[k]->0;
        assert(crate::events::row_from(s[i], k, from, to, (x.start.timestamp, o)));
    }
}

/// How many of the first `n` occurrences of a resource lie in the window.
pub open spec fn number_in_window(r: ResourceView, n: nat, from: i64, to: i64) -> nat
    decreases n,
{
    if n == 0 {
        0
    } else if in_window(r, n - 1, from, to) {
        number_in_window(r, (n - 1) as nat, from, to) + 1
    } else {
        number_in_window(r, (n - 1) as nat, from, to)
    }
}

/// As many rows come of a resource as occurrences lie in the window.
proof fn lemma_row_count(r: ResourceView, n: nat, from: i64, to: i64)
    requires
        n <= r.spans.len(),
    ensures
        crate::events::rows_of(r, n, from, to).len() == number_in_window(r, n, from, to),
    decreases n,
{
    if n > 0 {
        lemma_row_count(r, (n - 1) as nat, from, to);
    }
}

/// Every occurrence in the window is listed once: one more resource makes the
/// list longer by the occurrences of it that lie in the window.
pub proof fn list_is_as_long_as_the_occurrences(
    s: Seq<ResourceView>,
    r: ResourceView,
    from: i64,
    to: i64,
)
    ensures
        crate::events::agenda(seq![], from, to).len() == 0,
        crate::events::agenda(s.push(r), from, to).len() == crate::events::agenda(
            s,
            from,
            to,
        ).len() + number_in_window(r, r.spans.len(), from, to),
{
    let a = crate::events::rows(s, from, to);
    let b = crate::events::rows(s.push(r), from, to);
    assert(s.push(r).drop_last() =~= s);
    assert(s.push(r).last() == r);
    lemma_row_count(r, r.spans.len(), from, to);
    lemma_ordered_len(a);
    lemma_ordered_len(b);
    lemma_ordered_len(crate::events::rows(seq![], from, to));
}

/// Ordering rows keeps their number.
proof fn lemma_ordered_len(s: Seq<Row>)
    ensures
        crate::events::by_start(s).len() == s.len(),
{
    broadcast use vstd::seq_lib::group_to_multiset_ensures;

    crate::events::agenda_keeps_all(s);
    assert(crate::events::by_start(s).len() == crate::events::by_start(s).to_multiset().len());
}

/// Is `o` what is listed of the occurrence `k` of the resource `i`, in the window
/// and with this start?
pub open spec fn stands_for_one(
    s: Seq<ResourceView>,
    i: int,
    k: int,
    from: i64,
    to: i64,
    start: i64,
    o: OccurrenceView,
) -> bool {
    &&& 0 <= i < s.len()
    &&& in_window(s[i], k, from, to)
    &&& s[i].spans[k]->0.start.timestamp == start
    &&& o == crate::events::listed(
        s[i].calendar[s[i].spans[k]->0.comp_id as int],
        s[i].spans[k]->0,
        s[i].href,
        s[i].etag,
    )
}

/// Is `o` what is listed of some occurrence in the window with this start?
pub open spec fn stands_for_some(
    s: Seq<ResourceView>,
    from: i64,
    to: i64,
    start: i64,
    o: OccurrenceView,
) -> bool {
    exists|i: int, k: int| stands_for_one(s, i, k, from, to, start, o)
}

/// The list comes by the starts of the occurrences: each place in it is that of
/// an occurrence in the window, and these places start no earlier the further
/// behind they stand.
pub proof fn list_comes_by_start(s: Seq<ResourceView>, from: i64, to: i64) -> (starts: Seq<i64>)
    ensures
        starts.len() == crate::events::agenda(s, from, to).len(),
        forall|p: int, q: int| 0 <= p <= q < starts.len() ==> starts[p] <= starts[q],
        forall|p: int|
            0 <= p < starts.len() ==> stands_for_some(
                s,
                from,
                to,
                #[trigger] starts[p],
                crate::events::agenda(s, from, to)[p],
            ),
{
    broadcast use vstd::seq_lib::group_to_multiset_ensures;

    let all = crate::events::rows(s, from, to);
    let sorted = crate::events::by_start(all);
    let starts = sorted.map_values(|r: Row| r.0);
    let out = crate::events::agenda(s, from, to);
    crate::events::agenda_is_in_order(all);
    crate::events::agenda_keeps_all(all);
    assert forall|p: int| 0 <= p < starts.len() implies stands_for_some(
        s,
        from,
        to,
        #[trigger] starts[p],
        out[p],
    ) by {
        let x = sorted[p];
        assert(sorted.contains(x));
        assert(all.to_multiset().count(x) > 0);
        assert(all.contains(x));
        crate::events::rows_are_what_overlaps(s, from, to, x);
        let (i, k) = choose|i: int, k: int|
            0 <= i < s.len() && #[trigger] crate::events::row_from(s[i], k, from, to, x);
        assert(stands_for_one(s, i, k, from, to, starts[p], out[p]));
    }
    starts
}

/// Before they are put in order, the occurrences come resource by resource, and
/// in each in the order of its expansion; the order by start keeps that for
/// those with one start.
pub proof fn rows_come_in_the_order_of_the_resources(
    s: Seq<ResourceView>,
    r: ResourceView,
    n: nat,
    from: i64,
    to: i64,
    start: i64,
)
    requires
        n < r.spans.len(),
    ensures
        crate::events::rows(seq![], from, to).len() == 0,
        crate::events::rows(s.push(r), from, to) == crate::events::rows(s, from, to)
            + crate::events::rows_of(r, r.spans.len(), from, to),
        crate::events::rows_of(r, 0, from, to).len() == 0,
        in_window(r, n as int, from, to) ==> crate::events::rows_of(r, n + 1, from, to)
            == crate::events::rows_of(r, n, from, to).push(
            (
                r.spans[n as int]->0.start.timestamp,
                crate::events::listed(
                    r.calendar[r.spans[n as int]->0.comp_id as int],
                    r.spans[n as int]->0,
                    r.href,
                    r.etag,
                ),
            ),
        ),
        !in_window(r, n as int, from, to) ==> crate::events::rows_of(r, n + 1, from, to)
            == crate::events::rows_of(r, n, from, to),
        crate::events::agenda(s, from, to).len() == crate::events::rows(s, from, to).len(),
        crate::events::by_start(crate::events::rows(s, from, to)).filter(|x: Row| x.0 == start)
            == crate::events::rows(s, from, to).filter(|x: Row| x.0 == start),
{
    assert(s.push(r).drop_last() =~= s);
    let all = crate::events::rows(s, from, to);
    lemma_ordered_len(all);
    crate::events::agenda_is_stable(all, start);
}

/// What is listed is the ordered rows, without the starts that they were ordered
/// by.
pub proof fn list_is_the_ordered_rows(s: Seq<ResourceView>, from: i64, to: i64, p: int)
    requires
        0 <= p < crate::events::agenda(s, from, to).len(),
    ensures
        crate::events::agenda(s, from, to)[p] == crate::events::by_start(
            crate::events::rows(s, from, to),
        )[p].1,
{
}

/// The sources of a stored object are the calendars in its text, each with where
/// the object is stored and its ETag, and those of one more object stand behind
/// the others.
pub proof fn sources_are_the_calendars(a: Seq<ObjectView>, o: ObjectView, k: int)
    ensures
        ({
            let calendars = crate::ical::calendars_in(crate::ical::text_entries(o.2));
            &&& crate::events::sources(seq![]).len() == 0
            &&& crate::events::sources(a.push(o)) == crate::events::sources(a)
                + crate::events::sources_of(o)
            &&& crate::events::sources_of(o).len() == calendars.len()
            &&& 0 <= k < calendars.len() ==> {
                let s = crate::events::sources_of(o)[k];
                s.calendar == calendars[k] && s.href == o.0 && s.etag == o.1
            }
        }),
{
    assert(a.push(o).drop_last() =~= a);
}

/// A calendar is expanded up to 20,000 occurrences, and what is listed of it is
/// that expansion, under where it is stored.
pub proof fn expansion_is_that_of_the_calendar(s: SourceView, r: ResourceView)
    requires
        crate::events::expands(s, r),
    ensures
        r.calendar == s.calendar,
        r.href == s.href,
        r.etag == s.etag,
        crate::ical::unfolds(s.calendar, crate::ical::expansion(s.calendar, 20_000), r.spans),
{
}

/// What may be listed of stored objects is the list of what their calendars
/// expand to, calendar by calendar.
pub proof fn listings_are_those_of_the_expansion(
    objects: Seq<ObjectView>,
    from: i64,
    to: i64,
    out: Seq<OccurrenceView>,
) -> (r: Seq<ResourceView>)
    requires
        crate::events::may_list(objects, from, to, out),
    ensures
        r.len() == crate::events::sources(objects).len(),
        forall|i: int|
            0 <= i < r.len() ==> crate::events::expands(
                crate::events::sources(objects)[i],
                #[trigger] r[i],
            ),
        out == crate::events::agenda(r, from, to),
{
    let s = crate::events::sources(objects);
    let e = choose|e: Seq<ResourceView>| #[trigger]
        crate::events::all_expand(s, e) && out == crate::events::agenda(e, from, to);
    assert forall|i: int| 0 <= i < e.len() implies crate::events::expands(
        s[i],
        #[trigger] e[i],
    ) by {
        assert(crate::events::expands(s[i], e[i]));
    }
    e
}

/// Is the occurrence `k` one of a component that is no override?
pub open spec fn is_own(m: Seq<ComponentView>, spans: Seq<Option<SpanView>>, k: int) -> bool {
    0 <= k < spans.len() && spans[k] is Some && !has_slot(m[spans[k]->0.comp_id as int])
}

/// Is the occurrence `k` the first of those that start earliest, overrides left
/// out?
pub open spec fn is_earliest(m: Seq<ComponentView>, spans: Seq<Option<SpanView>>, k: int) -> bool {
    &&& is_own(m, spans, k)
    &&& forall|j: int| #[trigger]
        is_own(m, spans, j) ==> spans[k]->0.start.timestamp <= spans[j]->0.start.timestamp
    &&& forall|j: int|
        j < k && #[trigger] is_own(m, spans, j) ==> spans[k]->0.start.timestamp
            < spans[j]->0.start.timestamp
}

/// The occurrence that dates an event is the first of those that start earliest,
/// overrides left out; there is none where only overrides occur.
pub proof fn earliest_is_the_first_of_the_earliest(
    m: Seq<ComponentView>,
    spans: Seq<Option<SpanView>>,
)
    ensures
        crate::events::earliest(m, spans, spans.len()) matches Some(x) ==> exists|k: int| #[trigger]
            is_earliest(m, spans, k) && spans[k] == Some(x),
        crate::events::earliest(m, spans, spans.len()) is None ==> forall|k: int|
            !#[trigger] is_own(m, spans, k),
{
    lemma_earliest_of(m, spans, spans.len());
    assert(spans.take(spans.len() as int) =~= spans);
}

/// What is earliest among the first occurrences.
proof fn lemma_earliest_of(m: Seq<ComponentView>, spans: Seq<Option<SpanView>>, n: nat)
    requires
        n <= spans.len(),
    ensures
        crate::events::earliest(m, spans, n) matches Some(x) ==> exists|k: int| #[trigger]
            is_earliest(m, spans.take(n as int), k) && spans[k] == Some(x),
        crate::events::earliest(m, spans, n) is None ==> forall|k: int|
            !#[trigger] is_own(m, spans.take(n as int), k),
    decreases n,
{
    if n > 0 {
        let i = n - 1;
        let some = spans.take(i);
        let more = spans.take(n as int);
        lemma_earliest_of(m, spans, i as nat);
        assert forall|k: int| k != i implies #[trigger] is_own(m, more, k) == is_own(
            m,
            some,
            k,
        ) by {
            if 0 <= k < i {
                assert(more[k] == some[k]);
            }
        }
        assert(more[i] == spans[i]);
        if let Some(x) = spans[i] {
            crate::write::lemma_has(m[x.comp_id as int], PropertyName::RecurrenceId);
        }
        let best = crate::events::earliest(m, spans, i as nat);
        let now = crate::events::earliest(m, spans, n);
        if now is Some {
            if is_own(m, more, i) && now == spans[i] && (best is Some ==> best->0 != now->0
                || spans[i]->0.start.timestamp < best->0.start.timestamp) {
                if best is None || spans[i]->0.start.timestamp < best->0.start.timestamp {
                    if best is Some {
                        let k = choose|k: int| #[trigger]
                            is_earliest(m, some, k) && spans[k] == Some(best->0);
                        assert(some[k] == spans[k]);
                        assert forall|j: int| #[trigger] is_own(m, more, j) implies
                            more[i]->0.start.timestamp <= more[j]->0.start.timestamp && (j < i
                            ==> more[i]->0.start.timestamp < more[j]->0.start.timestamp) by {
                            if j != i {
                                assert(is_own(m, some, j));
                                assert(some[j] == more[j]);
                            }
                        }
                    } else {
                        assert forall|j: int| #[trigger] is_own(m, more, j) implies j == i by {
                            if j != i {
                                assert(!is_own(m, some, j));
                            }
                        }
                    }
                    assert(is_earliest(m, more, i));
                }
            }
            if best is Some && !(is_own(m, more, i) && spans[i]->0.start.timestamp
                < best->0.start.timestamp) {
                let k = choose|k: int| #[trigger]
                    is_earliest(m, some, k) && spans[k] == Some(best->0);
                assert(is_own(m, some, k));
                assert(is_own(m, more, k));
                assert(more[k] == some[k]);
                assert forall|j: int| #[trigger] is_own(m, more, j) implies
                    more[k]->0.start.timestamp <= more[j]->0.start.timestamp && (j < k
                    ==> more[k]->0.start.timestamp < more[j]->0.start.timestamp) by {
                    if j != i {
                        assert(is_own(m, some, j));
                        assert(some[j] == more[j]);
                    }
                }
                assert(is_earliest(m, more, k));
            }
        } else {
            assert forall|k: int| !#[trigger] is_own(m, more, k) by {
                if k != i {
                    assert(!is_own(m, some, k));
                }
            }
        }
    }
}

/// Is this an event with a `RECURRENCE-ID`?
pub open spec fn is_detached(c: ComponentView) -> bool {
    c.kind is Event && has_slot(c)
}

/// How many of the first `n` components are events with a `RECURRENCE-ID`.
pub open spec fn detached_before(m: Seq<ComponentView>, n: nat) -> nat
    decreases n,
{
    if n == 0 {
        0
    } else if is_detached(m[n - 1]) {
        detached_before(m, (n - 1) as nat) + 1
    } else {
        detached_before(m, (n - 1) as nat)
    }
}

/// A detail has as many overrides as the calendar has events with a
/// `RECURRENCE-ID`, and for each of these, in order, one with its slot, read in
/// UTC, and its summary.
pub proof fn every_override_is_in_the_detail(m: Seq<ComponentView>)
    ensures
        crate::events::override_infos(m).len() == detached_before(m, m.len()),
        forall|j: int|
            0 <= j < m.len() && #[trigger] is_detached(m[j]) ==> {
                let o = crate::events::override_infos(m)[detached_before(m, j as nat) as int];
                &&& detached_before(m, j as nat) < crate::events::override_infos(m).len()
                &&& is_slot_text(o.recurrence_id, m[j], ZoneView::Utc)
                &&& o.summary == crate::read::text(m[j], PropertyName::Summary)
            },
    decreases m.len(),
{
    if m.len() > 0 {
        let front = m.drop_last();
        let c = m.last();
        every_override_is_in_the_detail(front);
        crate::write::lemma_has(c, PropertyName::RecurrenceId);
        lemma_detached_before(m, front, front.len());
        assert forall|j: int| 0 <= j < m.len() && #[trigger] is_detached(m[j]) implies ({
            let o = crate::events::override_infos(m)[detached_before(m, j as nat) as int];
            &&& detached_before(m, j as nat) < crate::events::override_infos(m).len()
            &&& is_slot_text(o.recurrence_id, m[j], ZoneView::Utc)
            &&& o.summary == crate::read::text(m[j], PropertyName::Summary)
        }) by {
            if j < front.len() {
                lemma_detached_before(m, front, j as nat);
                assert(is_detached(front[j]));
            }
        }
    }
}

/// The components behind do not count.
proof fn lemma_detached_before(m: Seq<ComponentView>, front: Seq<ComponentView>, n: nat)
    requires
        n <= front.len() <= m.len(),
        forall|i: int| 0 <= i < front.len() ==> #[trigger] front[i] == m[i],
    ensures
        detached_before(m, n) == detached_before(front, n),
    decreases n,
{
    if n > 0 {
        lemma_detached_before(m, front, (n - 1) as nat);
        assert(front[n - 1] == m[n - 1]);
    }
}

/// The rules and the attendees of a detail are those of the entries, in order:
/// an entry adds the text of its first value where it is an `RRULE` or an
/// `ATTENDEE`, a rule by its own form where it has one, and any other entry adds
/// nothing.
pub proof fn rules_and_attendees_are_those_of_the_entries(a: Seq<EntryView>, e: EntryView)
    ensures
        crate::events::rules(seq![]).len() == 0,
        crate::events::attendees(seq![]).len() == 0,
        !(e is Known && e->Known_0.name is Rrule && e->Known_0.values.len() > 0)
            ==> crate::events::rules(a.push(e)) == crate::events::rules(a),
        !(e is Known && e->Known_0.name is Attendee && e->Known_0.values.len() > 0)
            ==> crate::events::attendees(a.push(e)) == crate::events::attendees(a),
        e is Known && e->Known_0.name is Rrule && e->Known_0.values.len() > 0 ==> {
            let v = e->Known_0.values[0];
            &&& v is Text ==> crate::events::rules(a.push(e)) == crate::events::rules(a).push(
                v->Text_0,
            )
            &&& v is Other && v->Other_0.rule is Some ==> crate::events::rules(a.push(e))
                == crate::events::rules(a).push(v->Other_0.rule->0)
            &&& v is Other && v->Other_0.rule is None && v->Other_0.text is Some
                ==> crate::events::rules(a.push(e)) == crate::events::rules(a).push(
                v->Other_0.text->0,
            )
            &&& v is Date || v is Integer || v is Other && v->Other_0.rule is None
                && v->Other_0.text is None ==> crate::events::rules(a.push(e))
                == crate::events::rules(a)
        },
        e is Known && e->Known_0.name is Attendee && e->Known_0.values.len() > 0 ==> {
            let v = e->Known_0.values[0];
            &&& v is Text ==> crate::events::attendees(a.push(e)) == crate::events::attendees(
                a,
            ).push(v->Text_0)
            &&& v is Other && v->Other_0.text is Some ==> crate::events::attendees(a.push(e))
                == crate::events::attendees(a).push(v->Other_0.text->0)
            &&& v is Date || v is Integer || v is Other && v->Other_0.text is None
                ==> crate::events::attendees(a.push(e)) == crate::events::attendees(a)
        },
{
    assert(a.push(e).drop_last() =~= a);
}

/// Does an entry give the status of an event this label?
pub open spec fn labels(e: EntryView, s: Seq<char>) -> bool {
    &&& e is Known
    &&& e->Known_0.name is Status
    &&& e->Known_0.values.len() > 0
    &&& e->Known_0.values[0] is Other
    &&& e->Known_0.values[0]->Other_0.status == Some(s)
}

/// The status of a detail is the label of the first entry that gives one.
pub proof fn status_is_the_first_label(a: Seq<EntryView>, e: EntryView, s: Seq<char>)
    ensures
        crate::events::status(seq![]) is None,
        crate::events::status(a) is Some ==> crate::events::status(a.push(e))
            == crate::events::status(a),
        crate::events::status(a) is None && labels(e, s) ==> crate::events::status(a.push(e))
            == Some(s),
        crate::events::status(a) is None && (forall|t: Seq<char>| !#[trigger] labels(e, t))
            ==> crate::events::status(a.push(e)) is None,
{
    assert(a.push(e).drop_last() =~= a);
    if crate::events::status(a) is None && crate::events::status(a.push(e)) is Some {
        assert(labels(e, crate::events::status(a.push(e))->0));
    }
}

/// The detail of a text is that of the first calendar in it: texts and flags of
/// the master, its rules and attendees, all overrides, the start and the end of
/// the first of its earliest occurrences, and the text where it was asked for.
pub proof fn detail_shows_the_calendar(ics: Seq<char>, include_raw: bool)
    ensures
        crate::ical::first_calendar(ics) is None ==> crate::events::text_detail(ics, include_raw)
            == Err::<DetailView, ErrorView>(ErrorView::NoCalendar),
        crate::ical::first_calendar(ics) matches Some(m) ==> {
            let spans = crate::ical::expansion(m, 20_000).0;
            let first = crate::events::earliest(m, spans, spans.len());
            let c = m[crate::read::master(m)->0];
            let r = crate::events::text_detail(ics, include_raw);
            let d = r->Ok_0;
            &&& crate::read::master(m) is None ==> r == Err::<DetailView, ErrorView>(
                ErrorView::NoEvent,
            )
            &&& crate::read::master(m) is Some ==> {
                &&& r is Ok
                &&& crate::read::text(c, PropertyName::Uid) is Some ==> Some(d.uid)
                    == crate::read::text(c, PropertyName::Uid)
                &&& crate::read::text(c, PropertyName::Uid) is None ==> d.uid.len() == 0
                &&& d.summary == crate::read::text(c, PropertyName::Summary)
                &&& d.description == crate::read::text(c, PropertyName::Description)
                &&& d.organizer == crate::read::text(c, PropertyName::Organizer)
                &&& d.location matches Some(l) ==> l.len() > 0 && crate::read::text(
                    c,
                    PropertyName::Location,
                ) == Some(l)
                &&& d.location is None ==> (crate::read::text(
                    c,
                    PropertyName::Location,
                ) matches Some(l) ==> l.len() == 0)
                &&& d.status == crate::events::status(c.entries)
                &&& d.rrule == crate::events::rules(c.entries)
                &&& d.attendees == crate::events::attendees(c.entries)
                &&& d.overrides == crate::events::override_infos(m)
                &&& d.all_day <==> has_day_start(c)
                &&& d.recurring <==> has_series(c)
                &&& first is None ==> d.start is None && d.end is None
                &&& first matches Some(x) ==> {
                    &&& d.start is Some && is_moment_text(d.start->0, x.start, has_day_start(c))
                    &&& d.end is Some && is_moment_text(d.end->0, x.end, has_day_start(c))
                }
                &&& include_raw ==> d.raw == Some(ics)
                &&& !include_raw ==> d.raw is None
            }
        },
{
    if let Some(m) = crate::ical::first_calendar(ics) {
        if let Some(i) = crate::read::master(m) {
            crate::write::lemma_has(m[i], PropertyName::Rrule);
            crate::write::lemma_has(m[i], PropertyName::Rdate);
        }
    }
}

/// A part of a text is shown where it is not empty, and else left out.
pub proof fn empty_texts_are_left_out(s: Seq<char>)
    ensures
        crate::events::non_empty(None) is None,
        s.len() == 0 ==> crate::events::non_empty(Some(s)) is None,
        s.len() > 0 ==> crate::events::non_empty(Some(s)) == Some(s),
        crate::events::text_or_empty(None).len() == 0,
        crate::events::text_or_empty(Some(s)) == s,
{
}

} // verus!
