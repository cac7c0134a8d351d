//! What the views show: each field of a value under its own name, and the items
//! of a list one by one.

use vstd::prelude::*;

use crate::config::{Environment, Settings};
use crate::error::{Error, ErrorView};
use crate::events::{EventDetail, Occurrence, OverrideInfo, Resource};
use crate::ical::{Span, Zone, ZoneView};
use crate::icloud::{Event, EventView, Icloud, NewEvent, Step, StepView, Window};
use crate::model::{
    Calendar, Component, Entry, EntryView, OtherValue, Param, ParamView, Property, Value,
    ValueView,
};
use crate::write::{DateStyle, InstanceFields, StyleView};

verus! {

/// An optional text is shown where it is there.
pub proof fn optional_texts_are_shown(s: Option<String>, t: Option<&str>)
    ensures
        s is Some ==> crate::model::text_view(s) == Some(s->0@),
        s is None ==> crate::model::text_view(s) is None,
        t is Some ==> crate::icloud::str_view(t) == Some(t->0@),
        t is None ==> crate::icloud::str_view(t) is None,
{
}

/// A fallible result shows its value, or its error.
pub proof fn results_are_shown(
    a: Result<String, Error>,
    b: Result<EventDetail, Error>,
    c: Result<Step, Error>,
    d: Result<NewEvent, Error>,
)
    ensures
        a is Ok ==> crate::error::text_result(a) == Ok::<Seq<char>, ErrorView>(a->Ok_0@),
        a is Err ==> crate::error::text_result(a) == Err::<Seq<char>, ErrorView>(a->Err_0@),
        b is Ok ==> crate::events::detail_result(b) is Ok && crate::events::detail_result(b)->Ok_0
            == b->Ok_0@,
        b is Err ==> crate::events::detail_result(b) is Err
            && crate::events::detail_result(b)->Err_0 == b->Err_0@,
        c is Ok ==> crate::icloud::step_result(c) is Ok && crate::icloud::step_result(c)->Ok_0
            == c->Ok_0@,
        c is Err ==> crate::icloud::step_result(c) is Err && crate::icloud::step_result(c)->Err_0
            == c->Err_0@,
        d is Ok ==> crate::icloud::plan_result(d) is Ok && crate::icloud::plan_result(d)->Ok_0
            == d->Ok_0@,
        d is Err ==> crate::icloud::plan_result(d) is Err && crate::icloud::plan_result(d)->Err_0
            == d->Err_0@,
{
}

/// An occurrence shows its fields.
pub proof fn occurrences_are_shown(o: Occurrence)
    ensures
        o@.uid == o.uid@,
        o@.recurring == o.recurring,
        o.recurrence_id is None ==> o@.recurrence_id is None,
        o.recurrence_id is Some ==> o@.recurrence_id == Some(o.recurrence_id->0@),
        o@.start == o.start@,
        o@.end == o.end@,
        o@.all_day == o.all_day,
        o@.summary == o.summary@,
        o.location is None ==> o@.location is None,
        o.location is Some ==> o@.location == Some(o.location->0@),
        o@.master_href == o.master_href@,
        o.master_etag is None ==> o@.master_etag is None,
        o.master_etag is Some ==> o@.master_etag == Some(o.master_etag->0@),
{
}

/// An override of a detail shows its fields.
pub proof fn override_infos_are_shown(o: OverrideInfo)
    ensures
        o.recurrence_id is None ==> o@.recurrence_id is None,
        o.recurrence_id is Some ==> o@.recurrence_id == Some(o.recurrence_id->0@),
        o.summary is None ==> o@.summary is None,
        o.summary is Some ==> o@.summary == Some(o.summary->0@),
{
}

/// A detail shows its fields, and its lists item by item.
pub proof fn details_are_shown(d: EventDetail)
    ensures
        d@.uid == d.uid@,
        d.summary is None ==> d@.summary is None,
        d.summary is Some ==> d@.summary == Some(d.summary->0@),
        d.description is None ==> d@.description is None,
        d.description is Some ==> d@.description == Some(d.description->0@),
        d.location is None ==> d@.location is None,
        d.location is Some ==> d@.location == Some(d.location->0@),
        d.status is None ==> d@.status is None,
        d.status is Some ==> d@.status == Some(d.status->0@),
        d.start is None ==> d@.start is None,
        d.start is Some ==> d@.start == Some(d.start->0@),
        d.end is None ==> d@.end is None,
        d.end is Some ==> d@.end == Some(d.end->0@),
        d@.all_day == d.all_day,
        d@.recurring == d.recurring,
        d.organizer is None ==> d@.organizer is None,
        d.organizer is Some ==> d@.organizer == Some(d.organizer->0@),
        d.raw is None ==> d@.raw is None,
        d.raw is Some ==> d@.raw == Some(d.raw->0@),
        d@.rrule.len() == d.rrule@.len(),
        forall|i: int| 0 <= i < d.rrule@.len() ==> #[trigger] d@.rrule[i] == d.rrule@[i]@,
        d@.attendees.len() == d.attendees@.len(),
        forall|i: int|
            0 <= i < d.attendees@.len() ==> #[trigger] d@.attendees[i] == d.attendees@[i]@,
        d@.overrides.len() == d.overrides@.len(),
        forall|i: int|
            0 <= i < d.overrides@.len() ==> #[trigger] d@.overrides[i] == d.overrides@[i]@,
{
}

/// A resource shows its fields, and its occurrences one by one.
pub proof fn resources_are_shown(r: Resource)
    ensures
        r@.href == r.href@,
        r.etag is None ==> r@.etag is None,
        r.etag is Some ==> r@.etag == Some(r.etag->0@),
        r@.calendar == r.calendar@,
        r@.spans.len() == r.spans@.len(),
        forall|i: int|
            0 <= i < r.spans@.len() ==> (r.spans@[i] is None ==> #[trigger] r@.spans[i] is None),
        forall|i: int|
            0 <= i < r.spans@.len() && r.spans@[i] is Some ==> #[trigger] r@.spans[i] == Some(
                r.spans@[i]->0@,
            ),
{
}

/// Lists are shown item by item.
pub proof fn lists_are_shown(
    a: Seq<Resource>,
    b: Seq<Occurrence>,
    c: Seq<(i64, Occurrence)>,
    d: Seq<(String, Option<String>, String)>,
    i: int,
)
    ensures
        crate::events::resource_list(a).len() == a.len(),
        0 <= i < a.len() ==> crate::events::resource_list(a)[i] == a[i]@,
        crate::events::occurrence_list(b).len() == b.len(),
        0 <= i < b.len() ==> crate::events::occurrence_list(b)[i] == b[i]@,
        crate::events::row_list(c).len() == c.len(),
        0 <= i < c.len() ==> crate::events::row_list(c)[i].0 == c[i].0
            && crate::events::row_list(c)[i].1 == c[i].1@,
        crate::events::object_list(d).len() == d.len(),
        0 <= i < d.len() ==> crate::events::object_list(d)[i].0 == d[i].0@
            && crate::events::object_list(d)[i].2 == d[i].2@,
        0 <= i < d.len() && d[i].1 is None ==> crate::events::object_list(d)[i].1 is None,
        0 <= i < d.len() && d[i].1 is Some ==> crate::events::object_list(d)[i].1 == Some(
            d[i].1->0@,
        ),
{
}

/// An occurrence of a component shows its fields, and its time zone by name.
pub proof fn spans_are_shown(s: Span, z: Zone)
    ensures
        s@.comp_id == s.comp_id,
        s@.start == s.start,
        s@.end == s.end,
        s@.zone == s.zone@,
        z is Utc ==> z@ is Utc,
        z is Floating ==> z@ is Floating,
        z is Fixed ==> z@ == ZoneView::Fixed(z->Fixed_0),
        z is Named ==> z@ == ZoneView::Named(z->Named_0@),
{
}

/// A calendar shows its components in order, each with its kind, its entries in
/// order and the places of its sub-components.
pub proof fn calendars_are_shown(m: Calendar, c: Component, e: Entry, p: Property)
    ensures
        m@.len() == m.components@.len(),
        forall|i: int| 0 <= i < m.components@.len() ==> #[trigger] m@[i] == m.components@[i]@,
        c@.kind == c.kind,
        c@.children == c.children@,
        c@.entries.len() == c.entries@.len(),
        forall|i: int| 0 <= i < c.entries@.len() ==> #[trigger] c@.entries[i] == c.entries@[i]@,
        e is Known ==> e@ == EntryView::Known(e->Known_0@),
        e is Foreign ==> e@ == EntryView::Foreign(e->Foreign_0),
        p@.name == p.name,
        p@.params.len() == p.params@.len(),
        forall|i: int| 0 <= i < p.params@.len() ==> #[trigger] p@.params[i] == p.params@[i]@,
        p@.values.len() == p.values@.len(),
        forall|i: int| 0 <= i < p.values@.len() ==> #[trigger] p@.values[i] == p.values@[i]@,
{
}

/// A value shows what it holds, and a parameter does.
pub proof fn values_are_shown(v: Value, o: OtherValue, p: Param)
    ensures
        v is Text ==> v@ == ValueView::Text(v->Text_0@),
        v is Date ==> v@ == ValueView::Date(v->Date_0),
        v is Integer ==> v@ == ValueView::Integer(v->Integer_0),
        v is Other ==> v@ == ValueView::Other(v->Other_0@),
        o.text is None ==> o@.text is None,
        o.text is Some ==> o@.text == Some(o.text->0@),
        o.rule is None ==> o@.rule is None,
        o.rule is Some ==> o@.rule == Some(o.rule->0@),
        o.status is None ==> o@.status is None,
        o.status is Some ==> o@.status == Some(o.status->0@),
        o@.until == o.until,
        o@.raw == o.raw,
        p is Tzid ==> p@ == ParamView::Tzid(p->Tzid_0@),
        p is ValueDate ==> p@ is ValueDate,
        p is Other ==> p@ == ParamView::Other(p->Other_0),
        p is OtherTzid ==> p@ is OtherTzid && p@->OtherTzid_0.raw == p->OtherTzid_0.raw,
        p is OtherTzid && p->OtherTzid_0.text is None ==> p@->OtherTzid_0.text is None,
        p is OtherTzid && p->OtherTzid_0.text is Some ==> p@->OtherTzid_0.text == Some(
            p->OtherTzid_0.text->0@,
        ),
{
}

/// What is asked of a change, and the style of a series, show what they hold.
pub proof fn changes_are_shown(f: InstanceFields, s: DateStyle)
    ensures
        f.summary is None ==> f@.summary is None,
        f.summary is Some ==> f@.summary == Some(f.summary->0@),
        f.start is None ==> f@.start is None,
        f.start is Some ==> f@.start == Some(f.start->0@),
        f.end is None ==> f@.end is None,
        f.end is Some ==> f@.end == Some(f.end->0@),
        f.description is None ==> f@.description is None,
        f.description is Some ==> f@.description == Some(f.description->0@),
        f.location is None ==> f@.location is None,
        f.location is Some ==> f@.location == Some(f.location->0@),
        s is AllDay ==> s@ is AllDay,
        s is Utc ==> s@ is Utc,
        s is Floating ==> s@ is Floating,
        s is Tzid ==> s@ == StyleView::Tzid(s->Tzid_0@),
{
}

/// A step of discovery shows what it asks for, and an event what was learnt.
pub proof fn steps_are_shown(s: Step, e: Event, i: Icloud)
    ensures
        s is FindPrincipal ==> s@ is FindPrincipal,
        s is FindHomes ==> s@ == StepView::FindHomes(s->FindHomes_0@),
        s is Home ==> s@ == StepView::Home(s->Home_0@),
        e is Begin ==> e@ is Begin,
        e is Principal && e->Principal_0 is None ==> e@ == EventView::Principal(None),
        e is Principal && e->Principal_0 is Some ==> e@ == EventView::Principal(
            Some(e->Principal_0->0@),
        ),
        e is Homes ==> e@ is Homes && e@->Homes_0.len() == e->Homes_0@.len(),
        e is Homes ==> forall|k: int|
            0 <= k < e->Homes_0@.len() ==> #[trigger] e@->Homes_0[k] == e->Homes_0@[k]@,
        i.home is None ==> i@ is None,
        i.home is Some ==> i@ == Some(i.home->0@),
{
}

/// A window, a new event and the settings show their fields.
pub proof fn plans_are_shown(w: Window, n: NewEvent, s: Settings)
    ensures
        w@.start == w.start@,
        w@.end == w.end@,
        w@.from == w.from,
        w@.to == w.to,
        n@.uid == n.uid@,
        n@.href == n.href@,
        n@.ics == n.ics@,
        s@.base_url == s.icloud.base_url@,
        s@.email == s.icloud.email@,
        s@.password == s.icloud.password@,
        s@.auth_token == s.auth_token@,
        s@.bind == s.bind@,
{
}

/// The environment shows each setting under its name.
pub proof fn environments_are_shown(e: Environment)
    ensures
        e.email is None ==> e@.email is None,
        e.email is Some ==> e@.email == Some(e.email->0@),
        e.password is None ==> e@.password is None,
        e.password is Some ==> e@.password == Some(e.password->0@),
        e.auth_token is None ==> e@.auth_token is None,
        e.auth_token is Some ==> e@.auth_token == Some(e.auth_token->0@),
        e.base_url is None ==> e@.base_url is None,
        e.base_url is Some ==> e@.base_url == Some(e.base_url->0@),
        e.bind is None ==> e@.bind is None,
        e.bind is Some ==> e@.bind == Some(e.bind->0@),
{
}

/// An error shows which one it is, and the text that it is about.
pub proof fn errors_are_shown(e: Error)
    ensures
        e is NoCalendar <==> e@ is NoCalendar,
        e is NoEvent <==> e@ is NoEvent,
        e is NoUid <==> e@ is NoUid,
        e is NotRecurring <==> e@ is NotRecurring,
        e is NoPrincipal <==> e@ is NoPrincipal,
        e is NoHome <==> e@ is NoHome,
        e is NoEmail <==> e@ is NoEmail,
        e is NoPassword <==> e@ is NoPassword,
        e is NoAuthToken <==> e@ is NoAuthToken,
        e is BadDateTime ==> e@ == ErrorView::BadDateTime(e->BadDateTime_0@),
        e is BadDate ==> e@ == ErrorView::BadDate(e->BadDate_0@),
        e is BadAllDayStart ==> e@ == ErrorView::BadAllDayStart(e->BadAllDayStart_0@),
        e is BadTimestamp ==> e@ == ErrorView::BadTimestamp(e->BadTimestamp_0@),
{
}

} // verus!
