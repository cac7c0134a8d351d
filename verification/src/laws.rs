//! What holds of the changes to one occurrence as a whole.

use vstd::prelude::*;

use crate::civil::{Civil, Moment};
use crate::error::ErrorView;
use crate::ical::{SpanView, ZoneView};
use crate::model::{ComponentView, EntryView, ParamView, PartialDate, PropertyName, PropertyView};
use crate::write::{FieldsView, SlotKey, StyleView, Times};

verus! {

/// What a lookup finds in two lists of entries, one behind the other.
proof fn lemma_concat(a: Seq<EntryView>, b: Seq<EntryView>, p: PropertyName)
    ensures
        crate::read::property(a + b, p) == if crate::read::property(a, p) is Some {
            crate::read::property(a, p)
        } else {
            crate::read::property(b, p)
        },
    decreases b.len(),
{
    if b.len() == 0 {
        assert(a + b =~= a);
    } else {
        lemma_concat(a, b.drop_last(), p);
        assert((a + b).drop_last() =~= a + b.drop_last());
    }
}

/// What a lookup finds in a list of one entry.
proof fn lemma_single(e: EntryView, p: PropertyName)
    ensures
        crate::read::property(seq![e], p) == if crate::model::named(e, p) {
            Some(e->Known_0)
        } else {
            None
        },
{
    reveal_with_fuel(crate::read::property, 2);
    assert(seq![e].drop_last() =~= seq![]);
    assert(seq![e].last() == e);
}

/// Where a first place is given, it is one.
proof fn lemma_is_first(m: Seq<ComponentView>, p: spec_fn(ComponentView) -> bool)
    requires
        crate::read::position(m, p) is Some,
    ensures
        crate::read::is_first(m, p, crate::read::position(m, p)->0),
{
}

/// The master is an event of the calendar.
proof fn lemma_master(m: Seq<ComponentView>)
    requires
        crate::read::master(m) is Some,
    ensures
        0 <= crate::read::master(m)->0 < m.len(),
        crate::read::is_event(m[crate::read::master(m)->0]),
{
    let own = |c: ComponentView| crate::read::is_event(c) && !crate::model::is_override(c);
    let any = |c: ComponentView| crate::read::is_event(c);
    if crate::read::position(m, own) is Some {
        lemma_is_first(m, own);
    } else {
        lemma_is_first(m, any);
    }
}

/// The root is a component of the calendar.
proof fn lemma_root(m: Seq<ComponentView>)
    requires
        m.len() > 0,
    ensures
        0 <= crate::write::root(m) < m.len(),
{
    let is_root = |c: ComponentView| c.kind is Calendar;
    if crate::read::position(m, is_root) is Some {
        lemma_is_first(m, is_root);
    }
}

/// What a lookup finds after a text was set, or left.
proof fn lemma_set_some(
    entries: Seq<EntryView>,
    n: PropertyName,
    s: Option<Seq<char>>,
    p: PropertyName,
)
    ensures
        crate::read::property(crate::write::set_some(entries, n, s), p) == if p == n && s is Some {
            Some(crate::write::text_entry(n, s->0)->Known_0)
        } else {
            crate::read::property(entries, p)
        },
{
    if let Some(t) = s {
        crate::write::lemma_set(entries, n, crate::write::text_entry(n, t), p);
    }
}

/// The property that a text field asks for, else the one that was there.
pub open spec fn asked_or(
    s: Option<Seq<char>>,
    entries: Seq<EntryView>,
    n: PropertyName,
) -> Option<PropertyView> {
    match s {
        Some(t) => Some(crate::write::text_entry(n, t)->Known_0),
        None => crate::read::property(entries, n),
    }
}

/// What a lookup finds in a revised override: the dates and the texts that were
/// asked for, a fresh `DTSTAMP`, and everything else as it was.
pub proof fn revised_properties(
    c: ComponentView,
    t: Option<Times>,
    fields: FieldsView,
    params: Seq<ParamView>,
    now: i64,
    p: PropertyName,
)
    ensures
        crate::read::property(crate::write::revised(c, t, fields, params, now).entries, p)
            == match p {
            PropertyName::Dtstart => if t is Some && fields.start is Some {
                Some(crate::write::date_entry(p, t->0.start, params)->Known_0)
            } else {
                crate::read::property(c.entries, p)
            },
            PropertyName::Dtend => if t is Some {
                Some(crate::write::date_entry(p, t->0.end, params)->Known_0)
            } else {
                crate::read::property(c.entries, p)
            },
            PropertyName::Dtstamp => Some(crate::write::stamp_entry(now)->Known_0),
            PropertyName::Summary => asked_or(fields.summary, c.entries, p),
            PropertyName::Description => asked_or(fields.description, c.entries, p),
            PropertyName::Location => asked_or(fields.location, c.entries, p),
            _ => crate::read::property(c.entries, p),
        },
{
    let b = crate::write::moved(c.entries, t, fields, params);
    if let Some(t) = t {
        let start = crate::write::date_entry(PropertyName::Dtstart, t.start, params);
        let end = crate::write::date_entry(PropertyName::Dtend, t.end, params);
        let a = if fields.start is Some {
            crate::write::set(c.entries, PropertyName::Dtstart, start)
        } else {
            c.entries
        };
        crate::write::lemma_set(c.entries, PropertyName::Dtstart, start, p);
        crate::write::lemma_set(a, PropertyName::Dtend, end, p);
    }
    let d = crate::write::set_some(b, PropertyName::Summary, fields.summary);
    let e = crate::write::set_some(d, PropertyName::Description, fields.description);
    let f = crate::write::set_some(e, PropertyName::Location, fields.location);
    lemma_set_some(b, PropertyName::Summary, fields.summary, p);
    lemma_set_some(d, PropertyName::Description, fields.description, p);
    lemma_set_some(e, PropertyName::Location, fields.location, p);
    crate::write::lemma_set(f, PropertyName::Dtstamp, crate::write::stamp_entry(now), p);
}

/// The property of a text that is there, or none.
pub open spec fn text_property(n: PropertyName, s: Option<Seq<char>>) -> Option<PropertyView> {
    match s {
        Some(t) => Some(crate::write::text_entry(n, t)->Known_0),
        None => None,
    }
}

/// What a lookup finds in a new override: the master's UID and `SEQUENCE`,
/// the slot, the new dates, the texts asked for or else the master's, a fresh
/// `DTSTAMP`, and nothing else.
pub proof fn new_override_properties(
    c: ComponentView,
    uid: Seq<char>,
    t: Times,
    fields: FieldsView,
    now: i64,
    p: PropertyName,
)
    ensures
        crate::read::property(crate::write::new_override(c, uid, t, fields, now).entries, p) == ({
            let params = crate::write::style_params(crate::write::style_of(c));
            match p {
                PropertyName::Uid => text_property(p, Some(uid)),
                PropertyName::RecurrenceId => Some(
                    crate::write::date_entry(p, t.slot, params)->Known_0,
                ),
                PropertyName::Dtstart => Some(crate::write::date_entry(p, t.start, params)->Known_0),
                PropertyName::Dtend => Some(crate::write::date_entry(p, t.end, params)->Known_0),
                PropertyName::Summary => text_property(
                    p,
                    crate::write::text_or(fields.summary, c, p),
                ),
                PropertyName::Description => text_property(
                    p,
                    crate::write::text_or(fields.description, c, p),
                ),
                PropertyName::Location => text_property(
                    p,
                    crate::write::text_or(fields.location, c, p),
                ),
                PropertyName::Sequence => match crate::read::integer(c, p) {
                    Some(i) => Some(crate::write::sequence_entry(i)->Known_0),
                    None => None,
                },
                PropertyName::Dtstamp => Some(crate::write::stamp_entry(now)->Known_0),
                _ => None,
            }
        }),
{
    let params = crate::write::style_params(crate::write::style_of(c));
    let e1 = crate::write::text_entry(PropertyName::Uid, uid);
    let e2 = crate::write::date_entry(PropertyName::RecurrenceId, t.slot, params);
    let e3 = crate::write::date_entry(PropertyName::Dtstart, t.start, params);
    let e4 = crate::write::date_entry(PropertyName::Dtend, t.end, params);
    let four = seq![e1, e2, e3, e4];
    assert(four =~= seq![e1].push(e2).push(e3).push(e4));
    lemma_single(e1, p);
    crate::write::lemma_pushed(seq![e1], e2, p);
    crate::write::lemma_pushed(seq![e1].push(e2), e3, p);
    crate::write::lemma_pushed(seq![e1].push(e2).push(e3), e4, p);
    let t1 = crate::write::text_or(fields.summary, c, PropertyName::Summary);
    let t2 = crate::write::text_or(fields.description, c, PropertyName::Description);
    let t3 = crate::write::text_or(fields.location, c, PropertyName::Location);
    let s1 = crate::write::some_entry(PropertyName::Summary, t1);
    let s2 = crate::write::some_entry(PropertyName::Description, t2);
    let s3 = crate::write::some_entry(PropertyName::Location, t3);
    let s4 = match crate::read::integer(c, PropertyName::Sequence) {
        Some(i) => seq![crate::write::sequence_entry(i)],
        None => seq![],
    };
    if let Some(x) = t1 {
        lemma_single(crate::write::text_entry(PropertyName::Summary, x), p);
    }
    if let Some(x) = t2 {
        lemma_single(crate::write::text_entry(PropertyName::Description, x), p);
    }
    if let Some(x) = t3 {
        lemma_single(crate::write::text_entry(PropertyName::Location, x), p);
    }
    if let Some(i) = crate::read::integer(c, PropertyName::Sequence) {
        lemma_single(crate::write::sequence_entry(i), p);
    }
    lemma_single(crate::write::stamp_entry(now), p);
    lemma_concat(four, s1, p);
    lemma_concat(four + s1, s2, p);
    lemma_concat(four + s1 + s2, s3, p);
    lemma_concat(four + s1 + s2 + s3, s4, p);
    lemma_concat(four + s1 + s2 + s3 + s4, seq![crate::write::stamp_entry(now)], p);
}

/// The date of a slot, in the style of the series.
pub open spec fn slot_date(m: Seq<ComponentView>, slot: Seq<char>) -> PartialDate {
    crate::write::slot_value(slot, crate::write::style_of(m[crate::read::master(m)->0]))->Ok_0
}

/// The key of a slot.
pub open spec fn slot_key(m: Seq<ComponentView>, slot: Seq<char>) -> SlotKey {
    crate::write::key(slot_date(m, slot))
}

/// The dates that a change sets: none where there is an override already and
/// its dates are left as they are.
pub open spec fn dates_set(m: Seq<ComponentView>, slot: Seq<char>, fields: FieldsView) -> Option<
    Times,
> {
    if crate::write::override_of(m, slot_key(m, slot)) is Some && crate::write::keeps_times(
        fields,
    ) {
        None
    } else {
        Some(crate::write::times(m[crate::read::master(m)->0], slot, fields)->Ok_0)
    }
}

/// Changing one occurrence touches no component but an override of its slot:
/// every other one, the series master among them, keeps its kind and its
/// entries, and no component loses a sub-component.
pub proof fn update_spares_the_rest(
    m: Seq<ComponentView>,
    slot: Seq<char>,
    fields: FieldsView,
    now: i64,
)
    requires
        crate::write::updated(m, slot, fields, now) is Ok,
    ensures
        ({
            let n = crate::write::updated(m, slot, fields, now)->Ok_0;
            let i = crate::read::master(m)->0;
            let k = slot_key(m, slot);
            &&& m.len() <= n.len() <= m.len() + 1
            &&& forall|j: int|
                0 <= j < m.len() && !crate::write::overrides(m[j], k) ==> (#[trigger] n[j]).kind
                    == m[j].kind && n[j].entries == m[j].entries
            &&& forall|j: int|
                0 <= j < m.len() ==> m[j].children.is_prefix_of((#[trigger] n[j]).children)
            &&& !crate::model::is_override(m[i]) ==> n[i].entries == m[i].entries
        }),
{
    let n = crate::write::updated(m, slot, fields, now)->Ok_0;
    let k = slot_key(m, slot);
    lemma_master(m);
    lemma_root(m);
    match crate::write::override_of(m, k) {
        Some(o) => {
            lemma_is_first(m, |c: ComponentView| crate::write::overrides(c, k));
        },
        None => {
            let r = crate::write::root(m);
            assert(n[r].children == m[r].children.push(m.len() as u32));
            assert forall|j: int| 0 <= j < m.len() implies (#[trigger] n[j]).kind == m[j].kind
                && n[j].entries == m[j].entries && m[j].children.is_prefix_of(n[j].children) by {
                if j != r {
                    assert(n[j] == m[j]);
                }
            }
        },
    }
}

/// After a change of one occurrence the calendar holds an override of its
/// slot, with what was asked for, dates in the master's style. An override that
/// was there already keeps the rest. A new one has the master's UID and
/// `SEQUENCE`, the slot as its `RECURRENCE-ID`, the slot and the master's
/// duration for dates that were not asked for, and the master's texts.
pub proof fn update_leaves_an_override(
    m: Seq<ComponentView>,
    slot: Seq<char>,
    fields: FieldsView,
    now: i64,
)
    requires
        crate::write::updated(m, slot, fields, now) is Ok,
    ensures
        ({
            let n = crate::write::updated(m, slot, fields, now)->Ok_0;
            let c = m[crate::read::master(m)->0];
            let k = slot_key(m, slot);
            let t = dates_set(m, slot, fields);
            let o = crate::write::override_of(n, k)->0;
            let params = crate::write::style_params(crate::write::style_of(c));
            &&& crate::write::override_of(n, k) is Some
            &&& 0 <= o < n.len()
            &&& fields.start is Some ==> crate::read::property(n[o].entries, PropertyName::Dtstart)
                == Some(
                crate::write::date_entry(PropertyName::Dtstart, t->0.start, params)->Known_0,
            )
            &&& !crate::write::keeps_times(fields) ==> crate::read::property(
                n[o].entries,
                PropertyName::Dtend,
            ) == Some(crate::write::date_entry(PropertyName::Dtend, t->0.end, params)->Known_0)
            &&& fields.summary is Some ==> crate::read::text(n[o], PropertyName::Summary)
                == fields.summary
            &&& fields.description is Some ==> crate::read::text(n[o], PropertyName::Description)
                == fields.description
            &&& fields.location is Some ==> crate::read::text(n[o], PropertyName::Location)
                == fields.location
            &&& crate::write::override_of(m, k) is Some ==> {
                &&& crate::write::override_of(m, k) == Some(o)
                &&& n.len() == m.len()
                &&& fields.start is None ==> crate::read::property(
                    n[o].entries,
                    PropertyName::Dtstart,
                ) == crate::read::property(m[o].entries, PropertyName::Dtstart)
                &&& crate::write::keeps_times(fields) ==> crate::read::property(
                    n[o].entries,
                    PropertyName::Dtend,
                ) == crate::read::property(m[o].entries, PropertyName::Dtend)
                &&& fields.summary is None ==> crate::read::property(
                    n[o].entries,
                    PropertyName::Summary,
                ) == crate::read::property(m[o].entries, PropertyName::Summary)
                &&& fields.description is None ==> crate::read::property(
                    n[o].entries,
                    PropertyName::Description,
                ) == crate::read::property(m[o].entries, PropertyName::Description)
                &&& fields.location is None ==> crate::read::property(
                    n[o].entries,
                    PropertyName::Location,
                ) == crate::read::property(m[o].entries, PropertyName::Location)
            }
            &&& crate::write::override_of(m, k) is None ==> {
                &&& t is Some
                &&& o == m.len() && n.len() == m.len() + 1
                &&& n[o].kind is Event
                &&& crate::read::text(n[o], PropertyName::Uid) == crate::read::text(
                    c,
                    PropertyName::Uid,
                )
                &&& crate::read::integer(n[o], PropertyName::Sequence) == crate::read::integer(
                    c,
                    PropertyName::Sequence,
                )
                &&& crate::read::property(n[o].entries, PropertyName::RecurrenceId) == Some(
                    crate::write::date_entry(
                        PropertyName::RecurrenceId,
                        slot_date(m, slot),
                        params,
                    )->Known_0,
                )
                &&& crate::read::property(n[o].entries, PropertyName::Dtstart) == Some(
                    crate::write::date_entry(PropertyName::Dtstart, t->0.start, params)->Known_0,
                )
                &&& crate::read::property(n[o].entries, PropertyName::Dtend) == Some(
                    crate::write::date_entry(PropertyName::Dtend, t->0.end, params)->Known_0,
                )
                &&& crate::read::text(n[o], PropertyName::Summary) == crate::write::text_or(
                    fields.summary,
                    c,
                    PropertyName::Summary,
                )
                &&& crate::read::text(n[o], PropertyName::Description) == crate::write::text_or(
                    fields.description,
                    c,
                    PropertyName::Description,
                )
                &&& crate::read::text(n[o], PropertyName::Location) == crate::write::text_or(
                    fields.location,
                    c,
                    PropertyName::Location,
                )
            }
        }),
{
    let n = crate::write::updated(m, slot, fields, now)->Ok_0;
    let i = crate::read::master(m)->0;
    let c = m[i];
    let k = slot_key(m, slot);
    let params = crate::write::style_params(crate::write::style_of(c));
    let hit = |x: ComponentView| crate::write::overrides(x, k);
    lemma_master(m);
    lemma_root(m);
    match crate::write::override_of(m, k) {
        Some(o) => {
            let t = dates_set(m, slot, fields);
            lemma_is_first(m, hit);
            revised_properties(m[o], t, fields, params, now, PropertyName::RecurrenceId);
            revised_properties(m[o], t, fields, params, now, PropertyName::Dtstart);
            revised_properties(m[o], t, fields, params, now, PropertyName::Dtend);
            revised_properties(m[o], t, fields, params, now, PropertyName::Summary);
            revised_properties(m[o], t, fields, params, now, PropertyName::Description);
            revised_properties(m[o], t, fields, params, now, PropertyName::Location);
            assert(n[o] == crate::write::revised(m[o], t, fields, params, now));
            crate::write::lemma_same_override(m[o], n[o], k);
            assert(crate::read::is_first(n, hit, o));
            crate::read::lemma_position(n, hit, o);
        },
        None => {
            let t = crate::write::times(c, slot, fields)->Ok_0;
            let uid = crate::read::text(c, PropertyName::Uid)->0;
            let o = m.len() as int;
            new_override_properties(c, uid, t, fields, now, PropertyName::Uid);
            new_override_properties(c, uid, t, fields, now, PropertyName::RecurrenceId);
            new_override_properties(c, uid, t, fields, now, PropertyName::Dtstart);
            new_override_properties(c, uid, t, fields, now, PropertyName::Dtend);
            new_override_properties(c, uid, t, fields, now, PropertyName::Summary);
            new_override_properties(c, uid, t, fields, now, PropertyName::Description);
            new_override_properties(c, uid, t, fields, now, PropertyName::Location);
            new_override_properties(c, uid, t, fields, now, PropertyName::Sequence);
            crate::write::lemma_has(n[o], PropertyName::RecurrenceId);
            assert(hit(n[o]));
            assert forall|j: int| 0 <= j < o implies !hit(#[trigger] n[j]) by {
                if hit(m[j]) {
                    crate::read::lemma_first_exists(m, hit, j);
                }
                crate::write::lemma_same_override(m[j], n[j], k);
            }
            assert(crate::read::is_first(n, hit, o));
            crate::read::lemma_position(n, hit, o);
        },
    }
}

/// The time zone among the parameters of a style is the style's own.
proof fn lemma_style_params(style: StyleView)
    ensures
        crate::read::tzid(crate::write::style_params(style)) == match style {
            StyleView::Tzid(tz) => Some(tz),
            _ => None,
        },
{
    reveal_with_fuel(crate::read::tzid, 2);
    let p = crate::write::style_params(style);
    if p.len() > 0 {
        assert(p.drop_last() =~= seq![]);
    }
}

/// Changing one occurrence leaves the master where it is, and its style as it
/// is. That holds as well where an override has to stand in for the master.
pub proof fn update_keeps_the_style(
    m: Seq<ComponentView>,
    slot: Seq<char>,
    fields: FieldsView,
    now: i64,
)
    requires
        crate::write::updated(m, slot, fields, now) is Ok,
    ensures
        crate::read::master(crate::write::updated(m, slot, fields, now)->Ok_0)
            == crate::read::master(m),
        crate::write::style_of(
            crate::write::updated(m, slot, fields, now)->Ok_0[crate::read::master(m)->0],
        ) == crate::write::style_of(m[crate::read::master(m)->0]),
{
    let n = crate::write::updated(m, slot, fields, now)->Ok_0;
    let i = crate::read::master(m)->0;
    let c = m[i];
    let t = dates_set(m, slot, fields);
    let k = slot_key(m, slot);
    let style = crate::write::style_of(c);
    let params = crate::write::style_params(style);
    let hit = |x: ComponentView| crate::write::overrides(x, k);
    let own = |x: ComponentView| crate::read::is_event(x) && !crate::model::is_override(x);
    let any = |x: ComponentView| crate::read::is_event(x);
    lemma_master(m);
    lemma_root(m);
    lemma_style_params(style);
    assert forall|j: int| 0 <= j < m.len() implies (#[trigger] n[j]).kind == m[j].kind
        && crate::model::is_override(n[j]) == crate::model::is_override(m[j]) by {
        if crate::write::override_of(m, k) == Some(j) {
            revised_properties(m[j], t, fields, params, now, PropertyName::RecurrenceId);
            crate::write::lemma_has(m[j], PropertyName::RecurrenceId);
            crate::write::lemma_has(n[j], PropertyName::RecurrenceId);
        } else {
            assert(n[j].entries == m[j].entries);
        }
    }
    if crate::write::override_of(m, k) is None {
        let uid = crate::read::text(c, PropertyName::Uid)->0;
        new_override_properties(c, uid, t->0, fields, now, PropertyName::RecurrenceId);
        crate::write::lemma_has(n[m.len() as int], PropertyName::RecurrenceId);
    } else {
        lemma_is_first(m, hit);
    }
    if crate::read::position(m, own) is Some {
        lemma_is_first(m, own);
        assert(crate::read::is_first(n, own, i));
        crate::read::lemma_position(n, own, i);
    } else {
        lemma_is_first(m, any);
        assert(crate::read::is_first(n, any, i));
        crate::read::lemma_position(n, any, i);
        if crate::read::position(n, own) is Some {
            lemma_is_first(n, own);
            let j = crate::read::position(n, own)->0;
            if j < m.len() {
                crate::read::lemma_first_exists(m, own, j);
            }
        }
    }
    if crate::write::override_of(m, k) == Some(i) {
        revised_properties(c, t, fields, params, now, PropertyName::Dtstart);
    }
}

/// Changing the same occurrence twice updates its override in place: the
/// second change adds no component.
pub proof fn second_update_reuses_the_override(
    m: Seq<ComponentView>,
    slot: Seq<char>,
    first: FieldsView,
    second: FieldsView,
    now: i64,
    later: i64,
)
    requires
        crate::write::updated(m, slot, first, now) is Ok,
        crate::write::updated(
            crate::write::updated(m, slot, first, now)->Ok_0,
            slot,
            second,
            later,
        ) is Ok,
    ensures
        crate::write::updated(
            crate::write::updated(m, slot, first, now)->Ok_0,
            slot,
            second,
            later,
        )->Ok_0.len() == crate::write::updated(m, slot, first, now)->Ok_0.len(),
{
    let n = crate::write::updated(m, slot, first, now)->Ok_0;
    update_keeps_the_style(m, slot, first, now);
    update_leaves_an_override(m, slot, first, now);
    update_leaves_an_override(n, slot, second, later);
}

/// What a deletion takes away: the overrides of the slot, and whatever they
/// hold.
pub open spec fn taken(m: Seq<ComponentView>, slot: Seq<char>, now: i64, j: int) -> bool {
    let (marked, ids) = crate::write::excluded(m, slot, now)->Ok_0;
    crate::model::removed(marked, ids, j)
}

/// The place of a component after a deletion.
pub open spec fn place(m: Seq<ComponentView>, slot: Seq<char>, now: i64, j: int) -> int {
    let (marked, ids) = crate::write::excluded(m, slot, now)->Ok_0;
    crate::model::rank(marked, ids, j) as int
}

/// Where nothing is removed, every component keeps its place.
proof fn lemma_nothing_removed(m: Seq<ComponentView>, ids: Seq<u32>, j: int)
    requires
        ids.len() == 0,
        0 <= j <= m.len(),
    ensures
        j < m.len() ==> !crate::model::removed(m, ids, j),
        crate::model::rank(m, ids, j) == j,
    decreases j,
{
    if j > 0 {
        lemma_nothing_removed(m, ids, j - 1);
    }
    if exists|i: int|
        0 <= i < j && #[trigger] m[i].children.contains(j as u32) && crate::model::removed(
            m,
            ids,
            i,
        ) {
        let i = choose|i: int|
            0 <= i < j && #[trigger] m[i].children.contains(j as u32) && crate::model::removed(
                m,
                ids,
                i,
            );
        lemma_nothing_removed(m, ids, i);
    }
}

/// Where a component that stays is found after a deletion, with its kind and
/// entries.
proof fn lemma_stays(m: Seq<ComponentView>, slot: Seq<char>, now: i64, j: int)
    requires
        crate::write::deleted(m, slot, now) is Ok,
        0 <= j < m.len(),
        !taken(m, slot, now, j),
    ensures
        ({
            let n = crate::write::deleted(m, slot, now)->Ok_0;
            let marked = crate::write::excluded(m, slot, now)->Ok_0.0;
            let q = place(m, slot, now, j);
            0 <= q < n.len() && n[q].kind == marked[j].kind && n[q].entries == marked[j].entries
        }),
{
    let (marked, ids) = crate::write::excluded(m, slot, now)->Ok_0;
    if ids.len() == 0 {
        lemma_nothing_removed(marked, ids, j);
    } else {
        crate::model::lemma_kept(marked, ids, marked.len(), j);
    }
}

/// Deleting one occurrence leaves every component but the master as it is, but
/// for the overrides of its slot and what these hold, which go.
pub proof fn delete_spares_the_rest(m: Seq<ComponentView>, slot: Seq<char>, now: i64, j: int)
    requires
        crate::write::deleted(m, slot, now) is Ok,
        0 <= j < m.len(),
        !taken(m, slot, now, j),
        j != crate::read::master(m)->0,
    ensures
        ({
            let n = crate::write::deleted(m, slot, now)->Ok_0;
            let q = place(m, slot, now, j);
            0 <= q < n.len() && n[q].kind == m[j].kind && n[q].entries == m[j].entries
        }),
{
    lemma_stays(m, slot, now, j);
}

/// Deleting one occurrence leaves no override of its slot.
pub proof fn delete_drops_the_override(m: Seq<ComponentView>, slot: Seq<char>, now: i64, q: int)
    requires
        m.len() <= u32::MAX,
        crate::write::deleted(m, slot, now) is Ok,
        0 <= q < crate::write::deleted(m, slot, now)->Ok_0.len(),
    ensures
        !crate::write::overrides(
            crate::write::deleted(m, slot, now)->Ok_0[q],
            crate::write::key(
                crate::write::slot_value(
                    slot,
                    crate::write::style_of(m[crate::read::master(m)->0]),
                )->Ok_0,
            ),
        ),
{
    let d = crate::write::slot_value(
        slot,
        crate::write::style_of(m[crate::read::master(m)->0]),
    )->Ok_0;
    let k = crate::write::key(d);
    let (marked, ids) = crate::write::excluded(m, slot, now)->Ok_0;
    let n = crate::write::deleted(m, slot, now)->Ok_0;
    if ids.len() == 0 {
        crate::write::lemma_override_ids(marked, k, marked.len(), q as u32);
        if crate::write::overrides(n[q], k) {
            assert(ids.contains(q as u32));
        }
    } else {
        let from = crate::model::lemma_kept_source(marked, ids, marked.len(), q);
        crate::write::lemma_override_ids(marked, k, marked.len(), from as u32);
        assert(!ids.contains(from as u32));
        crate::write::lemma_same_override(marked[from], n[q], k);
    }
}

/// Deleting one occurrence excludes its slot at the master, by an `EXDATE` in
/// the style of the master's own `DTSTART`, and leaves every property of the
/// master but that and `DTSTAMP` as it was, and every `EXDATE` that was there.
pub proof fn delete_excludes_at_the_master(
    m: Seq<ComponentView>,
    slot: Seq<char>,
    now: i64,
    p: PropertyName,
)
    requires
        crate::write::deleted(m, slot, now) is Ok,
        !taken(m, slot, now, crate::read::master(m)->0),
    ensures
        ({
            let n = crate::write::deleted(m, slot, now)->Ok_0;
            let i = crate::read::master(m)->0;
            let q = place(m, slot, now, i);
            let style = crate::write::style_of(m[i]);
            let d = crate::write::slot_value(slot, style)->Ok_0;
            &&& 0 <= q < n.len()
            &&& n[q].kind == m[i].kind
            &&& n[q].entries.contains(
                crate::write::date_entry(
                    PropertyName::Exdate,
                    d,
                    crate::write::style_params(style),
                ),
            )
            &&& p != PropertyName::Dtstamp && p != PropertyName::Exdate ==> crate::read::property(
                n[q].entries,
                p,
            ) == crate::read::property(m[i].entries, p)
            &&& forall|e: EntryView|
                #![trigger n[q].entries.contains(e)]
                m[i].entries.contains(e) && !crate::model::named(e, PropertyName::Dtstamp)
                    ==> n[q].entries.contains(e)
        }),
{
    let i = crate::read::master(m)->0;
    let style = crate::write::style_of(m[i]);
    let d = crate::write::slot_value(slot, style)->Ok_0;
    lemma_master(m);
    lemma_stays(m, slot, now, i);
    if p != PropertyName::Dtstamp && p != PropertyName::Exdate {
        crate::write::lemma_excluding(m[i], d, now, p);
    }
    let x = crate::write::date_entry(PropertyName::Exdate, d, crate::write::style_params(style));
    let entries = m[i].entries.push(x);
    let done = crate::write::excluding(m[i], d, now).entries;
    assert forall|e: EntryView|
        #![trigger done.contains(e)]
        entries.contains(e) && !crate::model::named(e, PropertyName::Dtstamp) implies done.contains(
        e,
    ) by {
        let keep = |e: EntryView| !crate::model::named(e, PropertyName::Dtstamp);
        let at = choose|at: int| 0 <= at < entries.len() && entries[at] == e;
        entries.lemma_filter_contains(keep, at);
        let kept = crate::write::dropped(entries, PropertyName::Dtstamp);
        let b = choose|b: int| 0 <= b < kept.len() && kept[b] == e;
        assert(done[b] == e);
    }
    assert(entries[m[i].entries.len() as int] == x);
    assert(done.contains(x));
    assert forall|e: EntryView|
        #![trigger done.contains(e)]
        m[i].entries.contains(e) && !crate::model::named(e, PropertyName::Dtstamp) implies done.contains(
        e,
    ) by {
        let at = choose|at: int| 0 <= at < m[i].entries.len() && m[i].entries[at] == e;
        assert(entries[at] == e);
    }
}

/// Can the end that follows a start be told from the dates that are stored? It
/// cannot where a leap second is followed by an end before it, or outside of
/// the years that four digits can date.
pub open spec fn settles(s: Seq<char>, seconds: int, style: StyleView) -> bool {
    let (start, length) = if style is AllDay {
        (
            crate::civil::date(crate::text::byte_prefix(s, 10))->0,
            crate::write::whole_days(seconds) * 86400,
        )
    } else {
        (crate::write::clock(s, style)->Ok_0, seconds)
    };
    &&& start.valid() && 0 <= start.year <= 9999
    &&& start.ordinary() || length >= 0
    &&& style is AllDay ==> start.hour == 0 && start.minute == 0 && start.second == 0
    &&& crate::civil::added(start, length) matches Some(end) && 0 <= end.year <= 9999
}

/// The wall clocks of a date-time and of a day that were stored.
pub proof fn lemma_stored(c: Civil, utc: bool)
    requires
        c.valid(),
        0 <= c.year <= 9999,
    ensures
        crate::read::wall_clock(crate::ical::date_time_value(c, utc)) == Some(
            Civil { nano: 0, ..c },
        ),
        crate::read::wall_clock(crate::write::date_value(c)) == Some(
            Civil { hour: 0, minute: 0, second: 0, nano: 0, ..c },
        ),
{
    assert(c.year as u16 as i32 == c.year);
}

/// A clock that is a number of days from 1970 shows midnight.
proof fn lemma_midnight(c: Civil, days: int)
    requires
        c.valid(),
        c.seconds() == days * 86400,
    ensures
        c.hour == 0 && c.minute == 0 && c.second == 0,
{
    let d = crate::civil::day_number(c.year as int, c.month as int, c.day as int);
    let rest = c.hour * 3600 + c.minute * 60 + c.second;
    assert(0 <= rest < 86400);
    assert(rest == (days - d) * 86400);
    assert(days - d == 0);
}

/// The duration between a start that is stored and the end that was derived
/// for it gives that end again.
proof fn lemma_duration_settles(c: ComponentView, s: Seq<char>, seconds: int, style: StyleView)
    requires
        settles(s, seconds, style),
        crate::write::end_text(s, seconds, style) is Ok,
        style == crate::write::style_of(c),
        crate::write::slot_value(s, style) is Ok,
        crate::read::date(c, PropertyName::Dtstart) == Some(
            crate::write::slot_value(s, style)->Ok_0,
        ),
        crate::read::date(c, PropertyName::Dtend) == Some(
            crate::write::slot_value(
                crate::write::end_text(s, seconds, style)->Ok_0,
                style,
            )->Ok_0,
        ),
    ensures
        crate::write::end_text(s, crate::write::duration(c), style) == crate::write::end_text(
            s,
            seconds,
            style,
        ),
{
    if style is AllDay {
        let start = crate::civil::date(crate::text::byte_prefix(s, 10))->0;
        let days = crate::write::whole_days(seconds);
        let end = crate::civil::added(start, days * 86400)->0;
        let from = crate::civil::day_number(start.year as int, start.month as int, start.day as int);
        derived_end_follows_the_day(s, seconds, start, end);
        lemma_added(start, days * 86400);
        assert(end.seconds() == (from + days) * 86400);
        lemma_midnight(end, from + days);
        lemma_stored(start, false);
        lemma_stored(end, false);
        assert(crate::write::duration(c) == days * 86400);
        assert(crate::write::whole_days(days * 86400) == days);
    } else {
        let start = crate::write::clock(s, style)->Ok_0;
        let end = crate::civil::added(start, seconds)->0;
        derived_end_follows_the_start(s, seconds, style, start, end);
        lemma_added(start, seconds);
        lemma_stored(start, style is Utc);
        lemma_stored(end, style is Utc);
        assert(crate::write::duration(c) == seconds);
    }
}

/// Making the same change once more succeeds and changes nothing but the
/// override's `DTSTAMP`. Where an override has to stand in for the master, the
/// change sets the duration of that too, which has to be one that settles.
pub proof fn repeated_update_changes_nothing(
    m: Seq<ComponentView>,
    slot: Seq<char>,
    fields: FieldsView,
    now: i64,
    later: i64,
    p: PropertyName,
)
    requires
        crate::write::updated(m, slot, fields, now) is Ok,
        crate::write::overrides(m[crate::read::master(m)->0], slot_key(m, slot))
            ==> fields.end is Some || fields.start is None || settles(
            fields.start->0,
            crate::write::duration(m[crate::read::master(m)->0]),
            crate::write::style_of(m[crate::read::master(m)->0]),
        ),
        p != PropertyName::Dtstamp,
    ensures
        ({
            let n = crate::write::updated(m, slot, fields, now)->Ok_0;
            let again = crate::write::updated(n, slot, fields, later);
            let o = crate::write::override_of(n, slot_key(m, slot))->0;
            &&& again is Ok
            &&& again->Ok_0.len() == n.len()
            &&& forall|j: int| 0 <= j < n.len() && j != o ==> #[trigger] again->Ok_0[j] == n[j]
            &&& again->Ok_0[o].kind == n[o].kind
            &&& again->Ok_0[o].children == n[o].children
            &&& crate::read::property(again->Ok_0[o].entries, p) == crate::read::property(
                n[o].entries,
                p,
            )
        }),
{
    let n = crate::write::updated(m, slot, fields, now)->Ok_0;
    let i = crate::read::master(m)->0;
    let c = m[i];
    let k = slot_key(m, slot);
    let params = crate::write::style_params(crate::write::style_of(c));
    let t = dates_set(m, slot, fields);
    lemma_master(m);
    lemma_root(m);
    update_keeps_the_style(m, slot, fields, now);
    update_leaves_an_override(m, slot, fields, now);
    update_spares_the_rest(m, slot, fields, now);
    let o = crate::write::override_of(n, k)->0;
    let u = dates_set(n, slot, fields);
    match crate::write::override_of(m, k) {
        Some(w) => {
            lemma_is_first(m, |x: ComponentView| crate::write::overrides(x, k));
            assert(n[o] == crate::write::revised(m[o], t, fields, params, now));
            revised_properties(m[o], t, fields, params, now, PropertyName::Uid);
            revised_properties(m[o], t, fields, params, now, p);
        },
        None => {
            let uid = crate::read::text(c, PropertyName::Uid)->0;
            assert(n[i].entries == c.entries);
            new_override_properties(c, uid, t->0, fields, now, p);
        },
    }
    assert(crate::read::text(n[i], PropertyName::Uid) == crate::read::text(c, PropertyName::Uid));
    assert(slot_key(n, slot) == k);
    if !crate::write::keeps_times(fields) {
        if !crate::write::overrides(c, k) {
            assert(n[i].entries == c.entries);
        } else if fields.end is None {
            let own = |x: ComponentView| crate::read::is_event(x) && !crate::model::is_override(x);
            let any = |x: ComponentView| crate::read::is_event(x);
            if crate::read::position(m, own) is Some {
                lemma_is_first(m, own);
            }
            lemma_is_first(m, any);
            lemma_is_first(m, |x: ComponentView| crate::write::overrides(x, k));
            if o != i {
                crate::read::lemma_first_exists(
                    m,
                    |x: ComponentView| crate::write::overrides(x, k),
                    i,
                );
            }
            assert(o == i);
            revised_properties(c, t, fields, params, now, PropertyName::Dtstart);
            revised_properties(c, t, fields, params, now, PropertyName::Dtend);
            lemma_duration_settles(
                n[i],
                fields.start->0,
                crate::write::duration(c),
                crate::write::style_of(c),
            );
        }
        assert(crate::write::times(n[i], slot, fields) == crate::write::times(c, slot, fields));
    }
    revised_properties(n[o], u, fields, params, later, p);
}

/// How sub-components are relabelled rests on where the components stand, and
/// on the sub-components alone.
proof fn lemma_relabelled_same(
    a: Seq<ComponentView>,
    i: Seq<u32>,
    b: Seq<ComponentView>,
    j: Seq<u32>,
    children: Seq<u32>,
)
    requires
        forall|q: int|
            0 <= q < children.len() ==> crate::model::removed(
                a,
                i,
                #[trigger] children[q] as int,
            ) == crate::model::removed(b, j, children[q] as int),
        forall|q: int|
            0 <= q < children.len() ==> crate::model::rank(a, i, #[trigger] children[q] as int)
                == crate::model::rank(b, j, children[q] as int),
    ensures
        crate::model::relabelled(a, i, children) == crate::model::relabelled(b, j, children),
    decreases children.len(),
{
    reveal(Seq::filter);
    let x = crate::model::relabelled(a, i, children);
    let y = crate::model::relabelled(b, j, children);
    if children.len() > 0 {
        let front = children.drop_last();
        assert forall|q: int| 0 <= q < front.len() implies children[q] == #[trigger] front[q] by {}
        lemma_relabelled_same(a, i, b, j, front);
        let f = crate::model::relabelled(a, i, front);
        let last = children[children.len() - 1];
        if crate::model::removed(a, i, last as int) {
            assert(x =~= f && y =~= f);
        } else {
            assert(x =~= f.push(crate::model::rank(a, i, last as int) as u32));
            assert(y =~= f.push(crate::model::rank(a, i, last as int) as u32));
        }
    } else {
        assert(x =~= y);
    }
}

/// What a removal leaves rests on the sub-components and on what stays alone.
proof fn lemma_kept_same(a: Seq<ComponentView>, b: Seq<ComponentView>, ids: Seq<u32>, n: nat)
    requires
        n <= a.len() == b.len(),
        crate::model::is_tree(a),
        forall|j: int| 0 <= j < a.len() ==> (#[trigger] a[j]).children == b[j].children,
        forall|j: int| 0 <= j < a.len() && !ids.contains(j as u32) ==> #[trigger] a[j] == b[j],
    ensures
        crate::model::kept(a, ids, n) == crate::model::kept(b, ids, n),
    decreases n,
{
    if n > 0 {
        let i = n - 1;
        lemma_kept_same(a, b, ids, i as nat);
        lemma_removed_same(a, b, ids, i);
        if !crate::model::removed(a, ids, i) {
            assert forall|q: int| 0 <= q < a[i].children.len() implies crate::model::removed(
                a,
                ids,
                #[trigger] a[i].children[q] as int,
            ) == crate::model::removed(b, ids, a[i].children[q] as int) && crate::model::rank(
                a,
                ids,
                a[i].children[q] as int,
            ) == crate::model::rank(b, ids, a[i].children[q] as int) by {
                lemma_removed_same(a, b, ids, a[i].children[q] as int);
            }
            lemma_relabelled_same(a, ids, b, ids, a[i].children);
        }
    }
}

/// Which components go, and where the others stand, rests on the
/// sub-components alone.
proof fn lemma_removed_same(a: Seq<ComponentView>, b: Seq<ComponentView>, ids: Seq<u32>, i: int)
    requires
        i <= a.len() == b.len(),
        forall|j: int| 0 <= j < a.len() ==> (#[trigger] a[j]).children == b[j].children,
    ensures
        crate::model::removed(a, ids, i) == crate::model::removed(b, ids, i),
        crate::model::rank(a, ids, i) == crate::model::rank(b, ids, i),
    decreases i,
{
    if i > 0 {
        lemma_removed_same(a, b, ids, i - 1);
    }
    assert forall|j: int| 0 <= j < i implies crate::model::removed(a, ids, j)
        == #[trigger] crate::model::removed(b, ids, j) by {
        lemma_removed_same(a, b, ids, j);
    }
    if crate::model::removed(a, ids, i) && !ids.contains(i as u32) {
        let j = choose|j: int|
            0 <= j < i && #[trigger] a[j].children.contains(i as u32) && crate::model::removed(
                a,
                ids,
                j,
            );
        assert(b[j].children.contains(i as u32) && crate::model::removed(b, ids, j));
    }
    if crate::model::removed(b, ids, i) && !ids.contains(i as u32) {
        let j = choose|j: int|
            0 <= j < i && #[trigger] b[j].children.contains(i as u32) && crate::model::removed(
                b,
                ids,
                j,
            );
        assert(a[j].children.contains(i as u32) && crate::model::removed(a, ids, j));
    }
}

/// Where no component is an override of a slot, none is found.
proof fn lemma_no_override_ids(m: Seq<ComponentView>, k: SlotKey, n: nat)
    requires
        n <= m.len(),
        forall|j: int| 0 <= j < n ==> !crate::write::overrides(#[trigger] m[j], k),
    ensures
        crate::write::override_ids(m, k, n) == Seq::<u32>::empty(),
    decreases n,
{
    if n > 0 {
        lemma_no_override_ids(m, k, (n - 1) as nat);
    }
}

/// Calendars with overrides of a slot in the same places.
proof fn lemma_same_override_ids(
    a: Seq<ComponentView>,
    b: Seq<ComponentView>,
    k: SlotKey,
    n: nat,
)
    requires
        n <= a.len() == b.len(),
        forall|j: int|
            0 <= j < n ==> crate::write::overrides(#[trigger] a[j], k) == crate::write::overrides(
                b[j],
                k,
            ),
    ensures
        crate::write::override_ids(a, k, n) == crate::write::override_ids(b, k, n),
    decreases n,
{
    if n > 0 {
        assert(crate::write::overrides(a[n - 1], k) == crate::write::overrides(b[n - 1], k));
        lemma_same_override_ids(a, b, k, (n - 1) as nat);
    }
}

/// Taking out the component `l` alone takes none in front of it.
proof fn lemma_earlier_stay(m: Seq<ComponentView>, ids: Seq<u32>, l: u32, i: int)
    requires
        ids == seq![l],
        0 <= i <= l,
    ensures
        i < l ==> !crate::model::removed(m, ids, i),
        crate::model::rank(m, ids, i) == i,
    decreases i,
{
    if i > 0 {
        lemma_earlier_stay(m, ids, l, i - 1);
    }
    if i < l {
        assert(!ids.contains(i as u32));
        if crate::model::removed(m, ids, i) {
            let j = choose|j: int|
                0 <= j < i && #[trigger] m[j].children.contains(i as u32) && crate::model::removed(
                    m,
                    ids,
                    j,
                );
            lemma_earlier_stay(m, ids, l, j);
        }
    }
}

/// Taking out the component `l` alone takes it from a list of sub-components
/// up to it, and leaves the others their numbers.
proof fn lemma_earlier_labels(m: Seq<ComponentView>, ids: Seq<u32>, l: u32, children: Seq<u32>)
    requires
        ids == seq![l],
        forall|q: int| 0 <= q < children.len() ==> #[trigger] children[q] < l,
    ensures
        crate::model::relabelled(m, ids, children) == children,
        crate::model::relabelled(m, ids, children.push(l)) == children,
    decreases children.len(),
{
    reveal(Seq::filter);
    let keep = |c: u32| !crate::model::removed(m, ids, c as int);
    assert(ids[0] == l);
    assert(crate::model::removed(m, ids, l as int));
    assert(children.push(l).drop_last() =~= children);
    if children.len() > 0 {
        let front = children.drop_last();
        let last = children[children.len() - 1];
        lemma_earlier_labels(m, ids, l, front);
        lemma_earlier_stay(m, ids, l, last as int);
        let f = crate::model::relabelled(m, ids, front);
        assert(children.filter(keep) =~= front.filter(keep).push(last));
        assert(crate::model::relabelled(m, ids, children) =~= f.push(last));
        assert(f.push(last) =~= children);
    } else {
        assert(crate::model::relabelled(m, ids, children) =~= children);
    }
    assert(children.push(l).filter(keep) =~= children.filter(keep));
}

/// Taking the last component out again leaves what was there before it came.
proof fn lemma_last_removed(
    a: Seq<ComponentView>,
    b: Seq<ComponentView>,
    r: int,
    ids: Seq<u32>,
    n: nat,
)
    requires
        crate::model::is_tree(b),
        b.len() <= u32::MAX,
        a.len() == b.len() + 1,
        0 <= r < b.len(),
        ids == seq![b.len() as u32],
        forall|j: int| 0 <= j < b.len() && j != r ==> #[trigger] a[j] == b[j],
        a[r] == (ComponentView { children: b[r].children.push(b.len() as u32), ..b[r] }),
        n <= b.len(),
    ensures
        crate::model::kept(a, ids, n) == b.take(n as int),
    decreases n,
{
    if n == 0 {
        assert(b.take(0) =~= seq![]);
    } else {
        let i = n - 1;
        let l = b.len() as u32;
        lemma_last_removed(a, b, r, ids, i as nat);
        lemma_earlier_stay(a, ids, l, i);
        assert forall|q: int| 0 <= q < b[i].children.len() implies #[trigger] b[i].children[q]
            < l by {}
        lemma_earlier_labels(a, ids, l, b[i].children);
        assert(b.take(n as int) =~= b.take(i).push(b[i]));
        assert(crate::model::kept(a, ids, n) == b.take(i).push(b[i]));
    }
}

/// Taking a slot out of a calendar after one occurrence was changed, where its
/// override was there already.
proof fn lemma_revised_then_deleted(
    m: Seq<ComponentView>,
    slot: Seq<char>,
    fields: FieldsView,
    now: i64,
    later: i64,
)
    requires
        crate::model::is_tree(m),
        m.len() <= u32::MAX,
        crate::write::updated(m, slot, fields, now) is Ok,
        crate::write::override_of(m, slot_key(m, slot)) is Some,
    ensures
        crate::write::deleted(
            crate::write::updated(m, slot, fields, now)->Ok_0,
            slot,
            later,
        ) == crate::write::deleted(m, slot, later),
{
    let n = crate::write::updated(m, slot, fields, now)->Ok_0;
    let i = crate::read::master(m)->0;
    let d = slot_date(m, slot);
    let k = slot_key(m, slot);
    let o = crate::write::override_of(m, k)->0;
    let t = dates_set(m, slot, fields);
    let params = crate::write::style_params(crate::write::style_of(m[i]));
    lemma_master(m);
    update_keeps_the_style(m, slot, fields, now);
    lemma_is_first(m, |c: ComponentView| crate::write::overrides(c, k));
    assert(n[o] == crate::write::revised(m[o], t, fields, params, now));
    revised_properties(m[o], t, fields, params, now, PropertyName::RecurrenceId);
    revised_properties(m[o], t, fields, params, now, PropertyName::Rrule);
    revised_properties(m[o], t, fields, params, now, PropertyName::Rdate);
    crate::write::lemma_has(m[o], PropertyName::Rrule);
    crate::write::lemma_has(n[o], PropertyName::Rrule);
    crate::write::lemma_has(m[o], PropertyName::Rdate);
    crate::write::lemma_has(n[o], PropertyName::Rdate);
    crate::write::lemma_same_override(m[o], n[o], k);
    assert(crate::model::is_recurrent(n[i]) == crate::model::is_recurrent(m[i]));
    if crate::model::is_recurrent(m[i]) {
        let a = n.update(i, crate::write::excluding(n[i], d, later));
        let b = m.update(i, crate::write::excluding(m[i], d, later));
        crate::write::lemma_excluding(m[i], d, later, PropertyName::RecurrenceId);
        crate::write::lemma_excluding(n[i], d, later, PropertyName::RecurrenceId);
        crate::write::lemma_same_override(m[i], b[i], k);
        crate::write::lemma_same_override(n[i], a[i], k);
        assert forall|j: int| 0 <= j < a.len() implies crate::write::overrides(#[trigger] a[j], k)
            == crate::write::overrides(b[j], k) by {
            if j != i && j != o {
                assert(a[j] == b[j]);
            }
        }
        lemma_same_override_ids(a, b, k, a.len());
        let ids = crate::write::override_ids(b, k, b.len());
        crate::write::lemma_override_ids(b, k, b.len(), o as u32);
        assert(ids.contains(o as u32));
        assert forall|j: int| 0 <= j < a.len() implies (#[trigger] a[j]).children
            == b[j].children by {
            assert(n[j].children == m[j].children);
        }
        assert forall|j: int| 0 <= j < a.len() && !ids.contains(j as u32) implies #[trigger] a[j]
            == b[j] by {
            assert(j != o);
            assert(n[j] == m[j]);
        }
        assert forall|x: int, j: int|
            0 <= x < a.len() && 0 <= j < a[x].children.len() implies x
            < #[trigger] a[x].children[j] < a.len() by {
            assert(a[x].children == m[x].children);
            assert(x < m[x].children[j]);
        }
        lemma_kept_same(a, b, ids, a.len());
    }
}

/// Taking a slot out of a calendar after one occurrence was changed, where its
/// override is new.
proof fn lemma_attached_then_deleted(
    m: Seq<ComponentView>,
    slot: Seq<char>,
    fields: FieldsView,
    now: i64,
    later: i64,
)
    requires
        crate::model::is_tree(m),
        m.len() <= u32::MAX,
        crate::write::updated(m, slot, fields, now) is Ok,
        crate::write::override_of(m, slot_key(m, slot)) is None,
    ensures
        crate::write::deleted(
            crate::write::updated(m, slot, fields, now)->Ok_0,
            slot,
            later,
        ) == crate::write::deleted(m, slot, later),
{
    let n = crate::write::updated(m, slot, fields, now)->Ok_0;
    let i = crate::read::master(m)->0;
    let d = slot_date(m, slot);
    let k = slot_key(m, slot);
    let r = crate::write::root(m);
    let l = m.len() as int;
    let hit = |c: ComponentView| crate::write::overrides(c, k);
    lemma_master(m);
    lemma_root(m);
    update_keeps_the_style(m, slot, fields, now);
    update_leaves_an_override(m, slot, fields, now);
    lemma_is_first(n, hit);
    assert(n[i].entries == m[i].entries);
    crate::write::lemma_has(m[i], PropertyName::Rrule);
    crate::write::lemma_has(n[i], PropertyName::Rrule);
    crate::write::lemma_has(m[i], PropertyName::Rdate);
    crate::write::lemma_has(n[i], PropertyName::Rdate);
    if crate::model::is_recurrent(m[i]) {
        let a = n.update(i, crate::write::excluding(n[i], d, later));
        let b = m.update(i, crate::write::excluding(m[i], d, later));
        crate::write::lemma_excluding(m[i], d, later, PropertyName::RecurrenceId);
        crate::write::lemma_excluding(n[i], d, later, PropertyName::RecurrenceId);
        crate::write::lemma_same_override(m[i], b[i], k);
        crate::write::lemma_same_override(n[i], a[i], k);
        assert forall|j: int| 0 <= j < l implies !crate::write::overrides(#[trigger] a[j], k) by {
            assert(!hit(n[j]));
        }
        assert forall|j: int| 0 <= j < l implies !crate::write::overrides(#[trigger] b[j], k) by {
            if hit(m[j]) {
                crate::read::lemma_first_exists(m, hit, j);
            }
        }
        lemma_no_override_ids(a, k, l as nat);
        lemma_no_override_ids(b, k, l as nat);
        let ids = crate::write::override_ids(a, k, a.len());
        assert(a[l] == n[l]);
        assert(crate::write::overrides(n[l], k));
        assert(a.len() == l + 1);
        assert(ids =~= seq![l as u32]);
        assert forall|x: int, j: int|
            0 <= x < b.len() && 0 <= j < b[x].children.len() implies x
            < #[trigger] b[x].children[j] < b.len() by {
            assert(b[x].children == m[x].children);
            assert(x < m[x].children[j]);
        }
        lemma_last_removed(a, b, r, ids, b.len());
        assert(ids[0] == l as u32);
        assert(crate::model::removed(a, ids, l));
        assert(b.take(l) =~= b);
    }
}

/// Deleting an occurrence after a change of it leaves what deleting it at once
/// leaves.
pub proof fn delete_undoes_the_update(
    m: Seq<ComponentView>,
    slot: Seq<char>,
    fields: FieldsView,
    now: i64,
    later: i64,
)
    requires
        crate::model::is_tree(m),
        m.len() <= u32::MAX,
        crate::write::updated(m, slot, fields, now) is Ok,
    ensures
        crate::write::deleted(
            crate::write::updated(m, slot, fields, now)->Ok_0,
            slot,
            later,
        ) == crate::write::deleted(m, slot, later),
{
    if crate::write::override_of(m, slot_key(m, slot)) is Some {
        lemma_revised_then_deleted(m, slot, fields, now, later);
    } else {
        lemma_attached_then_deleted(m, slot, fields, now, later);
    }
}

/// Setting a property leaves exactly one entry of its name, the new one.
pub proof fn set_leaves_one(entries: Seq<EntryView>, n: PropertyName, e: EntryView, i: int)
    requires
        crate::model::named(e, n),
        0 <= i < crate::write::set(entries, n, e).len(),
    ensures
        crate::write::set(entries, n, e).last() == e,
        crate::model::named(crate::write::set(entries, n, e)[i], n) <==> i == crate::write::set(
            entries,
            n,
            e,
        ).len() - 1,
{
    let keep = |x: EntryView| !crate::model::named(x, n);
    if i < crate::write::dropped(entries, n).len() {
        entries.lemma_filter_pred(keep, i);
    }
}

/// A step from a wall clock that `chrono` can hold leads to one.
proof fn lemma_added(c: Civil, n: int)
    requires
        c.valid(),
        crate::civil::added(c, n) is Some,
    ensures
        crate::civil::added(c, n)->0.valid(),
        c.ordinary() || n >= 0 ==> crate::civil::added(c, n)->0.seconds() == c.seconds() + n,
{
    let from = if c.ordinary() || n > 0 {
        c.seconds()
    } else {
        c.seconds() + 1
    };
    if n != 0 {
        crate::civil::lemma_at(from + n, (c.nano as int % 1_000_000_000) as u32);
    }
}

/// The end of a timed occurrence for which none was asked for is stored as the
/// start plus the duration, and its text reads back as that, in UTC with the
/// fraction of a second, in other styles in whole seconds. That needs an end
/// that four digits can date.
pub proof fn derived_end_follows_the_start(
    s: Seq<char>,
    seconds: int,
    style: StyleView,
    start: Civil,
    end: Civil,
)
    requires
        style !is AllDay,
        crate::write::clock(s, style) == Ok::<Civil, ErrorView>(start),
        start.valid(),
        crate::civil::added(start, seconds) == Some(end),
        0 <= end.year <= 9999,
    ensures
        crate::write::end_text(s, seconds, style) is Ok,
        crate::write::slot_value(crate::write::end_text(s, seconds, style)->Ok_0, style) == Ok::<
            PartialDate,
            ErrorView,
        >(crate::ical::date_time_value(end, style is Utc)),
        crate::write::clock(crate::write::end_text(s, seconds, style)->Ok_0, style) == Ok::<
            Civil,
            ErrorView,
        >(
            if style is Utc {
                end
            } else {
                Civil { nano: (end.nano / 1_000_000_000 * 1_000_000_000) as u32, ..end }
            },
        ),
        start.ordinary() || seconds >= 0 ==> end.seconds() == start.seconds() + seconds,
{
    lemma_added(start, seconds);
    if style is Utc {
        crate::civil::lemma_utc_reads_back(end);
    } else {
        crate::civil::lemma_date_time_reads_back(end);
    }
}

/// Where the start cannot be read there is no end, and the error says what the
/// start was.
pub proof fn unreadable_start_has_no_end(s: Seq<char>, seconds: int, style: StyleView)
    ensures
        style !is AllDay ==> (crate::write::end_text(s, seconds, style) is Err
            <==> crate::write::clock(s, style) is Err),
        style !is AllDay && crate::write::clock(s, style) is Err ==> crate::write::end_text(
            s,
            seconds,
            style,
        ) == Err::<Seq<char>, ErrorView>(ErrorView::BadDateTime(s)),
        style is AllDay ==> (crate::write::end_text(s, seconds, style) is Err
            <==> crate::civil::date(crate::text::byte_prefix(s, 10)) is None),
        style is AllDay && crate::civil::date(crate::text::byte_prefix(s, 10)) is None
            ==> crate::write::end_text(s, seconds, style) == Err::<Seq<char>, ErrorView>(
            ErrorView::BadAllDayStart(s),
        ),
{
}

/// The end of an all-day occurrence for which none was asked for is stored as
/// the start plus the whole days of the duration, at least one.
pub proof fn derived_end_follows_the_day(s: Seq<char>, seconds: int, start: Civil, end: Civil)
    requires
        crate::civil::date(crate::text::byte_prefix(s, 10)) == Some(start),
        start.valid(),
        crate::civil::added(start, crate::write::whole_days(seconds) * 86400) == Some(end),
        0 <= end.year <= 9999,
    ensures
        crate::write::end_text(s, seconds, StyleView::AllDay) is Ok,
        crate::write::slot_value(
            crate::write::end_text(s, seconds, StyleView::AllDay)->Ok_0,
            StyleView::AllDay,
        ) == Ok::<PartialDate, ErrorView>(crate::write::date_value(end)),
        end.seconds() == start.seconds() + crate::write::whole_days(seconds) * 86400,
{
    lemma_added(start, crate::write::whole_days(seconds) * 86400);
    crate::civil::lemma_date_reads_back(end);
    crate::civil::lemma_date_is_ascii(end);
    crate::text::lemma_ascii_prefix(crate::civil::date_text(end));
}

/// What the entries of a master with a slot taken out are: the new `DTSTAMP`,
/// the new `EXDATE`, and what was there before.
proof fn lemma_excluding_source(c: ComponentView, d: PartialDate, now: i64, j: int)
    requires
        0 <= j < crate::write::excluding(c, d, now).entries.len(),
    ensures
        ({
            let e = crate::write::excluding(c, d, now).entries[j];
            ||| e == crate::write::stamp_entry(now)
            ||| e == crate::write::date_entry(
                PropertyName::Exdate,
                d,
                crate::write::style_params(crate::write::style_of(c)),
            )
            ||| c.entries.contains(e)
        }),
{
    let x = crate::write::date_entry(
        PropertyName::Exdate,
        d,
        crate::write::style_params(crate::write::style_of(c)),
    );
    let entries = c.entries.push(x);
    let keep = |e: EntryView| !crate::model::named(e, PropertyName::Dtstamp);
    let kept = crate::write::dropped(entries, PropertyName::Dtstamp);
    if j < kept.len() {
        assert(kept.contains(kept[j]));
        entries.lemma_filter_contains_rev(keep, kept[j]);
        let at = choose|at: int| 0 <= at < entries.len() && entries[at] == kept[j];
        if at < c.entries.len() {
            assert(c.entries[at] == kept[j]);
        }
    }
}

/// Taking a slot out leaves a series that generates its occurrences, in the
/// time zone that it was in.
proof fn lemma_excluding_generates(c: ComponentView, d: PartialDate, now: i64)
    requires
        crate::ical::generates(c),
    ensures
        crate::ical::generates(crate::write::excluding(c, d, now)),
        forall|tz: Option<Seq<char>>|
            #![trigger crate::ical::zoned(c, tz)]
            crate::ical::zoned(c, tz) ==> crate::ical::zoned(
                crate::write::excluding(c, d, now),
                tz,
            ),
{
    let done = crate::write::excluding(c, d, now);
    crate::write::lemma_excluding(c, d, now, PropertyName::RecurrenceId);
    crate::write::lemma_has(c, PropertyName::RecurrenceId);
    crate::write::lemma_has(done, PropertyName::RecurrenceId);
    crate::write::lemma_excluding(c, d, now, PropertyName::Rdate);
    crate::write::lemma_has(c, PropertyName::Rdate);
    crate::write::lemma_has(done, PropertyName::Rdate);
    let x = crate::write::date_entry(
        PropertyName::Exdate,
        d,
        crate::write::style_params(crate::write::style_of(c)),
    );
    let entries = c.entries.push(x);
    let r = choose|r: int| 0 <= r < c.entries.len() && crate::ical::is_rule(#[trigger] c.entries[r]);
    assert(entries[r] == c.entries[r]);
    let keep = |e: EntryView| !crate::model::named(e, PropertyName::Dtstamp);
    entries.lemma_filter_contains(keep, r);
    let kept = crate::write::dropped(entries, PropertyName::Dtstamp);
    let b = choose|b: int| 0 <= b < kept.len() && kept[b] == entries[r];
    assert(crate::ical::is_rule(done.entries[b]));
    assert forall|j: int|
        0 <= j < done.entries.len() && crate::ical::is_rule(
            #[trigger] done.entries[j],
        ) implies crate::ical::is_usable_rule(done.entries[j]) by {
        lemma_excluding_source(c, d, now, j);
        let at = choose|at: int| 0 <= at < c.entries.len() && c.entries[at] == done.entries[j];
        assert(crate::ical::is_rule(c.entries[at]));
    }
    assert forall|tz: Option<Seq<char>>|
        #![trigger crate::ical::zoned(c, tz)]
        crate::ical::zoned(c, tz) implies crate::ical::zoned(done, tz) by {
        assert forall|j: int|
            0 <= j < done.entries.len() && crate::model::named(
                #[trigger] done.entries[j],
                PropertyName::Dtstart,
            ) implies crate::read::tzid(done.entries[j]->Known_0.params) == tz by {
            lemma_excluding_source(c, d, now, j);
            let at = choose|at: int| 0 <= at < c.entries.len() && c.entries[at] == done.entries[j];
            assert(crate::model::named(c.entries[at], PropertyName::Dtstart));
        }
    }
}

/// A deleted occurrence does not come back: whatever the series generates when
/// the calendar is expanded, nothing of it starts at the slot. The slot is read
/// at its own offset, or in the time zone of the series.
pub proof fn deleted_occurrence_is_gone(
    m: Seq<ComponentView>,
    slot: Seq<char>,
    now: i64,
    e: (Seq<Option<SpanView>>, vstd::multiset::Multiset<Option<SpanView>>),
    spans: Seq<Option<SpanView>>,
    k: int,
)
    requires
        crate::write::deleted(m, slot, now) is Ok,
        !taken(m, slot, now, crate::read::master(m)->0),
        crate::ical::generates(m[crate::read::master(m)->0]),
        crate::ical::unfolds(crate::write::deleted(m, slot, now)->Ok_0, e, spans),
        0 <= k < spans.len(),
        spans[k] is Some,
        spans[k]->0.comp_id == place(m, slot, now, crate::read::master(m)->0),
    ensures
        ({
            let c = m[crate::read::master(m)->0];
            let style = crate::write::style_of(c);
            let d = crate::write::slot_value(slot, style)->Ok_0;
            let x = spans[k]->0;
            &&& d.tz_hour is Some || x.zone !is Floating && crate::ical::zoned(
                c,
                crate::read::tzid(crate::write::style_params(style)),
            ) ==> (crate::ical::resolved(d, x.zone) matches Some(t) ==> x.start.timestamp
                != t.timestamp)
        }),
{
    let n = crate::write::deleted(m, slot, now)->Ok_0;
    let i = crate::read::master(m)->0;
    let c = m[i];
    let style = crate::write::style_of(c);
    let d = crate::write::slot_value(slot, style)->Ok_0;
    let x = spans[k]->0;
    let q = place(m, slot, now, i);
    lemma_master(m);
    lemma_stays(m, slot, now, i);
    let done = crate::write::excluding(c, d, now);
    assert(n[q].entries == done.entries && n[q].kind == done.kind);
    lemma_excluding_generates(c, d, now);
    assert(crate::ical::generates(n[q])) by {
        assert(crate::model::is_override(n[q]) == crate::model::is_override(done)) by {
            crate::write::lemma_has(n[q], PropertyName::RecurrenceId);
            crate::write::lemma_has(done, PropertyName::RecurrenceId);
        }
        assert(crate::model::has(n[q], PropertyName::Rdate) == crate::model::has(
            done,
            PropertyName::Rdate,
        )) by {
            crate::write::lemma_has(n[q], PropertyName::Rdate);
            crate::write::lemma_has(done, PropertyName::Rdate);
        }
    }
    let params = crate::write::style_params(style);
    let entry = crate::write::date_entry(PropertyName::Exdate, d, params);
    delete_excludes_at_the_master(m, slot, now, PropertyName::Uid);
    let at = choose|at: int| 0 <= at < n[q].entries.len() && n[q].entries[at] == entry;
    assert(crate::ical::zoned(c, crate::read::tzid(params)) ==> crate::ical::zoned(
        n[q],
        crate::read::tzid(params),
    )) by {
        assert(crate::ical::zoned(c, crate::read::tzid(params)) ==> crate::ical::zoned(
            done,
            crate::read::tzid(params),
        ));
    }
    let p = entry->Known_0;
    assert(p.values[0] == crate::model::ValueView::Date(d));
    assert(!crate::ical::excludes(n[spans[k]->0.comp_id as int], at, spans[k]->0));
    if crate::ical::falls_on(n[q], p.params, p.values[0], x) {
        assert(crate::ical::excludes(n[q], at, x));
    }
}

/// The start that is listed for a generated instance names its slot: handed
/// back for a change or a deletion, it stands for the wall clock of the series,
/// in UTC where the series is. That needs an offset of whole minutes and a year
/// of four digits.
pub proof fn listed_start_names_its_slot(m: Moment, style: StyleView)
    requires
        m.ok(),
        m.offset as int % 60 == 0,
        0 <= m.wall().year <= 9999,
        style !is AllDay,
    ensures
        crate::write::slot_value(crate::events::moment_text(m, false), style) == Ok::<
            PartialDate,
            ErrorView,
        >(
            crate::ical::date_time_value(
                if style is Utc {
                    crate::civil::at(m.timestamp as int, 0)
                } else {
                    m.wall()
                },
                style is Utc,
            ),
        ),
{
    crate::civil::moment_reads_back(m);
}

/// The date that is listed for an instance of an all-day series names its slot.
pub proof fn listed_day_names_its_slot(m: Moment)
    requires
        m.ok(),
        0 <= m.wall().year <= 9999,
    ensures
        crate::write::slot_value(crate::events::moment_text(m, true), StyleView::AllDay) == Ok::<
            PartialDate,
            ErrorView,
        >(crate::write::date_value(m.wall())),
{
    crate::civil::lemma_at(m.timestamp + m.offset, 0);
    crate::civil::lemma_date_reads_back(m.wall());
    crate::civil::lemma_date_is_ascii(m.wall());
    crate::text::lemma_ascii_prefix(crate::civil::date_text(m.wall()));
}

/// A date resolves to a moment at which its wall clock is shown.
proof fn lemma_resolved_shows(d: PartialDate, zone: ZoneView)
    requires
        crate::ical::resolved(d, zone) is Some,
        crate::ical::resolved(d, zone)->0.ok(),
    ensures
        crate::ical::resolved(d, zone)->0.wall() == crate::read::wall_clock(d)->0,
        crate::ical::resolved(d, zone)->0.timestamp + crate::ical::resolved(d, zone)->0.offset
            == crate::read::wall_clock(d)->0.seconds(),
{
    let w = crate::read::wall_clock(d)->0;
    let t = crate::ical::resolved(d, zone)->0;
    crate::civil::lemma_seconds_bounded(w);
    crate::civil::wall_clock_is_unique(w);
    if d.tz_hour is Some {
        let size = d.tz_hour.unwrap_or(0) * 3600 + d.tz_minute.unwrap_or(0) * 60;
        assert(0 <= size <= 933_300);
    }
}

/// The recurrence ID that is listed for an override names its slot: handed back
/// for a change or a deletion, it finds that override, be it in UTC, in a time
/// zone or floating. That needs an offset of whole minutes and a year of four
/// digits, and UTC where the series is in UTC.
pub proof fn listed_recurrence_id_names_its_slot(
    c: ComponentView,
    d: PartialDate,
    zone: ZoneView,
    style: StyleView,
)
    requires
        crate::read::date(c, PropertyName::RecurrenceId) == Some(d),
        !crate::read::all_day(c),
        crate::ical::resolved(d, zone) is Some,
        crate::ical::resolved(d, zone)->0.ok(),
        crate::ical::resolved(d, zone)->0.offset as int % 60 == 0,
        crate::read::wall_clock(d)->0.year <= 9999,
        style !is AllDay,
        style is Utc ==> crate::ical::resolved(d, zone)->0.offset == 0,
    ensures
        ({
            let s = crate::events::slot_text(c, zone);
            &&& s is Some
            &&& crate::write::slot_value(s->0, style) is Ok
            &&& crate::write::override_key(c) == Some(
                crate::write::key(crate::write::slot_value(s->0, style)->Ok_0),
            )
        }),
{
    lemma_resolved_shows(d, zone);
    crate::civil::moment_reads_back(crate::ical::resolved(d, zone)->0);
}

/// The recurrence ID that is listed for an override of an all-day series names
/// its slot.
pub proof fn listed_recurrence_day_names_its_slot(
    c: ComponentView,
    d: PartialDate,
    zone: ZoneView,
)
    requires
        crate::read::date(c, PropertyName::RecurrenceId) == Some(d),
        crate::read::all_day(c),
        crate::ical::resolved(d, zone) is Some,
        crate::ical::resolved(d, zone)->0.ok(),
        crate::read::wall_clock(d)->0.year <= 9999,
        crate::read::wall_clock(d)->0.hour == 0,
        crate::read::wall_clock(d)->0.minute == 0,
        crate::read::wall_clock(d)->0.second == 0,
    ensures
        ({
            let s = crate::events::slot_text(c, zone);
            &&& s is Some
            &&& crate::write::slot_value(s->0, StyleView::AllDay) is Ok
            &&& crate::write::override_key(c) == Some(
                crate::write::key(crate::write::slot_value(s->0, StyleView::AllDay)->Ok_0),
            )
        }),
{
    lemma_resolved_shows(d, zone);
    listed_day_names_its_slot(crate::ical::resolved(d, zone)->0);
}

/// Setting a property leaves the entries of all other names, and adds none.
proof fn lemma_set_contains(entries: Seq<EntryView>, n: PropertyName, e: EntryView, x: EntryView)
    requires
        crate::model::named(e, n),
        !crate::model::named(x, n),
    ensures
        crate::write::set(entries, n, e).contains(x) <==> entries.contains(x),
{
    let keep = |y: EntryView| !crate::model::named(y, n);
    let kept = crate::write::dropped(entries, n);
    let all = kept.push(e);
    if entries.contains(x) {
        let at = choose|at: int| 0 <= at < entries.len() && entries[at] == x;
        entries.lemma_filter_contains(keep, at);
        let b = choose|b: int| 0 <= b < kept.len() && kept[b] == x;
        assert(all[b] == x);
    }
    if all.contains(x) {
        let b = choose|b: int| 0 <= b < all.len() && all[b] == x;
        assert(b < kept.len());
        assert(kept.contains(kept[b]));
        entries.lemma_filter_contains_rev(keep, x);
    }
}

/// Is the entry under one of the names that a change of an override sets?
pub open spec fn is_set(e: EntryView) -> bool {
    ||| crate::model::named(e, PropertyName::Dtstart)
    ||| crate::model::named(e, PropertyName::Dtend)
    ||| crate::model::named(e, PropertyName::Dtstamp)
    ||| crate::model::named(e, PropertyName::Summary)
    ||| crate::model::named(e, PropertyName::Description)
    ||| crate::model::named(e, PropertyName::Location)
}

/// Setting a text, where there is one, leaves the entries of all other names.
proof fn lemma_set_some_contains(
    entries: Seq<EntryView>,
    n: PropertyName,
    s: Option<Seq<char>>,
    x: EntryView,
)
    requires
        !crate::model::named(x, n),
    ensures
        crate::write::set_some(entries, n, s).contains(x) <==> entries.contains(x),
{
    if let Some(t) = s {
        lemma_set_contains(entries, n, crate::write::text_entry(n, t), x);
    }
}

/// A revised override has the entries that it had, but for the names that a
/// change sets.
proof fn lemma_revised_contains(
    c: ComponentView,
    t: Option<Times>,
    fields: FieldsView,
    params: Seq<ParamView>,
    now: i64,
    x: EntryView,
)
    requires
        !is_set(x),
    ensures
        crate::write::revised(c, t, fields, params, now).entries.contains(x)
            <==> c.entries.contains(x),
{
    let b = crate::write::moved(c.entries, t, fields, params);
    if let Some(t) = t {
        let start = crate::write::date_entry(PropertyName::Dtstart, t.start, params);
        let end = crate::write::date_entry(PropertyName::Dtend, t.end, params);
        let a = if fields.start is Some {
            crate::write::set(c.entries, PropertyName::Dtstart, start)
        } else {
            c.entries
        };
        lemma_set_contains(c.entries, PropertyName::Dtstart, start, x);
        lemma_set_contains(a, PropertyName::Dtend, end, x);
    }
    let d = crate::write::set_some(b, PropertyName::Summary, fields.summary);
    let e = crate::write::set_some(d, PropertyName::Description, fields.description);
    let f = crate::write::set_some(e, PropertyName::Location, fields.location);
    lemma_set_some_contains(b, PropertyName::Summary, fields.summary, x);
    lemma_set_some_contains(d, PropertyName::Description, fields.description, x);
    lemma_set_some_contains(e, PropertyName::Location, fields.location, x);
    lemma_set_contains(f, PropertyName::Dtstamp, crate::write::stamp_entry(now), x);
}

/// Entries without a `SEQUENCE` among them do not change the link.
proof fn lemma_link_quiet(a: Seq<EntryView>, b: Seq<EntryView>)
    requires
        forall|i: int| 0 <= i < b.len() ==> crate::ical::sequence_number(#[trigger] b[i]) is None,
    ensures
        crate::ical::link_sequence(a + b) == crate::ical::link_sequence(a),
    decreases b.len(),
{
    if b.len() == 0 {
        assert(a + b =~= a);
    } else {
        assert((a + b).drop_last() =~= a + b.drop_last());
        assert((a + b).last() == b[b.len() - 1]);
        lemma_link_quiet(a, b.drop_last());
    }
}

/// Dropping entries of another name does not change the link.
proof fn lemma_link_dropped(entries: Seq<EntryView>, n: PropertyName)
    requires
        n != PropertyName::Sequence,
    ensures
        crate::ical::link_sequence(crate::write::dropped(entries, n)) == crate::ical::link_sequence(
            entries,
        ),
    decreases entries.len(),
{
    reveal(Seq::filter);
    if entries.len() > 0 {
        let front = entries.drop_last();
        lemma_link_dropped(front, n);
        if !crate::model::named(entries.last(), n) {
            let d = crate::write::dropped(entries, n);
            assert(d.drop_last() =~= crate::write::dropped(front, n));
            assert(d.last() == entries.last());
        }
    }
}

/// Setting a property of another name does not change the link.
proof fn lemma_link_set(entries: Seq<EntryView>, n: PropertyName, e: EntryView)
    requires
        n != PropertyName::Sequence,
        crate::model::named(e, n),
    ensures
        crate::ical::link_sequence(crate::write::set(entries, n, e)) == crate::ical::link_sequence(
            entries,
        ),
{
    lemma_link_dropped(entries, n);
    let d = crate::write::dropped(entries, n);
    assert(d.push(e).drop_last() =~= d);
}

/// Setting a text does not change the link.
proof fn lemma_link_set_some(entries: Seq<EntryView>, n: PropertyName, s: Option<Seq<char>>)
    requires
        n != PropertyName::Sequence,
    ensures
        crate::ical::link_sequence(crate::write::set_some(entries, n, s))
            == crate::ical::link_sequence(entries),
{
    if let Some(t) = s {
        lemma_link_set(entries, n, crate::write::text_entry(n, t));
    }
}

/// A revised override keeps its link.
proof fn lemma_link_revised(
    c: ComponentView,
    t: Option<Times>,
    fields: FieldsView,
    params: Seq<ParamView>,
    now: i64,
)
    ensures
        crate::ical::link_sequence(crate::write::revised(c, t, fields, params, now).entries)
            == crate::ical::link_sequence(c.entries),
{
    let b = crate::write::moved(c.entries, t, fields, params);
    if let Some(t) = t {
        let start = crate::write::date_entry(PropertyName::Dtstart, t.start, params);
        let end = crate::write::date_entry(PropertyName::Dtend, t.end, params);
        let a = if fields.start is Some {
            crate::write::set(c.entries, PropertyName::Dtstart, start)
        } else {
            c.entries
        };
        lemma_link_set(c.entries, PropertyName::Dtstart, start);
        lemma_link_set(a, PropertyName::Dtend, end);
    }
    let d = crate::write::set_some(b, PropertyName::Summary, fields.summary);
    let e = crate::write::set_some(d, PropertyName::Description, fields.description);
    let f = crate::write::set_some(e, PropertyName::Location, fields.location);
    lemma_link_set_some(b, PropertyName::Summary, fields.summary);
    lemma_link_set_some(d, PropertyName::Description, fields.description);
    lemma_link_set_some(e, PropertyName::Location, fields.location);
    lemma_link_set(f, PropertyName::Dtstamp, crate::write::stamp_entry(now));
}

/// A new override has the link of its master, no rule, and one `RECURRENCE-ID`.
proof fn lemma_new_override_links(
    c: ComponentView,
    uid: Seq<char>,
    t: Times,
    fields: FieldsView,
    now: i64,
)
    ensures
        ({
            let o = crate::write::new_override(c, uid, t, fields, now);
            let params = crate::write::style_params(crate::write::style_of(c));
            let e = crate::write::date_entry(PropertyName::RecurrenceId, t.slot, params);
            &&& crate::ical::link_sequence(o.entries) == match crate::read::integer(
                c,
                PropertyName::Sequence,
            ) {
                Some(i) => i,
                None => i64::MAX,
            }
            &&& !crate::ical::has_rule(o)
            &&& crate::ical::sole_slot(o, e)
            &&& o.entries.len() > 1 && o.entries[1] == e
        }),
{
    let o = crate::write::new_override(c, uid, t, fields, now);
    let params = crate::write::style_params(crate::write::style_of(c));
    let e1 = crate::write::text_entry(PropertyName::Uid, uid);
    let e2 = crate::write::date_entry(PropertyName::RecurrenceId, t.slot, params);
    let e3 = crate::write::date_entry(PropertyName::Dtstart, t.start, params);
    let e4 = crate::write::date_entry(PropertyName::Dtend, t.end, params);
    let four = seq![e1, e2, e3, e4];
    let s1 = crate::write::some_entry(
        PropertyName::Summary,
        crate::write::text_or(fields.summary, c, PropertyName::Summary),
    );
    let s2 = crate::write::some_entry(
        PropertyName::Description,
        crate::write::text_or(fields.description, c, PropertyName::Description),
    );
    let s3 = crate::write::some_entry(
        PropertyName::Location,
        crate::write::text_or(fields.location, c, PropertyName::Location),
    );
    let s4 = match crate::read::integer(c, PropertyName::Sequence) {
        Some(i) => seq![crate::write::sequence_entry(i)],
        None => seq![],
    };
    let s5 = seq![crate::write::stamp_entry(now)];
    assert(o.entries == four + s1 + s2 + s3 + s4 + s5);
    let none = Seq::<EntryView>::empty();
    assert(none + four =~= four);
    lemma_link_quiet(none, four);
    lemma_link_quiet(four, s1);
    lemma_link_quiet(four + s1, s2);
    lemma_link_quiet(four + s1 + s2, s3);
    let texts = four + s1 + s2 + s3;
    if let Some(i) = crate::read::integer(c, PropertyName::Sequence) {
        assert((texts + s4).last() == crate::write::sequence_entry(i));
    } else {
        assert(texts + s4 =~= texts);
    }
    lemma_link_quiet(texts + s4, s5);
    new_override_properties(c, uid, t, fields, now, PropertyName::Rrule);
    crate::write::lemma_has(o, PropertyName::Rrule);
    if crate::ical::has_rule(o) {
        let r = choose|r: int|
            0 <= r < o.entries.len() && crate::ical::is_rule(#[trigger] o.entries[r]);
        assert(crate::model::named(o.entries[r], PropertyName::Rrule));
    }
    let rest = s1 + s2 + s3 + s4 + s5;
    assert(o.entries =~= four + rest);
    assert forall|j: int| 0 <= j < rest.len() implies !crate::model::named(
        #[trigger] rest[j],
        PropertyName::RecurrenceId,
    ) by {
        let l1 = s1.len() as int;
        let l2 = l1 + s2.len();
        let l3 = l2 + s3.len();
        let l4 = l3 + s4.len();
        if j < l1 {
            assert(rest[j] == s1[j]);
        } else if j < l2 {
            assert(rest[j] == s2[j - l1]);
        } else if j < l3 {
            assert(rest[j] == s3[j - l2]);
        } else if j < l4 {
            assert(rest[j] == s4[j - l3]);
        } else {
            assert(rest[j] == s5[j - l4]);
        }
    }
    assert forall|j: int|
        0 <= j < o.entries.len() && crate::model::named(
            #[trigger] o.entries[j],
            PropertyName::RecurrenceId,
        ) implies o.entries[j] == e2 by {
        if j >= 4 {
            assert(o.entries[j] == rest[j - 4]);
        } else {
            assert(o.entries[j] == four[j]);
        }
    }
}

/// Can the override of a slot, where there is one already, and the series find
/// each other? The override has to carry the `SEQUENCE` of the series, no rule,
/// and one `RECURRENCE-ID`. A new override is made that way, where the
/// `SEQUENCE`s of the series agree.
pub open spec fn linked(m: Seq<ComponentView>, slot: Seq<char>) -> bool {
    let c = m[crate::read::master(m)->0];
    match crate::write::override_of(m, slot_key(m, slot)) {
        Some(o) => {
            &&& !crate::ical::has_rule(m[o])
            &&& crate::ical::link_sequence(m[o].entries) == crate::ical::link_sequence(c.entries)
            &&& forall|i: int, j: int|
                0 <= i < m[o].entries.len() && 0 <= j < m[o].entries.len() && crate::model::named(
                    #[trigger] m[o].entries[i],
                    PropertyName::RecurrenceId,
                ) && crate::model::named(#[trigger] m[o].entries[j], PropertyName::RecurrenceId)
                    ==> m[o].entries[i] == m[o].entries[j]
        },
        None => crate::ical::link_sequence(c.entries) == match crate::read::integer(
            c,
            PropertyName::Sequence,
        ) {
            Some(i) => i,
            None => i64::MAX,
        },
    }
}

/// What a lookup finds stands among the entries.
proof fn lemma_property_contained(entries: Seq<EntryView>, n: PropertyName)
    requires
        crate::read::property(entries, n) is Some,
    ensures
        entries.contains(EntryView::Known(crate::read::property(entries, n)->0)),
        crate::read::property(entries, n)->0.name == n,
    decreases entries.len(),
{
    if entries.len() > 0 {
        let front = entries.drop_last();
        if crate::read::property(front, n) is Some {
            lemma_property_contained(front, n);
            let e = EntryView::Known(crate::read::property(front, n)->0);
            let at = choose|at: int| 0 <= at < front.len() && front[at] == e;
            assert(entries[at] == e);
        } else {
            assert(entries[entries.len() - 1] == entries.last());
        }
    }
}

/// After a change the series and the override of its slot can find each other.
proof fn lemma_update_links(
    m: Seq<ComponentView>,
    slot: Seq<char>,
    fields: FieldsView,
    now: i64,
)
    requires
        crate::write::updated(m, slot, fields, now) is Ok,
        linked(m, slot),
    ensures
        ({
            let n = crate::write::updated(m, slot, fields, now)->Ok_0;
            let c = m[crate::read::master(m)->0];
            let o = n[crate::write::override_of(n, slot_key(m, slot))->0];
            let e = EntryView::Known(
                crate::read::property(o.entries, PropertyName::RecurrenceId)->0,
            );
            &&& crate::model::is_override(o)
            &&& !crate::ical::has_rule(o)
            &&& crate::ical::link_sequence(o.entries) == crate::ical::link_sequence(c.entries)
            &&& crate::read::property(o.entries, PropertyName::RecurrenceId) is Some
            &&& o.entries.contains(e)
            &&& crate::ical::sole_slot(o, e)
        }),
{
    let n = crate::write::updated(m, slot, fields, now)->Ok_0;
    let i = crate::read::master(m)->0;
    let c = m[i];
    let k = slot_key(m, slot);
    let t = dates_set(m, slot, fields);
    let params = crate::write::style_params(crate::write::style_of(c));
    let hit = |x: ComponentView| crate::write::overrides(x, k);
    update_leaves_an_override(m, slot, fields, now);
    let q = crate::write::override_of(n, k)->0;
    let o = n[q];
    lemma_is_first(n, hit);
    crate::write::lemma_has(o, PropertyName::RecurrenceId);
    lemma_property_contained(o.entries, PropertyName::RecurrenceId);
    let e = EntryView::Known(crate::read::property(o.entries, PropertyName::RecurrenceId)->0);
    match crate::write::override_of(m, k) {
        Some(w) => {
            let b = m[w];
            lemma_is_first(m, hit);
            assert(o == crate::write::revised(b, t, fields, params, now));
            lemma_link_revised(b, t, fields, params, now);
            if crate::ical::has_rule(o) {
                let r = choose|r: int|
                    0 <= r < o.entries.len() && crate::ical::is_rule(#[trigger] o.entries[r]);
                let x = o.entries[r];
                assert(o.entries.contains(x));
                lemma_revised_contains(b, t, fields, params, now, x);
                let at = choose|at: int| 0 <= at < b.entries.len() && b.entries[at] == x;
                assert(crate::ical::is_rule(b.entries[at]));
            }
            lemma_revised_contains(b, t, fields, params, now, e);
            let first = choose|at: int| 0 <= at < b.entries.len() && b.entries[at] == e;
            assert forall|j: int|
                0 <= j < o.entries.len() && crate::model::named(
                    #[trigger] o.entries[j],
                    PropertyName::RecurrenceId,
                ) implies o.entries[j] == e by {
                let x = o.entries[j];
                assert(o.entries.contains(x));
                lemma_revised_contains(b, t, fields, params, now, x);
                let at = choose|at: int| 0 <= at < b.entries.len() && b.entries[at] == x;
                assert(crate::model::named(b.entries[at], PropertyName::RecurrenceId));
                assert(crate::model::named(b.entries[first], PropertyName::RecurrenceId));
                assert(b.entries[at] == b.entries[first]);
            }
        },
        None => {
            let uid = crate::read::text(c, PropertyName::Uid)->0;
            lemma_new_override_links(c, uid, t->0, fields, now);
            let at = choose|at: int| 0 <= at < o.entries.len() && o.entries[at] == e;
            assert(crate::model::named(o.entries[at], PropertyName::RecurrenceId));
        },
    }
}

/// A changed occurrence takes the place of its slot: where the calendar is
/// expanded and the override comes out, nothing that the series generates
/// starts at the moment of the override's `RECURRENCE-ID`. That is read at its
/// own offset, or in the time zone of the series.
pub proof fn changed_occurrence_replaces_its_slot(
    m: Seq<ComponentView>,
    slot: Seq<char>,
    fields: FieldsView,
    now: i64,
    e: (Seq<Option<SpanView>>, vstd::multiset::Multiset<Option<SpanView>>),
    spans: Seq<Option<SpanView>>,
    a: int,
    b: int,
)
    requires
        crate::write::updated(m, slot, fields, now) is Ok,
        crate::ical::generates(m[crate::read::master(m)->0]),
        crate::ical::sole_rule(m, crate::read::master(m)->0),
        linked(m, slot),
        crate::ical::unfolds(crate::write::updated(m, slot, fields, now)->Ok_0, e, spans),
        0 <= a < spans.len() && 0 <= b < spans.len(),
        spans[a] is Some && spans[b] is Some,
        spans[a]->0.comp_id == crate::read::master(m)->0,
        crate::write::override_of(
            crate::write::updated(m, slot, fields, now)->Ok_0,
            slot_key(m, slot),
        ) == Some(spans[b]->0.comp_id as int),
        crate::ical::reads_once(spans[a]->0),
    ensures
        ({
            let n = crate::write::updated(m, slot, fields, now)->Ok_0;
            let c = m[crate::read::master(m)->0];
            let o = n[spans[b]->0.comp_id as int];
            let x = spans[a]->0;
            let p = crate::read::property(o.entries, PropertyName::RecurrenceId)->0;
            let d = crate::read::date(o, PropertyName::RecurrenceId)->0;
            let tz = crate::ical::last_tzid(p.params);
            &&& crate::read::date(o, PropertyName::RecurrenceId) is Some
            &&& crate::write::key(d) == slot_key(m, slot)
            &&& d.tz_hour is Some || crate::ical::zoned(c, tz) && (tz is None ==> crate::ical::zoned(
                o,
                None,
            )) ==> (crate::ical::resolved(d, x.zone) matches Some(t) ==> x.start.timestamp
                != t.timestamp)
        }),
{
    let n = crate::write::updated(m, slot, fields, now)->Ok_0;
    let i = crate::read::master(m)->0;
    let c = m[i];
    let k = slot_key(m, slot);
    let q = spans[b]->0.comp_id as int;
    let o = n[q];
    let x = spans[a]->0;
    let hit = |y: ComponentView| crate::write::overrides(y, k);
    lemma_master(m);
    lemma_root(m);
    update_spares_the_rest(m, slot, fields, now);
    update_leaves_an_override(m, slot, fields, now);
    lemma_update_links(m, slot, fields, now);
    lemma_is_first(n, hit);
    assert(n[i].entries == c.entries && n[i].kind == c.kind);
    assert(crate::ical::generates(n[i])) by {
        crate::write::lemma_has(c, PropertyName::RecurrenceId);
        crate::write::lemma_has(n[i], PropertyName::RecurrenceId);
        crate::write::lemma_has(c, PropertyName::Rdate);
        crate::write::lemma_has(n[i], PropertyName::Rdate);
        let r = choose|r: int|
            0 <= r < c.entries.len() && crate::ical::is_rule(#[trigger] c.entries[r]);
        assert(crate::ical::is_rule(n[i].entries[r]));
    }
    assert(crate::ical::sole_rule(n, i)) by {
        assert forall|j: int|
            0 <= j < n.len() && j != i && crate::ical::has_rule(
                #[trigger] n[j],
            ) implies crate::ical::link_sequence(n[j].entries) != crate::ical::link_sequence(
            n[i].entries,
        ) by {
            assert(j != q);
            assert(j < m.len());
            assert(n[j].entries == m[j].entries);
            let r = choose|r: int|
                0 <= r < n[j].entries.len() && crate::ical::is_rule(#[trigger] n[j].entries[r]);
            assert(crate::ical::is_rule(m[j].entries[r]));
            assert(crate::ical::has_rule(m[j]));
        }
    }
    let p = crate::read::property(o.entries, PropertyName::RecurrenceId)->0;
    let entry = EntryView::Known(p);
    let at = choose|at: int| 0 <= at < o.entries.len() && o.entries[at] == entry;
    lemma_property_contained(o.entries, PropertyName::RecurrenceId);
    lemma_zoned_same(c, n[i], crate::ical::last_tzid(p.params));
    assert(!crate::ical::stands_for(
        n[spans[b]->0.comp_id as int],
        n[spans[a]->0.comp_id as int],
        spans[a]->0,
    ));
    if crate::ical::slot_falls_on(n[i], o, entry, x) {
        assert(crate::ical::slot_falls_on(n[i], o, o.entries[at], x) && crate::ical::sole_slot(
            o,
            o.entries[at],
        ));
    }
}

/// The time zone of a component rests on its entries alone.
proof fn lemma_zoned_same(a: ComponentView, b: ComponentView, tz: Option<Seq<char>>)
    requires
        a.entries == b.entries,
    ensures
        crate::ical::zoned(a, tz) <==> crate::ical::zoned(b, tz),
{
}

} // verus!
