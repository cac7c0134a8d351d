//! What holds of deleting one occurrence, in terms of the calendar before and
//! after.

use vstd::prelude::*;

use crate::error::ErrorView;
use crate::model::{ComponentView, EntryView, PartialDate, PropertyName};
use crate::write::FieldsView;

verus! {

/// Does a component go with a slot? One that shows the slot does, and one that is
/// held by a component that goes.
pub open spec fn goes(m: Seq<ComponentView>, d: PartialDate, j: int) -> bool
    decreases j,
{
    ||| crate::slots::shows_slot(m[j], d)
    ||| exists|p: int| 0 <= p < j && #[trigger] m[p].children.contains(j as u32) && goes(m, d, p)
}

/// How many of the first `j` components stay.
pub open spec fn number_that_stays(m: Seq<ComponentView>, d: PartialDate, j: int) -> int
    decreases j,
{
    if j <= 0 {
        0
    } else {
        number_that_stays(m, d, j - 1) + if goes(m, d, j - 1) {
            0int
        } else {
            1int
        }
    }
}

/// Is this a list of the components in `children` that stay, in their order, each
/// by its new place?
pub open spec fn are_those_that_stay(
    m: Seq<ComponentView>,
    d: PartialDate,
    children: Seq<u32>,
    out: Seq<u32>,
) -> bool {
    out == children.filter(|c: u32| !goes(m, d, c as int)).map_values(
        |c: u32| number_that_stays(m, d, c as int) as u32,
    )
}

/// Are these the entries of a master, with a slot taken out: what was there but
/// for the stamp, and behind it an `EXDATE` of the slot in this style and a fresh
/// stamp?
pub open spec fn is_excluding(
    before: Seq<EntryView>,
    after: Seq<EntryView>,
    d: PartialDate,
    style: crate::write::StyleView,
    now: i64,
) -> bool {
    let rest = before.filter(
        |e: EntryView| !(e is Known && e->Known_0.name == PropertyName::Dtstamp),
    );
    &&& after.len() == rest.len() + 2
    &&& after.subrange(0, rest.len() as int) == rest
    &&& after[rest.len() as int] is Known && crate::slots::is_date_entry(
        Some(after[rest.len() as int]->Known_0),
        PropertyName::Exdate,
        d,
        style,
    )
    &&& after[rest.len() as int + 1] is Known && crate::slots::is_stamp(
        Some(after[rest.len() as int + 1]->Known_0),
        now,
    )
}

/// A deletion is refused without an event, for one that has neither an `RRULE`
/// nor an `RDATE`, and where its slot cannot be read, in this order; and nowhere
/// else.
pub proof fn deletions_are_refused_where_there_is_no_series(
    m: Seq<ComponentView>,
    slot: Seq<char>,
    now: i64,
)
    ensures
        ({
            let r = crate::write::deleted(m, slot, now);
            let c = m[crate::read::master(m)->0];
            let at = crate::write::slot_value(slot, crate::write::style_of(c));
            if crate::read::master(m) is None {
                r == Err::<Seq<ComponentView>, ErrorView>(ErrorView::NoEvent)
            } else if crate::read::property(c.entries, PropertyName::Rrule) is None
                && crate::read::property(c.entries, PropertyName::Rdate) is None {
                r == Err::<Seq<ComponentView>, ErrorView>(ErrorView::NotRecurring)
            } else if at is Err {
                r == Err::<Seq<ComponentView>, ErrorView>(at->Err_0)
            } else {
                r is Ok
            }
        }),
        crate::write::deleted(m, slot, now) is Ok <==> crate::write::excluded(m, slot, now) is Ok,
        crate::write::excluded(m, slot, now) matches Err(e) ==> crate::write::deleted(m, slot, now)
            == Err::<Seq<ComponentView>, ErrorView>(e),
{
    if crate::read::master(m) is Some {
        let c = m[crate::read::master(m)->0];
        crate::write::lemma_has(c, PropertyName::Rrule);
        crate::write::lemma_has(c, PropertyName::Rdate);
    }
}

/// Taking a slot out at the master leaves it alone with the slot's overrides: the
/// places that come with it are those of the components that show the slot, each
/// once and in order, and no other component changes.
pub proof fn exclusion_finds_every_override(m: Seq<ComponentView>, slot: Seq<char>, now: i64)
    requires
        m.len() <= u32::MAX,
        crate::write::excluded(m, slot, now) is Ok,
    ensures
        ({
            let (marked, ids) = crate::write::excluded(m, slot, now)->Ok_0;
            let i = crate::read::master(m)->0;
            let style = crate::write::style_of(m[i]);
            let d = crate::write::slot_value(slot, style)->Ok_0;
            &&& 0 <= i < m.len() == marked.len()
            &&& forall|j: int| 0 <= j < m.len() && j != i ==> #[trigger] marked[j] == m[j]
            &&& marked[i].kind == m[i].kind && marked[i].children == m[i].children
            &&& is_excluding(m[i].entries, marked[i].entries, d, style, now)
            &&& forall|j: u32|
                #[trigger] ids.contains(j) <==> j < m.len() && crate::slots::shows_slot(
                    m[j as int],
                    d,
                )
            &&& forall|a: int, b: int| 0 <= a < b < ids.len() ==> ids[a] < ids[b]
        }),
{
    let (marked, ids) = crate::write::excluded(m, slot, now)->Ok_0;
    let i = crate::read::master(m)->0;
    let d = crate::write::slot_value(slot, crate::write::style_of(m[i]))->Ok_0;
    lemma_master_stands(m);
    lemma_excluding_entries(m[i], d, now);
    lemma_shown_same(m, slot, now);
    assert forall|j: u32|
        #[trigger] ids.contains(j) <==> j < m.len() && crate::slots::shows_slot(m[j as int], d) by {
        crate::write::lemma_override_ids(marked, crate::write::key(d), marked.len(), j);
        if j < m.len() {
            crate::slots::overrides_belong_to_their_clock(marked[j as int], d);
        }
    }
    lemma_ids_ascend(marked, crate::write::key(d), marked.len());
}

/// The master is one of the components.
proof fn lemma_master_stands(m: Seq<ComponentView>)
    requires
        crate::read::master(m) is Some,
    ensures
        0 <= crate::read::master(m)->0 < m.len(),
{
    crate::read::master_is_the_first_event_of_its_own(m, crate::read::master(m)->0);
}

/// The places of overrides come in order.
proof fn lemma_ids_ascend(m: Seq<ComponentView>, k: crate::write::SlotKey, n: nat)
    requires
        n <= m.len() <= u32::MAX,
    ensures
        forall|a: int|
            0 <= a < crate::write::override_ids(m, k, n).len() ==> #[trigger] crate::write::override_ids(
            m,
            k,
            n,
        )[a] < n,
        forall|a: int, b: int|
            0 <= a < b < crate::write::override_ids(m, k, n).len() ==> crate::write::override_ids(
                m,
                k,
                n,
            )[a] < crate::write::override_ids(m, k, n)[b],
    decreases n,
{
    if n > 0 {
        lemma_ids_ascend(m, k, (n - 1) as nat);
        let front = crate::write::override_ids(m, k, (n - 1) as nat);
        let all = crate::write::override_ids(m, k, n);
        assert forall|a: int| 0 <= a < all.len() implies #[trigger] all[a] < n by {
            if a < front.len() {
                assert(all[a] == front[a]);
            }
        }
        assert forall|a: int, b: int| 0 <= a < b < all.len() implies all[a] < all[b] by {
            assert(all[a] == front[a]);
            if b < front.len() {
                assert(all[b] == front[b]);
            }
        }
    }
}

/// The entries of a master with a slot taken out.
proof fn lemma_excluding_entries(c: ComponentView, d: PartialDate, now: i64)
    ensures
        is_excluding(
            c.entries,
            crate::write::excluding(c, d, now).entries,
            d,
            crate::write::style_of(c),
            now,
        ),
{
    reveal(Seq::filter);
    let style = crate::write::style_of(c);
    let x = crate::write::date_entry(PropertyName::Exdate, d, crate::write::style_params(style));
    let p = |e: EntryView| !(e is Known && e->Known_0.name == PropertyName::Dtstamp);
    let q = |e: EntryView| !crate::model::named(e, PropertyName::Dtstamp);
    assert(p =~= q);
    let entries = c.entries.push(x);
    assert(entries.drop_last() =~= c.entries);
    assert(entries.last() == x);
    let rest = c.entries.filter(q);
    let after = crate::write::excluding(c, d, now).entries;
    assert(crate::write::dropped(entries, PropertyName::Dtstamp) == rest.push(x));
    assert(after == rest.push(x).push(crate::write::stamp_entry(now)));
    assert(after.subrange(0, rest.len() as int) =~= rest);
    crate::slots::styles_have_their_params(style);
}

/// Taking a slot out at the master changes nothing in which component shows it.
proof fn lemma_shown_same(m: Seq<ComponentView>, slot: Seq<char>, now: i64)
    requires
        crate::write::excluded(m, slot, now) is Ok,
    ensures
        ({
            let marked = crate::write::excluded(m, slot, now)->Ok_0.0;
            let d = crate::write::slot_value(
                slot,
                crate::write::style_of(m[crate::read::master(m)->0]),
            )->Ok_0;
            forall|j: int|
                0 <= j < m.len() ==> #[trigger] crate::slots::shows_slot(marked[j], d)
                    == crate::slots::shows_slot(m[j], d)
        }),
{
    let marked = crate::write::excluded(m, slot, now)->Ok_0.0;
    let i = crate::read::master(m)->0;
    let d = crate::write::slot_value(slot, crate::write::style_of(m[i]))->Ok_0;
    lemma_master_stands(m);
    crate::write::lemma_excluding(m[i], d, now, PropertyName::RecurrenceId);
}

/// What is removed is what goes.
proof fn lemma_goes(m: Seq<ComponentView>, slot: Seq<char>, now: i64, j: int)
    requires
        m.len() <= u32::MAX,
        crate::write::excluded(m, slot, now) is Ok,
        0 <= j < m.len(),
    ensures
        ({
            let (marked, ids) = crate::write::excluded(m, slot, now)->Ok_0;
            let d = crate::write::slot_value(
                slot,
                crate::write::style_of(m[crate::read::master(m)->0]),
            )->Ok_0;
            crate::model::removed(marked, ids, j) == goes(m, d, j)
        }),
    decreases j,
{
    let (marked, ids) = crate::write::excluded(m, slot, now)->Ok_0;
    let i = crate::read::master(m)->0;
    let d = crate::write::slot_value(slot, crate::write::style_of(m[i]))->Ok_0;
    lemma_master_stands(m);
    lemma_shown_same(m, slot, now);
    crate::write::lemma_override_ids(marked, crate::write::key(d), marked.len(), j as u32);
    crate::slots::overrides_belong_to_their_clock(marked[j], d);
    assert(ids.contains(j as u32) == crate::slots::shows_slot(m[j], d));
    assert forall|p: int| 0 <= p < j implies #[trigger] crate::model::removed(marked, ids, p)
        == goes(m, d, p) && marked[p].children == m[p].children by {
        lemma_goes(m, slot, now, p);
    }
    if crate::model::removed(marked, ids, j) && !ids.contains(j as u32) {
        let p = choose|p: int|
            0 <= p < j && #[trigger] marked[p].children.contains(j as u32) && crate::model::removed(
                marked,
                ids,
                p,
            );
        assert(m[p].children.contains(j as u32) && goes(m, d, p));
    }
    if goes(m, d, j) && !crate::slots::shows_slot(m[j], d) {
        let p = choose|p: int|
            0 <= p < j && #[trigger] m[p].children.contains(j as u32) && goes(m, d, p);
        assert(crate::model::removed(marked, ids, p));
        assert(marked[p].children.contains(j as u32));
    }
}

/// The new places are counted by what stays.
proof fn lemma_number_that_stays(m: Seq<ComponentView>, slot: Seq<char>, now: i64, j: int)
    requires
        m.len() <= u32::MAX,
        crate::write::excluded(m, slot, now) is Ok,
        0 <= j <= m.len(),
    ensures
        ({
            let (marked, ids) = crate::write::excluded(m, slot, now)->Ok_0;
            let d = crate::write::slot_value(
                slot,
                crate::write::style_of(m[crate::read::master(m)->0]),
            )->Ok_0;
            crate::model::rank(marked, ids, j) == number_that_stays(m, d, j)
        }),
    decreases j,
{
    if j > 0 {
        lemma_number_that_stays(m, slot, now, j - 1);
        lemma_goes(m, slot, now, j - 1);
    }
}

/// Lists of places are relabelled alike by functions that agree on them.
proof fn lemma_same_labels(
    s: Seq<u32>,
    p: spec_fn(u32) -> bool,
    q: spec_fn(u32) -> bool,
    f: spec_fn(u32) -> u32,
    g: spec_fn(u32) -> u32,
)
    requires
        forall|i: int| 0 <= i < s.len() ==> p(#[trigger] s[i]) == q(s[i]) && f(s[i]) == g(s[i]),
    ensures
        s.filter(p).map_values(f) == s.filter(q).map_values(g),
    decreases s.len(),
{
    reveal(Seq::filter);
    if s.len() > 0 {
        let front = s.drop_last();
        let last = s.last();
        assert(p(s[s.len() - 1]) == q(s[s.len() - 1]));
        assert forall|i: int| 0 <= i < front.len() implies p(#[trigger] front[i]) == q(front[i])
            && f(front[i]) == g(front[i]) by {
            assert(p(s[i]) == q(s[i]));
        }
        lemma_same_labels(front, p, q, f, g);
        assert(front.filter(p).push(last).map_values(f) =~= front.filter(p).map_values(f).push(
            f(last),
        ));
        assert(front.filter(q).push(last).map_values(g) =~= front.filter(q).map_values(g).push(
            g(last),
        ));
    } else {
        assert(s.filter(p).map_values(f) =~= s.filter(q).map_values(g));
    }
}

/// Lists of places stay as they are where all of them stay in their place.
proof fn lemma_labels_stay(s: Seq<u32>, p: spec_fn(u32) -> bool, f: spec_fn(u32) -> u32)
    requires
        forall|i: int| 0 <= i < s.len() ==> p(#[trigger] s[i]) && f(s[i]) == s[i],
    ensures
        s.filter(p).map_values(f) == s,
    decreases s.len(),
{
    reveal(Seq::filter);
    if s.len() > 0 {
        let front = s.drop_last();
        assert(p(s[s.len() - 1]));
        assert forall|i: int| 0 <= i < front.len() implies p(#[trigger] front[i]) && f(front[i])
            == front[i] by {
            assert(p(s[i]));
        }
        lemma_labels_stay(front, p, f);
        assert(s.filter(p).map_values(f) =~= front.filter(p).map_values(f).push(s.last()));
        assert(front.push(s.last()) =~= s);
    } else {
        assert(s.filter(p).map_values(f) =~= s);
    }
}

/// Nothing goes where nothing shows the slot.
proof fn lemma_nothing_goes(m: Seq<ComponentView>, d: PartialDate, j: int)
    requires
        forall|x: int| 0 <= x < m.len() ==> !#[trigger] crate::slots::shows_slot(m[x], d),
        0 <= j <= m.len(),
    ensures
        j < m.len() ==> !goes(m, d, j),
        number_that_stays(m, d, j) == j,
    decreases j,
{
    if j > 0 {
        lemma_nothing_goes(m, d, j - 1);
    }
    if j < m.len() && goes(m, d, j) {
        let p = choose|p: int|
            0 <= p < j && #[trigger] m[p].children.contains(j as u32) && goes(m, d, p);
        lemma_nothing_goes(m, d, p);
    }
}

/// Deleting one occurrence takes away every component that shows its slot, with
/// whatever these hold. All others stay, in order, with their kind, with what they
/// hold, and with their entries, but for the master, which excludes the slot and
/// has a fresh stamp.
pub proof fn deletion_takes_the_slot_alone(
    m: Seq<ComponentView>,
    slot: Seq<char>,
    now: i64,
    d: PartialDate,
    j: int,
)
    requires
        m.len() <= u32::MAX,
        crate::model::is_tree(m),
        crate::write::deleted(m, slot, now) is Ok,
        crate::write::slot_value(
            slot,
            crate::write::style_of(m[crate::read::master(m)->0]),
        ) == Ok::<PartialDate, ErrorView>(d),
        0 <= j < m.len(),
    ensures
        ({
            let n = crate::write::deleted(m, slot, now)->Ok_0;
            let i = crate::read::master(m)->0;
            let q = number_that_stays(m, d, j);
            &&& n.len() == number_that_stays(m, d, m.len() as int)
            &&& !goes(m, d, j) ==> {
                &&& 0 <= q < n.len()
                &&& n[q].kind == m[j].kind
                &&& j != i ==> n[q].entries == m[j].entries
                &&& j == i ==> is_excluding(
                    m[i].entries,
                    n[q].entries,
                    d,
                    crate::write::style_of(m[i]),
                    now,
                )
                &&& are_those_that_stay(m, d, m[j].children, n[q].children)
            }
        }),
{
    let (marked, ids) = crate::write::excluded(m, slot, now)->Ok_0;
    let i = crate::read::master(m)->0;
    let children = m[j].children;
    let p = |c: u32| !goes(m, d, c as int);
    let f = |c: u32| number_that_stays(m, d, c as int) as u32;
    exclusion_finds_every_override(m, slot, now);
    lemma_goes(m, slot, now, j);
    lemma_number_that_stays(m, slot, now, j);
    lemma_number_that_stays(m, slot, now, m.len() as int);
    if ids.len() == 0 {
        assert forall|x: int| 0 <= x < m.len() implies !#[trigger] crate::slots::shows_slot(
            m[x],
            d,
        ) by {
            assert(!ids.contains(x as u32));
        }
        lemma_nothing_goes(m, d, j);
        lemma_nothing_goes(m, d, m.len() as int);
        assert forall|x: int| 0 <= x < children.len() implies p(#[trigger] children[x]) && f(
            children[x],
        ) == children[x] by {
            assert(j < m[j].children[x] < m.len());
            lemma_nothing_goes(m, d, children[x] as int);
        }
        lemma_labels_stay(children, p, f);
    } else {
        crate::model::lemma_kept_len(marked, ids, marked.len());
        if !goes(m, d, j) {
            crate::model::lemma_kept(marked, ids, marked.len(), j);
            let r = |c: u32| !crate::model::removed(marked, ids, c as int);
            let g = |c: u32| crate::model::rank(marked, ids, c as int) as u32;
            assert forall|x: int| 0 <= x < children.len() implies r(#[trigger] children[x]) == p(
                children[x],
            ) && g(children[x]) == f(children[x]) by {
                assert(j < m[j].children[x] < m.len());
                lemma_goes(m, slot, now, children[x] as int);
                lemma_number_that_stays(m, slot, now, children[x] as int);
            }
            lemma_same_labels(children, r, p, g, f);
        }
    }
}

/// Deleting one occurrence leaves an override that is not the master in place,
/// with its entries, where its `RECURRENCE-ID` shows another wall clock and
/// whatever holds it stays.
pub proof fn deletion_leaves_other_slots(
    m: Seq<ComponentView>,
    slot: Seq<char>,
    now: i64,
    d: PartialDate,
    r: PartialDate,
    j: int,
)
    requires
        m.len() <= u32::MAX,
        crate::model::is_tree(m),
        crate::write::deleted(m, slot, now) is Ok,
        crate::write::slot_value(
            slot,
            crate::write::style_of(m[crate::read::master(m)->0]),
        ) == Ok::<PartialDate, ErrorView>(d),
        0 <= j < m.len(),
        j != crate::read::master(m)->0,
        m[j].kind is Event,
        crate::read::date(m[j], PropertyName::RecurrenceId) == Some(r),
        r.year.unwrap_or(0) != d.year.unwrap_or(0) || r.month.unwrap_or(0) != d.month.unwrap_or(0)
            || r.day.unwrap_or(0) != d.day.unwrap_or(0) || r.hour.unwrap_or(0) != d.hour.unwrap_or(
            0,
        ) || r.minute.unwrap_or(0) != d.minute.unwrap_or(0) || r.second.unwrap_or(0)
            != d.second.unwrap_or(0),
        forall|p: int| 0 <= p < j && #[trigger] m[p].children.contains(j as u32) ==> !goes(m, d, p),
    ensures
        ({
            let n = crate::write::deleted(m, slot, now)->Ok_0;
            let q = number_that_stays(m, d, j);
            &&& 0 <= q < n.len()
            &&& n[q].kind == m[j].kind
            &&& n[q].entries == m[j].entries
        }),
{
    assert(!goes(m, d, j));
    deletion_takes_the_slot_alone(m, slot, now, d, j);
}

/// Changing one occurrence leaves every override whose `RECURRENCE-ID` shows
/// another wall clock as it is, and in its place.
pub proof fn change_leaves_other_slots(
    m: Seq<ComponentView>,
    slot: Seq<char>,
    fields: FieldsView,
    now: i64,
    d: PartialDate,
    r: PartialDate,
    j: int,
)
    requires
        crate::write::updated(m, slot, fields, now) is Ok,
        crate::write::slot_value(
            slot,
            crate::write::style_of(m[crate::read::master(m)->0]),
        ) == Ok::<PartialDate, ErrorView>(d),
        0 <= j < m.len(),
        m[j].kind is Event,
        crate::read::date(m[j], PropertyName::RecurrenceId) == Some(r),
        r.year.unwrap_or(0) != d.year.unwrap_or(0) || r.month.unwrap_or(0) != d.month.unwrap_or(0)
            || r.day.unwrap_or(0) != d.day.unwrap_or(0) || r.hour.unwrap_or(0) != d.hour.unwrap_or(
            0,
        ) || r.minute.unwrap_or(0) != d.minute.unwrap_or(0) || r.second.unwrap_or(0)
            != d.second.unwrap_or(0),
    ensures
        ({
            let n = crate::write::updated(m, slot, fields, now)->Ok_0;
            j < n.len() && n[j].kind == m[j].kind && n[j].entries == m[j].entries
        }),
{
    if exists|x: int| 0 <= x < m.len() && #[trigger] crate::slots::shows_slot(m[x], d) {
        let o = crate::slots::first_shown(m, d);
        crate::slots::change_of_an_overridden_occurrence(m, slot, fields, now, d, o);
    } else {
        let c = crate::slots::root_of(m);
        crate::slots::new_overrides_stand_under_the_root(m, slot, fields, now, d, c);
    }
}

/// A text without a calendar is refused. Of any other the first calendar is
/// changed and written, or its refusal is passed on.
pub proof fn texts_are_those_of_the_first_calendar(
    ics: Seq<char>,
    slot: Seq<char>,
    fields: FieldsView,
    now: i64,
)
    ensures
        ({
            let all = crate::ical::calendars_in(crate::ical::text_entries(ics));
            let up = crate::write::update_text(ics, slot, fields, now);
            let out = crate::write::delete_text(ics, slot, now);
            let a = crate::write::updated(all[0], slot, fields, now);
            let b = crate::write::deleted(all[0], slot, now);
            &&& all.len() == 0 ==> up == Err::<Seq<char>, ErrorView>(ErrorView::NoCalendar) && out
                == Err::<Seq<char>, ErrorView>(ErrorView::NoCalendar)
            &&& all.len() > 0 && a is Ok ==> up == Ok::<Seq<char>, ErrorView>(
                crate::ical::ics_text(a->Ok_0),
            )
            &&& all.len() > 0 && a is Err ==> up == Err::<Seq<char>, ErrorView>(a->Err_0)
            &&& all.len() > 0 && b is Ok ==> out == Ok::<Seq<char>, ErrorView>(
                crate::ical::ics_text(b->Ok_0),
            )
            &&& all.len() > 0 && b is Err ==> out == Err::<Seq<char>, ErrorView>(b->Err_0)
        }),
{
}

/// A change is left alone only where it needs an end that no one asked for, for a
/// start that moves or for an occurrence without an override, and that end lies
/// out of range.
pub proof fn changes_fit_unless_their_end_is_out_of_range(
    m: Seq<ComponentView>,
    slot: Seq<char>,
    fields: FieldsView,
)
    ensures
        ({
            let c = m[crate::read::master(m)->0];
            let style = crate::write::style_of(c);
            let d = crate::write::slot_value(slot, style);
            let from = crate::slots::start_asked_for(slot, fields);
            let seconds = crate::write::length(c, style);
            let day = crate::civil::date(crate::text::byte_prefix(from, 10));
            let clock = crate::write::clock(from, style);
            let out = if style is AllDay {
                day is Some && crate::civil::added(
                    day->0,
                    crate::write::whole_days(seconds) * 86400,
                ) is None
            } else {
                clock is Ok && crate::civil::added(clock->Ok_0, seconds) is None
            };
            let shown = exists|j: int|
                0 <= j < m.len() && #[trigger] crate::slots::shows_slot(m[j], d->Ok_0);
            !crate::write::update_fits(m, slot, fields) <==> crate::read::master(m) is Some
                && crate::read::text(c, PropertyName::Uid) is Some && d is Ok && fields.end is None
                && (fields.start is Some || !shown) && out
        }),
{
    if crate::read::master(m) is Some {
        let c = m[crate::read::master(m)->0];
        let d = crate::write::slot_value(slot, crate::write::style_of(c));
        if d is Ok {
            crate::slots::slots_with_an_override_are_shown(m, d->Ok_0);
        }
    }
}

/// A deletion is left alone only where the root of the calendar shows the slot of
/// a series.
pub proof fn deletions_fit_unless_the_root_goes(m: Seq<ComponentView>, slot: Seq<char>)
    ensures
        ({
            let c = m[crate::read::master(m)->0];
            let d = crate::write::slot_value(slot, crate::write::style_of(c));
            !crate::write::delete_fits(m, slot) <==> crate::read::master(m) is Some && (
            crate::read::property(c.entries, PropertyName::Rrule) is Some || crate::read::property(
                c.entries,
                PropertyName::Rdate,
            ) is Some) && d is Ok && crate::slots::shows_slot(m[0], d->Ok_0)
        }),
{
    if crate::read::master(m) is Some {
        let c = m[crate::read::master(m)->0];
        let d = crate::write::slot_value(slot, crate::write::style_of(c));
        crate::write::lemma_has(c, PropertyName::Rrule);
        crate::write::lemma_has(c, PropertyName::Rdate);
        if d is Ok {
            crate::slots::overrides_belong_to_their_clock(m[0], d->Ok_0);
        }
    }
}

} // verus!
