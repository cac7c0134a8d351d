//! Reading components: properties, their first values, and where a kind of
//! component stands.

use vstd::prelude::*;

use crate::civil::Civil;
use crate::model::{
    Component, ComponentKind, ComponentView, Entry, EntryView, Param, ParamView, PartialDate,
    Property, PropertyName, PropertyView, Value, ValueView,
};

verus! {

/// The first entry under the name `n`.
pub open spec fn property(entries: Seq<EntryView>, n: PropertyName) -> Option<PropertyView>
    decreases entries.len(),
{
    if entries.len() == 0 {
        None
    } else {
        match property(entries.drop_last(), n) {
            Some(p) => Some(p),
            None => match entries.last() {
                EntryView::Known(p) => if p.name == n {
                    Some(p)
                } else {
                    None
                },
                EntryView::Foreign(_) => None,
            },
        }
    }
}

/// The first value of the first entry under the name `n`.
pub open spec fn value(c: ComponentView, n: PropertyName) -> Option<ValueView> {
    match property(c.entries, n) {
        Some(p) => if p.values.len() > 0 {
            Some(p.values[0])
        } else {
            None
        },
        None => None,
    }
}

/// The text of a value, where it has one.
pub open spec fn value_text(v: ValueView) -> Option<Seq<char>> {
    match v {
        ValueView::Text(s) => Some(s),
        ValueView::Other(o) => o.text,
        _ => None,
    }
}

/// The text of the property `n`.
pub open spec fn text(c: ComponentView, n: PropertyName) -> Option<Seq<char>> {
    match value(c, n) {
        Some(v) => value_text(v),
        None => None,
    }
}

/// The date or date-time of the property `n`.
pub open spec fn date(c: ComponentView, n: PropertyName) -> Option<PartialDate> {
    match value(c, n) {
        Some(ValueView::Date(d)) => Some(d),
        _ => None,
    }
}

/// The integer of the property `n`.
pub open spec fn integer(c: ComponentView, n: PropertyName) -> Option<i64> {
    match value(c, n) {
        Some(ValueView::Integer(i)) => Some(i),
        _ => None,
    }
}

/// The time zone that a parameter names.
pub open spec fn param_tzid(p: ParamView) -> Option<Seq<char>> {
    match p {
        ParamView::Tzid(s) => Some(s),
        ParamView::OtherTzid(z) => z.text,
        _ => None,
    }
}

/// The time zone that an entry names: that of the first parameter that names
/// one.
pub open spec fn tzid(params: Seq<ParamView>) -> Option<Seq<char>>
    decreases params.len(),
{
    if params.len() == 0 {
        None
    } else {
        match tzid(params.drop_last()) {
            Some(s) => Some(s),
            None => param_tzid(params.last()),
        }
    }
}

/// Does a date carry a time of day?
pub open spec fn timed(d: PartialDate) -> bool {
    d.hour is Some && d.minute is Some
}

/// An event is all-day when its `DTSTART` is a date without a time of day.
pub open spec fn all_day(c: ComponentView) -> bool {
    date(c, PropertyName::Dtstart) matches Some(d) && !timed(d)
}

/// Is `i` the first place at which `p` holds?
pub open spec fn is_first(
    m: Seq<ComponentView>,
    p: spec_fn(ComponentView) -> bool,
    i: int,
) -> bool {
    0 <= i < m.len() && p(m[i]) && forall|j: int| 0 <= j < i ==> !p(#[trigger] m[j])
}

/// The first place at which `p` holds.
pub open spec fn position(m: Seq<ComponentView>, p: spec_fn(ComponentView) -> bool) -> Option<
    int,
> {
    if exists|i: int| is_first(m, p, i) {
        Some(choose|i: int| is_first(m, p, i))
    } else {
        None
    }
}

/// Is this an event?
pub open spec fn is_event(c: ComponentView) -> bool {
    c.kind is Event
}

/// The series master: the first event without a `RECURRENCE-ID`, else the
/// first event.
pub open spec fn master(m: Seq<ComponentView>) -> Option<int> {
    match position(m, |c: ComponentView| is_event(c) && !crate::model::is_override(c)) {
        Some(i) => Some(i),
        None => position(m, |c: ComponentView| is_event(c)),
    }
}

/// A first place is the only one.
pub proof fn lemma_position(m: Seq<ComponentView>, p: spec_fn(ComponentView) -> bool, i: int)
    requires
        is_first(m, p, i),
    ensures
        position(m, p) == Some(i),
{
    let k = choose|k: int| is_first(m, p, k);
    assert(is_first(m, p, k));
    if k < i {
        assert(!p(m[k]));
    } else if i < k {
        assert(!p(m[i]));
    }
}

/// Where `p` holds somewhere, it holds somewhere first.
pub proof fn lemma_first_exists(m: Seq<ComponentView>, p: spec_fn(ComponentView) -> bool, i: int)
    requires
        0 <= i < m.len(),
        p(m[i]),
    ensures
        position(m, p) is Some,
    decreases i,
{
    if exists|j: int| 0 <= j < i && p(#[trigger] m[j]) {
        let j = choose|j: int| 0 <= j < i && p(#[trigger] m[j]);
        lemma_first_exists(m, p, j);
    } else {
        assert(is_first(m, p, i));
    }
}

/// The first property of a component under the name `n`.
pub fn find_property(c: &Component, n: PropertyName) -> (r: Option<&Property>)
    ensures
        match r {
            Some(p) => property(c@.entries, n) == Some(p@),
            None => property(c@.entries, n) is None,
        },
{
    let ghost all = c@.entries;
    let mut i: usize = 0;
    assert(all.take(0) =~= seq![]);
    while i < c.entries.len()
        invariant
            0 <= i <= c.entries@.len(),
            all == crate::model::entry_list(c.entries@),
            property(all.take(i as int), n) is None,
        decreases c.entries@.len() - i,
    {
        proof {
            assert(all.take(i + 1).drop_last() =~= all.take(i as int));
            assert(all[i as int] == c.entries@[i as int]@);
        }
        if let Entry::Known(p) = &c.entries[i] {
            if p.name == n {
                proof {
                    lemma_property_prefix(all, n, i + 1);
                }
                return Some(p);
            }
        }
        i = i + 1;
    }
    assert(all.take(i as int) =~= all);
    None
}

/// What is found among the first entries is found among all of them.
proof fn lemma_property_prefix(entries: Seq<EntryView>, n: PropertyName, k: int)
    requires
        0 <= k <= entries.len(),
        property(entries.take(k), n) is Some,
    ensures
        property(entries, n) == property(entries.take(k), n),
    decreases entries.len(),
{
    if k < entries.len() {
        assert(entries.drop_last().take(k) =~= entries.take(k));
        lemma_property_prefix(entries.drop_last(), n, k);
    } else {
        assert(entries.take(k) =~= entries);
    }
}

/// The first value of the first property under the name `n`.
pub fn first_value(c: &Component, n: PropertyName) -> (r: Option<&Value>)
    ensures
        match r {
            Some(v) => value(c@, n) == Some(v@),
            None => value(c@, n) is None,
        },
{
    match find_property(c, n) {
        Some(p) => {
            if p.values.len() > 0 {
                Some(&p.values[0])
            } else {
                None
            }
        },
        None => None,
    }
}

/// A copy of the text of a value, where it has one.
pub fn text_of_value(v: &Value) -> (r: Option<String>)
    ensures
        crate::model::text_view(r) == value_text(v@),
{
    match v {
        Value::Text(s) => Some(s.clone()),
        Value::Other(o) => match &o.text {
            Some(s) => Some(s.clone()),
            None => None,
        },
        _ => None,
    }
}

/// A copy of the text of the property `n`.
pub fn text_prop(c: &Component, n: PropertyName) -> (r: Option<String>)
    ensures
        crate::model::text_view(r) == text(c@, n),
{
    match first_value(c, n) {
        Some(v) => text_of_value(v),
        None => None,
    }
}

/// The date or date-time of the property `n`.
pub fn date_prop(c: &Component, n: PropertyName) -> (r: Option<PartialDate>)
    ensures
        r == date(c@, n),
{
    match first_value(c, n) {
        Some(Value::Date(d)) => Some(*d),
        _ => None,
    }
}

/// The integer of the property `n`.
pub fn integer_prop(c: &Component, n: PropertyName) -> (r: Option<i64>)
    ensures
        r == integer(c@, n),
{
    match first_value(c, n) {
        Some(Value::Integer(i)) => Some(*i),
        _ => None,
    }
}

/// A copy of the time zone that an entry names.
pub fn tzid_of(p: &Property) -> (r: Option<String>)
    ensures
        crate::model::text_view(r) == tzid(p@.params),
{
    let ghost all = p@.params;
    let mut i: usize = 0;
    assert(all.take(0) =~= seq![]);
    while i < p.params.len()
        invariant
            0 <= i <= p.params@.len(),
            all == crate::model::param_list(p.params@),
            tzid(all.take(i as int)) is None,
        decreases p.params@.len() - i,
    {
        proof {
            assert(all.take(i + 1).drop_last() =~= all.take(i as int));
            assert(all[i as int] == p.params@[i as int]@);
        }
        let named = match &p.params[i] {
            Param::Tzid(s) => Some(s),
            Param::OtherTzid(z) => z.text.as_ref(),
            _ => None,
        };
        if let Some(s) = named {
            proof {
                lemma_tzid_prefix(all, i + 1);
            }
            return Some(s.clone());
        }
        i = i + 1;
    }
    assert(all.take(i as int) =~= all);
    None
}

/// A time zone among the first parameters is the one of the entry.
proof fn lemma_tzid_prefix(params: Seq<ParamView>, k: int)
    requires
        0 <= k <= params.len(),
        tzid(params.take(k)) is Some,
    ensures
        tzid(params) == tzid(params.take(k)),
    decreases params.len(),
{
    if k < params.len() {
        assert(params.drop_last().take(k) =~= params.take(k));
        lemma_tzid_prefix(params.drop_last(), k);
    } else {
        assert(params.take(k) =~= params);
    }
}

impl PartialDate {
    /// Does the date carry a time of day?
    pub fn has_time(&self) -> (r: bool)
        ensures
            r == timed(*self),
    {
        self.hour.is_some() && self.minute.is_some()
    }
}

/// Is an event all-day?
pub fn comp_all_day(c: &Component) -> (r: bool)
    ensures
        r == all_day(c@),
{
    match date_prop(c, PropertyName::Dtstart) {
        Some(d) => !d.has_time(),
        None => false,
    }
}

impl Component {
    /// Is this an event?
    pub fn is_event(&self) -> (r: bool)
        ensures
            r == is_event(self@),
    {
        matches!(self.kind, ComponentKind::Event)
    }

    /// Does the component have an entry under the name `n`?
    pub fn has(&self, n: PropertyName) -> (r: bool)
        ensures
            r == crate::model::has(self@, n),
    {
        let mut i: usize = 0;
        while i < self.entries.len()
            invariant
                0 <= i <= self.entries@.len(),
                forall|j: int| 0 <= j < i ==> !crate::model::named(#[trigger] self@.entries[j], n),
            decreases self.entries@.len() - i,
        {
            assert(self@.entries[i as int] == self.entries@[i as int]@);
            if let Entry::Known(p) = &self.entries[i] {
                if p.name == n {
                    assert(crate::model::named(self@.entries[i as int], n));
                    return true;
                }
            }
            i = i + 1;
        }
        false
    }

    /// Is this a detached override?
    pub fn is_override(&self) -> (r: bool)
        ensures
            r == crate::model::is_override(self@),
    {
        self.has(PropertyName::RecurrenceId)
    }

    /// Does the event recur?
    pub fn is_recurrent(&self) -> (r: bool)
        ensures
            r == crate::model::is_recurrent(self@),
    {
        self.has(PropertyName::Rrule) || self.has(PropertyName::Rdate)
    }
}

/// Where the series master stands.
pub fn master_index(components: &Vec<Component>) -> (r: Option<usize>)
    ensures
        match r {
            Some(i) => i < components@.len() && master(crate::model::component_list(components@))
                == Some(i as int),
            None => master(crate::model::component_list(components@)) is None,
        },
{
    let ghost m = crate::model::component_list(components@);
    let ghost own = |c: ComponentView| is_event(c) && !crate::model::is_override(c);
    let ghost any = |c: ComponentView| is_event(c);
    let mut fallback: Option<usize> = None;
    let mut i: usize = 0;
    while i < components.len()
        invariant
            0 <= i <= components@.len(),
            m == crate::model::component_list(components@),
            own == (|c: ComponentView| is_event(c) && !crate::model::is_override(c)),
            any == (|c: ComponentView| is_event(c)),
            forall|j: int| 0 <= j < i ==> !own(#[trigger] m[j]),
            match fallback {
                Some(k) => k < i && is_first(m, any, k as int),
                None => forall|j: int| 0 <= j < i ==> !any(#[trigger] m[j]),
            },
        decreases components@.len() - i,
    {
        assert(m[i as int] == components@[i as int]@);
        if components[i].is_event() {
            if !components[i].is_override() {
                proof {
                    assert(is_first(m, own, i as int));
                    lemma_position(m, own, i as int);
                }
                return Some(i);
            }
            if fallback.is_none() {
                assert(is_first(m, any, i as int));
                fallback = Some(i);
            }
        }
        i = i + 1;
    }
    proof {
        if let Some(k) = fallback {
            lemma_position(m, any, k as int);
        }
    }
    fallback
}

/// The wall clock that a date shows, midnight where it has no time of day, if
/// it is one that exists, with an offset of less than a day.
pub open spec fn wall_clock(d: PartialDate) -> Option<Civil> {
    let c = Civil {
        year: d.year->0 as i32,
        month: d.month->0,
        day: d.day->0,
        hour: d.hour.unwrap_or(0),
        minute: d.minute.unwrap_or(0),
        second: d.second.unwrap_or(0),
        nano: 0,
    };
    if d.year is Some && d.month is Some && d.day is Some && c.valid() && (d.tz_hour matches Some(
        h,
    ) ==> h * 3600 + d.tz_minute.unwrap_or(0) * 60 < 86400) {
        Some(c)
    } else {
        None
    }
}

/// A lookup finds the first entry of its name: with nothing of that name before
/// it, it is what is found, whatever stands behind it.
pub proof fn lookup_finds_the_first(
    before: Seq<EntryView>,
    p: PropertyView,
    after: Seq<EntryView>,
    n: PropertyName,
)
    requires
        forall|i: int|
            0 <= i < before.len() ==> !(#[trigger] before[i] is Known && before[i]->Known_0.name
                == n),
    ensures
        p.name == n ==> property(before.push(EntryView::Known(p)) + after, n) == Some(p),
        property(before, n) is None,
    decreases before.len() + after.len(),
{
    if before.len() > 0 {
        let front = before.drop_last();
        assert forall|i: int| 0 <= i < front.len() implies !(#[trigger] front[i] is Known
            && front[i]->Known_0.name == n) by {
            assert(front[i] == before[i]);
        }
        lookup_finds_the_first(front, p, seq![], n);
        assert(before.last() == before[before.len() - 1]);
    }
    let all = before.push(EntryView::Known(p)) + after;
    if p.name == n {
        if after.len() > 0 {
            lookup_finds_the_first(before, p, after.drop_last(), n);
            assert(all.drop_last() =~= before.push(EntryView::Known(p)) + after.drop_last());
        } else {
            assert(all =~= before.push(EntryView::Known(p)));
            assert(all.drop_last() =~= before);
        }
    }
}

/// A component has an entry of a name, recurs, or is an override, by the entries
/// that stand in it.
pub proof fn entries_tell_what_a_component_is(c: ComponentView, n: PropertyName)
    ensures
        crate::model::has(c, n) <==> exists|i: int|
            0 <= i < c.entries.len() && #[trigger] c.entries[i] is Known
                && c.entries[i]->Known_0.name == n,
        crate::model::has(c, n) <==> property(c.entries, n) is Some,
        crate::model::is_override(c) <==> property(c.entries, PropertyName::RecurrenceId) is Some,
        crate::model::is_recurrent(c) <==> property(c.entries, PropertyName::Rrule) is Some
            || property(c.entries, PropertyName::Rdate) is Some,
        is_event(c) <==> c.kind is Event,
{
    crate::write::lemma_has(c, n);
    crate::write::lemma_has(c, PropertyName::RecurrenceId);
    crate::write::lemma_has(c, PropertyName::Rrule);
    crate::write::lemma_has(c, PropertyName::Rdate);
    if crate::model::has(c, n) {
        let i = choose|i: int|
            0 <= i < c.entries.len() && crate::model::named(#[trigger] c.entries[i], n);
        assert(c.entries[i] is Known && c.entries[i]->Known_0.name == n);
    }
    if exists|i: int|
        0 <= i < c.entries.len() && #[trigger] c.entries[i] is Known && c.entries[i]->Known_0.name
            == n {
        let i = choose|i: int|
            0 <= i < c.entries.len() && #[trigger] c.entries[i] is Known
                && c.entries[i]->Known_0.name == n;
        assert(crate::model::named(c.entries[i], n));
    }
}

/// What a component has under a name is the first value of what a lookup finds:
/// a text as it is, another value by the text that stands for it, a date and a
/// number only where they are one.
pub proof fn first_values_are_read(c: ComponentView, n: PropertyName)
    ensures
        property(c.entries, n) is None ==> text(c, n) is None && date(c, n) is None && integer(
            c,
            n,
        ) is None,
        property(c.entries, n) matches Some(p) ==> {
            &&& p.values.len() == 0 ==> text(c, n) is None && date(c, n) is None && integer(
                c,
                n,
            ) is None
            &&& p.values.len() > 0 && p.values[0] is Text ==> text(c, n) == Some(
                p.values[0]->Text_0,
            ) && date(c, n) is None && integer(c, n) is None
            &&& p.values.len() > 0 && p.values[0] is Date ==> date(c, n) == Some(
                p.values[0]->Date_0,
            ) && text(c, n) is None && integer(c, n) is None
            &&& p.values.len() > 0 && p.values[0] is Integer ==> integer(c, n) == Some(
                p.values[0]->Integer_0,
            ) && text(c, n) is None && date(c, n) is None
            &&& p.values.len() > 0 && p.values[0] is Other ==> text(c, n)
                == p.values[0]->Other_0.text && date(c, n) is None && integer(c, n) is None
        },
{
}

/// The time zone of an entry is that of the first parameter that names one.
pub proof fn first_zone_is_read(
    before: Seq<ParamView>,
    p: ParamView,
    after: Seq<ParamView>,
    z: Seq<char>,
)
    requires
        forall|i: int|
            0 <= i < before.len() ==> #[trigger] before[i] !is Tzid && (before[i] is OtherTzid
                ==> before[i]->OtherTzid_0.text is None),
        p == ParamView::Tzid(z) || p is OtherTzid && p->OtherTzid_0.text == Some(z),
    ensures
        tzid(before) is None,
        tzid(before.push(p) + after) == Some(z),
    decreases before.len() + after.len(),
{
    if before.len() > 0 {
        let front = before.drop_last();
        assert forall|i: int| 0 <= i < front.len() implies #[trigger] front[i] !is Tzid && (
        front[i] is OtherTzid ==> front[i]->OtherTzid_0.text is None) by {
            assert(front[i] == before[i]);
        }
        first_zone_is_read(front, p, seq![], z);
        assert(before.last() == before[before.len() - 1]);
    }
    let all = before.push(p) + after;
    if after.len() > 0 {
        first_zone_is_read(before, p, after.drop_last(), z);
        assert(all.drop_last() =~= before.push(p) + after.drop_last());
    } else {
        assert(all =~= before.push(p));
        assert(all.drop_last() =~= before);
    }
}

/// A date has a time of day where hour and minute are there, and an event is
/// all-day where its `DTSTART` is a date without.
pub proof fn all_day_is_without_a_time(c: ComponentView, d: PartialDate)
    ensures
        timed(d) <==> d.hour is Some && d.minute is Some,
        date(c, PropertyName::Dtstart) is None ==> !all_day(c),
        date(c, PropertyName::Dtstart) == Some(d) ==> (all_day(c) <==> d.hour is None
            || d.minute is None),
{
}

/// The master is the first event that is no override. Where all events are
/// overrides it is the first of them, and without an event there is none.
pub proof fn master_is_the_first_event_of_its_own(m: Seq<ComponentView>, i: int)
    requires
        0 <= i < m.len(),
    ensures
        master(m) == Some(i) ==> m[i].kind is Event,
        master(m) == Some(i) ==> forall|j: int|
            0 <= j < i && #[trigger] m[j].kind is Event ==> property(
                m[j].entries,
                PropertyName::RecurrenceId,
            ) is Some,
        master(m) == Some(i) && property(m[i].entries, PropertyName::RecurrenceId) is Some ==> (
        forall|j: int| 0 <= j < i ==> !(#[trigger] m[j].kind is Event)) && (forall|j: int|
            0 <= j < m.len() && #[trigger] m[j].kind is Event ==> property(
                m[j].entries,
                PropertyName::RecurrenceId,
            ) is Some),
        m[i].kind is Event ==> master(m) is Some,
        master(m) is Some ==> 0 <= master(m)->0 < m.len(),
{
    let own = |c: ComponentView| is_event(c) && !crate::model::is_override(c);
    let any = |c: ComponentView| is_event(c);
    assert forall|j: int| 0 <= j < m.len() implies own(m[j]) == (#[trigger] m[j].kind is Event
        && property(m[j].entries, PropertyName::RecurrenceId) is None) by {
        crate::write::lemma_has(m[j], PropertyName::RecurrenceId);
    }
    if position(m, own) is Some {
        let k = position(m, own)->0;
        assert(is_first(m, own, k));
        assert forall|j: int| 0 <= j < k && #[trigger] m[j].kind is Event implies property(
            m[j].entries,
            PropertyName::RecurrenceId,
        ) is Some by {
            assert(!own(m[j]));
        }
    } else {
        assert forall|j: int| 0 <= j < m.len() && #[trigger] m[j].kind is Event implies property(
            m[j].entries,
            PropertyName::RecurrenceId,
        ) is Some by {
            if own(m[j]) {
                lemma_first_exists(m, own, j);
            }
        }
        if position(m, any) is Some {
            let k = position(m, any)->0;
            assert(is_first(m, any, k));
            assert forall|j: int| 0 <= j < k implies !(#[trigger] m[j].kind is Event) by {
                assert(!any(m[j]));
            }
        }
    }
    if m[i].kind is Event {
        lemma_first_exists(m, any, i);
    }
}

/// A date shows the wall clock of its fields, midnight for what it leaves out,
/// if that exists.
pub proof fn dates_show_their_fields(d: PartialDate)
    ensures
        wall_clock(d) matches Some(c) ==> {
            &&& c.valid() && c.nano == 0
            &&& d.year == Some(c.year as u16) && 0 <= c.year <= 65535
            &&& d.month == Some(c.month) && d.day == Some(c.day)
            &&& d.hour is Some ==> d.hour == Some(c.hour)
            &&& d.hour is None ==> c.hour == 0
            &&& d.minute is Some ==> d.minute == Some(c.minute)
            &&& d.minute is None ==> c.minute == 0
            &&& d.second is Some ==> d.second == Some(c.second)
            &&& d.second is None ==> c.second == 0
        },
{
}

} // verus!
