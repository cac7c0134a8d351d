//! Parsed calendars as plain values.
//!
//! A calendar is a list of components. The component at index 0 is the root,
//! and each component names its sub-components by index. Entries, parameters
//! and values that no rule of this library reads are carried whole, as the
//! `calcard` values that they came from.

use calcard::icalendar::{
    ICalendarComponentType, ICalendarEntry, ICalendarParameter, ICalendarValue,
};
use vstd::prelude::*;

verus! {

/// A date or date-time with any of its parts left out.
#[derive(Clone, Copy, Debug, PartialEq, Eq)]
pub struct PartialDate {
    pub year: Option<u16>,
    pub month: Option<u8>,
    pub day: Option<u8>,
    pub hour: Option<u8>,
    pub minute: Option<u8>,
    pub second: Option<u8>,
    pub tz_hour: Option<u8>,
    pub tz_minute: Option<u8>,
    pub tz_minus: bool,
}

/// The property names that the library reads or writes.
#[derive(Clone, Copy, Debug, PartialEq, Eq, Structural)]
pub enum PropertyName {
    Uid,
    Dtstart,
    Dtend,
    Dtstamp,
    RecurrenceId,
    Summary,
    Description,
    Location,
    Sequence,
    Exdate,
    Rrule,
    Rdate,
    Attendee,
    Organizer,
    Status,
}

/// A property value of a type that the library only carries: its text, where
/// it has one; its `FREQ=...` form and its end, where it is a recurrence rule
/// and has an end; the label of its status, where it is one.
#[derive(Debug)]
pub struct OtherValue {
    pub text: Option<String>,
    pub rule: Option<String>,
    pub until: Option<PartialDate>,
    pub status: Option<String>,
    pub raw: ICalendarValue,
}

/// A property value.
#[derive(Debug)]
pub enum Value {
    Text(String),
    Date(PartialDate),
    Integer(i64),
    Other(OtherValue),
}

/// A `TZID` parameter that is not plain text: the text that stands for it,
/// where there is one.
#[derive(Debug)]
pub struct OtherTzid {
    pub text: Option<String>,
    pub raw: ICalendarParameter,
}

/// A property parameter.
#[derive(Debug)]
pub enum Param {
    /// `TZID=...`
    Tzid(String),
    OtherTzid(OtherTzid),
    /// `VALUE=DATE`
    ValueDate,
    Other(ICalendarParameter),
}

/// An entry under one of the names that the library knows.
#[derive(Debug)]
pub struct Property {
    pub name: PropertyName,
    pub params: Vec<Param>,
    pub values: Vec<Value>,
}

/// One content line of a component.
#[derive(Debug)]
pub enum Entry {
    Known(Property),
    Foreign(ICalendarEntry),
}

/// The type of a component.
#[derive(Debug)]
pub enum ComponentKind {
    Calendar,
    Event,
    Other(ICalendarComponentType),
}

/// One component, with the indices of its sub-components.
#[derive(Debug)]
pub struct Component {
    pub kind: ComponentKind,
    pub entries: Vec<Entry>,
    pub children: Vec<u32>,
}

/// A parsed calendar resource.
#[derive(Debug)]
pub struct Calendar {
    pub components: Vec<Component>,
}

/// What an [`OtherValue`] holds.
pub struct OtherView {
    pub text: Option<Seq<char>>,
    pub rule: Option<Seq<char>>,
    pub until: Option<PartialDate>,
    pub status: Option<Seq<char>>,
    pub raw: ICalendarValue,
}

/// What a [`Value`] holds.
pub enum ValueView {
    Text(Seq<char>),
    Date(PartialDate),
    Integer(i64),
    Other(OtherView),
}

/// What an [`OtherTzid`] holds.
pub struct OtherTzidView {
    pub text: Option<Seq<char>>,
    pub raw: ICalendarParameter,
}

/// What a [`Param`] holds.
pub enum ParamView {
    Tzid(Seq<char>),
    OtherTzid(OtherTzidView),
    ValueDate,
    Other(ICalendarParameter),
}

/// What a [`Property`] holds.
#[verifier::ext_equal]
pub struct PropertyView {
    pub name: PropertyName,
    pub params: Seq<ParamView>,
    pub values: Seq<ValueView>,
}

/// What an [`Entry`] holds.
#[verifier::ext_equal]
pub enum EntryView {
    Known(PropertyView),
    Foreign(ICalendarEntry),
}

/// What a [`Component`] holds.
#[verifier::ext_equal]
pub struct ComponentView {
    pub kind: ComponentKind,
    pub entries: Seq<EntryView>,
    pub children: Seq<u32>,
}

/// The view of an optional string.
pub open spec fn text_view(s: Option<String>) -> Option<Seq<char>> {
    match s {
        Some(t) => Some(t@),
        None => None,
    }
}

impl View for OtherValue {
    type V = OtherView;

    open spec fn view(&self) -> OtherView {
        OtherView {
            text: text_view(self.text),
            rule: text_view(self.rule),
            until: self.until,
            status: text_view(self.status),
            raw: self.raw,
        }
    }
}

impl View for Value {
    type V = ValueView;

    open spec fn view(&self) -> ValueView {
        match self {
            Value::Text(s) => ValueView::Text(s@),
            Value::Date(d) => ValueView::Date(*d),
            Value::Integer(i) => ValueView::Integer(*i),
            Value::Other(o) => ValueView::Other(o@),
        }
    }
}

impl View for Param {
    type V = ParamView;

    open spec fn view(&self) -> ParamView {
        match self {
            Param::Tzid(s) => ParamView::Tzid(s@),
            Param::OtherTzid(z) => ParamView::OtherTzid(
                OtherTzidView { text: text_view(z.text), raw: z.raw },
            ),
            Param::ValueDate => ParamView::ValueDate,
            Param::Other(p) => ParamView::Other(*p),
        }
    }
}

/// The views of a list of parameters.
pub open spec fn param_list(s: Seq<Param>) -> Seq<ParamView> {
    Seq::new(s.len(), |i: int| s[i]@)
}

/// The views of a list of values.
pub open spec fn value_list(s: Seq<Value>) -> Seq<ValueView> {
    Seq::new(s.len(), |i: int| s[i]@)
}

/// The views of a list of entries.
pub open spec fn entry_list(s: Seq<Entry>) -> Seq<EntryView> {
    Seq::new(s.len(), |i: int| s[i]@)
}

/// The views of a list of components.
pub open spec fn component_list(s: Seq<Component>) -> Seq<ComponentView> {
    Seq::new(s.len(), |i: int| s[i]@)
}

impl View for Property {
    type V = PropertyView;

    open spec fn view(&self) -> PropertyView {
        PropertyView {
            name: self.name,
            params: param_list(self.params@),
            values: value_list(self.values@),
        }
    }
}

impl View for Entry {
    type V = EntryView;

    open spec fn view(&self) -> EntryView {
        match self {
            Entry::Known(p) => EntryView::Known(p@),
            Entry::Foreign(e) => EntryView::Foreign(*e),
        }
    }
}

impl View for Component {
    type V = ComponentView;

    open spec fn view(&self) -> ComponentView {
        ComponentView {
            kind: self.kind,
            entries: entry_list(self.entries@),
            children: self.children@,
        }
    }
}

impl View for Calendar {
    type V = Seq<ComponentView>;

    open spec fn view(&self) -> Seq<ComponentView> {
        component_list(self.components@)
    }
}

impl Value {
    /// A carried value agrees with what was read from it.
    pub open spec fn wf(self) -> bool {
        self matches Value::Other(o) ==> crate::ical::value_view(o.raw) == self@
    }
}

impl Param {
    /// A carried parameter is one that the library does not tell apart.
    pub open spec fn wf(self) -> bool {
        match self {
            Param::OtherTzid(z) => crate::ical::param_view(z.raw) == self@,
            Param::Other(p) => crate::ical::param_view(p) == self@,
            _ => true,
        }
    }
}

impl Entry {
    /// Every parameter and value of the entry is well-formed, and a carried
    /// entry is one that the library does not know.
    pub open spec fn wf(self) -> bool {
        match self {
            Entry::Known(p) => {
                &&& forall|i: int| 0 <= i < p.params@.len() ==> (#[trigger] p.params@[i]).wf()
                &&& forall|i: int| 0 <= i < p.values@.len() ==> (#[trigger] p.values@[i]).wf()
            },
            Entry::Foreign(e) => crate::ical::entry_view(e) == self@,
        }
    }
}

impl ComponentKind {
    /// A carried component type is one that the library does not tell apart.
    pub open spec fn wf(self) -> bool {
        self matches ComponentKind::Other(t) ==> crate::ical::kind_view(t) == self
    }
}

impl Component {
    /// The kind and every entry of the component are well-formed.
    pub open spec fn wf(self) -> bool {
        self.kind.wf() && forall|i: int| 0 <= i < self.entries@.len() ==> (#[trigger] self.entries@[i]).wf()
    }
}

/// The components form a tree under index 0: there is a root, and every
/// sub-component stands behind the component that holds it.
pub open spec fn is_tree(m: Seq<ComponentView>) -> bool {
    &&& m.len() > 0
    &&& forall|i: int, j: int|
        0 <= i < m.len() && 0 <= j < m[i].children.len() ==> i < #[trigger] m[i].children[j]
            < m.len()
}

impl Calendar {
    /// Every component is well-formed.
    pub open spec fn parts_wf(self) -> bool {
        forall|i: int| 0 <= i < self.components@.len() ==> (#[trigger] self.components@[i]).wf()
    }

    /// The components form a tree, and each is well-formed.
    pub open spec fn wf(self) -> bool {
        is_tree(self@) && self.parts_wf()
    }
}

/// Is `e` an entry under the name `n`?
pub open spec fn named(e: EntryView, n: PropertyName) -> bool {
    e matches EntryView::Known(p) && p.name == n
}

/// Does the component have an entry under the name `n`?
pub open spec fn has(c: ComponentView, n: PropertyName) -> bool {
    exists|i: int| 0 <= i < c.entries.len() && named(#[trigger] c.entries[i], n)
}

/// A detached override carries a `RECURRENCE-ID`.
pub open spec fn is_override(c: ComponentView) -> bool {
    has(c, PropertyName::RecurrenceId)
}

/// A recurring event carries an `RRULE` or an `RDATE`.
pub open spec fn is_recurrent(c: ComponentView) -> bool {
    has(c, PropertyName::Rrule) || has(c, PropertyName::Rdate)
}

/// Does removing the components `ids` take the component `i` away? It does
/// where `i` is listed, or where the component that holds `i` goes.
pub open spec fn removed(m: Seq<ComponentView>, ids: Seq<u32>, i: int) -> bool
    decreases i,
{
    ||| ids.contains(i as u32)
    ||| exists|j: int|
        0 <= j < i && #[trigger] m[j].children.contains(i as u32) && removed(m, ids, j)
}

/// How many of the first `i` components stay, which is the new index of the
/// component `i` where that one stays.
pub open spec fn rank(m: Seq<ComponentView>, ids: Seq<u32>, i: int) -> nat
    decreases i,
{
    if i <= 0 {
        0
    } else if removed(m, ids, i - 1) {
        rank(m, ids, i - 1)
    } else {
        rank(m, ids, i - 1) + 1
    }
}

/// The sub-components that stay, under their new indices.
pub open spec fn relabelled(m: Seq<ComponentView>, ids: Seq<u32>, children: Seq<u32>) -> Seq<u32> {
    children.filter(|c: u32| !removed(m, ids, c as int)).map_values(
        |c: u32| rank(m, ids, c as int) as u32,
    )
}

/// What is left of the first `n` components.
pub open spec fn kept(m: Seq<ComponentView>, ids: Seq<u32>, n: nat) -> Seq<ComponentView>
    decreases n,
{
    if n == 0 {
        seq![]
    } else if removed(m, ids, n - 1) {
        kept(m, ids, (n - 1) as nat)
    } else {
        kept(m, ids, (n - 1) as nat).push(
            ComponentView { children: relabelled(m, ids, m[n - 1].children), ..m[n - 1] },
        )
    }
}

/// The calendar without the components `ids` and what they hold.
pub open spec fn without(m: Seq<ComponentView>, ids: Seq<u32>) -> Seq<ComponentView> {
    kept(m, ids, m.len())
}

/// The ranks count what is kept, and a component that stays is found at its
/// rank.
pub proof fn lemma_kept(m: Seq<ComponentView>, ids: Seq<u32>, n: nat, i: int)
    requires
        0 <= i < n,
        !removed(m, ids, i),
    ensures
        rank(m, ids, i) < rank(m, ids, n as int) == kept(m, ids, n).len(),
        kept(m, ids, n)[rank(m, ids, i) as int] == (ComponentView {
            children: relabelled(m, ids, m[i].children),
            ..m[i]
        }),
    decreases n,
{
    if i < n - 1 {
        lemma_kept(m, ids, (n - 1) as nat, i);
    } else {
        lemma_kept_len(m, ids, (n - 1) as nat);
    }
}

/// The ranks count what is kept.
pub proof fn lemma_kept_len(m: Seq<ComponentView>, ids: Seq<u32>, n: nat)
    ensures
        kept(m, ids, n).len() == rank(m, ids, n as int) <= n,
    decreases n,
{
    if n > 0 {
        lemma_kept_len(m, ids, (n - 1) as nat);
    }
}

/// Where a kept component came from.
pub proof fn lemma_kept_source(m: Seq<ComponentView>, ids: Seq<u32>, n: nat, q: int) -> (i: int)
    requires
        0 <= q < kept(m, ids, n).len(),
    ensures
        0 <= i < n,
        !removed(m, ids, i),
        rank(m, ids, i) == q,
        kept(m, ids, n)[q] == (ComponentView {
            children: relabelled(m, ids, m[i].children),
            ..m[i]
        }),
    decreases n,
{
    lemma_kept_len(m, ids, (n - 1) as nat);
    if !removed(m, ids, n - 1) && q == kept(m, ids, (n - 1) as nat).len() {
        n - 1
    } else {
        lemma_kept_source(m, ids, (n - 1) as nat, q)
    }
}

/// A sub-component that stays comes from one that stayed.
pub proof fn lemma_relabelled(m: Seq<ComponentView>, ids: Seq<u32>, children: Seq<u32>, q: int) -> (
    c: u32)
    requires
        0 <= q < relabelled(m, ids, children).len(),
    ensures
        children.contains(c),
        !removed(m, ids, c as int),
        relabelled(m, ids, children)[q] == rank(m, ids, c as int) as u32,
{
    let keep = |c: u32| !removed(m, ids, c as int);
    let c = children.filter(keep)[q];
    assert(children.filter(keep).contains(c));
    children.lemma_filter_contains_rev(keep, c);
    children.lemma_filter_pred(keep, q);
    c
}

/// Taking components out leaves a tree, unless nothing is left.
pub proof fn lemma_without_is_tree(m: Seq<ComponentView>, ids: Seq<u32>)
    requires
        is_tree(m),
        m.len() <= u32::MAX,
        without(m, ids).len() > 0,
    ensures
        is_tree(without(m, ids)),
{
    let w = without(m, ids);
    assert forall|i: int, j: int| 0 <= i < w.len() && 0 <= j < w[i].children.len() implies i
        < #[trigger] w[i].children[j] < w.len() by {
        let from = lemma_kept_source(m, ids, m.len(), i);
        let c = lemma_relabelled(m, ids, m[from].children, j);
        let at = choose|k: int|
            0 <= k < m[from].children.len() && m[from].children[k] == c;
        assert(from < m[from].children[at] < m.len());
        lemma_kept(m, ids, m.len(), c as int);
        lemma_kept_len(m, ids, m.len());
        lemma_kept(m, ids, c as nat, from);
    }
}

} // verus!
