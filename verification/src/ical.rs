//! The bridge to `calcard`.

use calcard::icalendar::{
    ICalendar, ICalendarComponent, ICalendarComponentType, ICalendarEntry, ICalendarParameter,
    ICalendarParameterName, ICalendarParameterValue, ICalendarProperty, ICalendarValue,
    ICalendarValueType,
};
use calcard::common::timezone::Tz;
use calcard::common::PartialDateTime;
use calcard::Parser;
use chrono::{Datelike, Offset, Timelike};
use vstd::prelude::*;

use crate::civil::{Civil, Moment};
use crate::error::Error;
use crate::model::{
    Calendar, Component, ComponentKind, ComponentView, Entry, EntryView,
    OtherTzid, OtherValue, Param, ParamView, PartialDate, Property, PropertyName, PropertyView, Value,
    ValueView,
};

verus! {

/// `calcard::icalendar::ICalendar`, a list of components.
#[verifier::external_type_specification]
#[verifier::external_body]
pub struct ExICalendar(calcard::icalendar::ICalendar);

/// `calcard::icalendar::ICalendarComponent`, a list of entries.
#[verifier::external_type_specification]
#[verifier::external_body]
pub struct ExICalendarComponent(calcard::icalendar::ICalendarComponent);

/// `calcard::icalendar::ICalendarComponentType`, carried for the component
/// types that the library does not tell apart.
#[verifier::external_type_specification]
#[verifier::external_body]
pub struct ExICalendarComponentType(calcard::icalendar::ICalendarComponentType);

/// `calcard::icalendar::ICalendarEntry`, a property with its parameters and
/// values.
#[verifier::external_type_specification]
#[verifier::external_body]
pub struct ExICalendarEntry(calcard::icalendar::ICalendarEntry);

/// `calcard::icalendar::ICalendarParameter`.
#[verifier::external_type_specification]
#[verifier::external_body]
pub struct ExICalendarParameter(calcard::icalendar::ICalendarParameter);

/// `calcard::icalendar::ICalendarValue`.
#[verifier::external_type_specification]
#[verifier::external_body]
pub struct ExICalendarValue(calcard::icalendar::ICalendarValue);

/// `calcard::Parser`, which hands out the entries of a text one by one.
#[verifier::external_type_specification]
#[verifier::external_body]
pub struct ExParser<'x>(calcard::Parser<'x>);

/// What a `calcard` value holds.
pub uninterp spec fn value_view(v: ICalendarValue) -> ValueView;

/// What a `calcard` parameter holds.
pub uninterp spec fn param_view(p: ICalendarParameter) -> ParamView;

/// What a `calcard` entry holds.
pub uninterp spec fn entry_view(e: ICalendarEntry) -> EntryView;

/// What a `calcard` component type stands for.
pub uninterp spec fn kind_view(t: ICalendarComponentType) -> ComponentKind;

/// What a `calcard` component holds.
pub uninterp spec fn component_view(c: ICalendarComponent) -> ComponentView;

/// What a `calcard` calendar holds: its components in order.
pub uninterp spec fn calendar_view(c: ICalendar) -> Seq<ComponentView>;

/// Takes an `ICalendarValue` apart where it is text, an integer or a date-time,
/// which come over field by field. Any other value is given back.
#[verifier::external_body]
fn unpack_value(v: ICalendarValue) -> (r: Result<Value, ICalendarValue>)
    ensures
        match r {
            Ok(x) => x@ == value_view(v) && x !is Other,
            Err(raw) => raw == v && value_view(v) is Other,
        },
{
    match v {
        ICalendarValue::Text(s) => Ok(Value::Text(s)),
        ICalendarValue::Integer(i) => Ok(Value::Integer(i)),
        ICalendarValue::PartialDateTime(d) => Ok(Value::Date(PartialDate {
            year: d.year, month: d.month, day: d.day,
            hour: d.hour, minute: d.minute, second: d.second,
            tz_hour: d.tz_hour, tz_minute: d.tz_minute, tz_minus: d.tz_minus,
        })),
        raw => Err(raw),
    }
}

/// What the library reads of any other `ICalendarValue`: what `as_text` gives
/// of it, the `Display` form of a recurrence rule and the date at which that
/// rule ends, and the `Debug` form of a status. The value itself is carried.
#[verifier::external_body]
fn describe_value(raw: ICalendarValue) -> (r: OtherValue)
    requires
        value_view(raw) is Other,
    ensures
        r.raw == raw,
        ValueView::Other(r@) == value_view(raw),
{
    OtherValue {
        text: raw.as_text().map(str::to_string),
        rule: if let ICalendarValue::RecurrenceRule(r) = &raw { Some(r.to_string()) } else { None },
        until: if let ICalendarValue::RecurrenceRule(r) = &raw { r.until.as_ref().map(|d| PartialDate {
            year: d.year, month: d.month, day: d.day, hour: d.hour, minute: d.minute, second: d.second,
            tz_hour: d.tz_hour, tz_minute: d.tz_minute, tz_minus: d.tz_minus,
        }) } else { None },
        status: if let ICalendarValue::Status(s) = &raw { Some(format!("{s:?}")) } else { None },
        raw,
    }
}

/// Brings one `calcard` value over.
fn import_value(v: ICalendarValue) -> (r: Value)
    ensures
        r@ == value_view(v),
        r.wf(),
{
    match unpack_value(v) {
        Ok(x) => x,
        Err(raw) => Value::Other(describe_value(raw)),
    }
}

/// Puts an `ICalendarValue` together again, the inverse of the way it was
/// taken apart.
#[verifier::external_body]
fn pack_value(v: Value) -> (r: ICalendarValue)
    requires
        v.wf(),
    ensures
        value_view(r) == v@,
{
    match v {
        Value::Text(s) => ICalendarValue::Text(s),
        Value::Integer(i) => ICalendarValue::Integer(i),
        Value::Date(d) => ICalendarValue::PartialDateTime(Box::new(PartialDateTime {
            year: d.year, month: d.month, day: d.day,
            hour: d.hour, minute: d.minute, second: d.second,
            tz_hour: d.tz_hour, tz_minute: d.tz_minute, tz_minus: d.tz_minus,
        })),
        Value::Other(o) => o.raw,
    }
}

/// Takes an `ICalendarParameter` apart: a textual `TZID`, any other `TZID` with
/// what `as_text` gives of it, and `VALUE=DATE` are told from the rest, which is
/// carried.
#[verifier::external_body]
fn unpack_param(p: ICalendarParameter) -> (r: Param)
    ensures
        r@ == param_view(p),
        r.wf(),
{
    match (p.name, p.value) {
        (ICalendarParameterName::Tzid, ICalendarParameterValue::Text(s)) => Param::Tzid(s),
        (name @ ICalendarParameterName::Tzid, value) => Param::OtherTzid(OtherTzid {
            text: value.as_text().map(str::to_string),
            raw: ICalendarParameter { name, value },
        }),
        (ICalendarParameterName::Value, ICalendarParameterValue::Value(ICalendarValueType::Date)) => {
            Param::ValueDate
        }
        (name, value) => Param::Other(ICalendarParameter { name, value }),
    }
}

/// `ICalendarParameter::tzid` and `ICalendarParameter::value`, which build
/// `TZID=...` and `VALUE=DATE`; a carried parameter is given back.
#[verifier::external_body]
fn pack_param(p: Param) -> (r: ICalendarParameter)
    requires
        p.wf(),
    ensures
        param_view(r) == p@,
{
    match p {
        Param::Tzid(s) => ICalendarParameter::tzid(s),
        Param::OtherTzid(z) => z.raw,
        Param::ValueDate => ICalendarParameter::value(ICalendarValueType::Date),
        Param::Other(p) => p,
    }
}

/// The views of a list of `calcard` parameters.
pub open spec fn param_views(s: Seq<ICalendarParameter>) -> Seq<ParamView> {
    Seq::new(s.len(), |i: int| param_view(s[i]))
}

/// The views of a list of `calcard` values.
pub open spec fn value_views(s: Seq<ICalendarValue>) -> Seq<ValueView> {
    Seq::new(s.len(), |i: int| value_view(s[i]))
}

/// The views of a list of `calcard` entries.
pub open spec fn entry_views(s: Seq<ICalendarEntry>) -> Seq<EntryView> {
    Seq::new(s.len(), |i: int| entry_view(s[i]))
}

/// The views of a list of `calcard` components.
pub open spec fn component_views(s: Seq<ICalendarComponent>) -> Seq<ComponentView> {
    Seq::new(s.len(), |i: int| component_view(s[i]))
}

/// The views of a list of `calcard` calendars.
pub open spec fn calendar_views(s: Seq<ICalendar>) -> Seq<Seq<ComponentView>> {
    Seq::new(s.len(), |i: int| calendar_view(s[i]))
}

/// Takes an `ICalendarEntry` apart where its property is one that the library
/// knows; any other entry is given back whole.
#[verifier::external_body]
fn unpack_entry(e: ICalendarEntry) -> (r: Result<
    (PropertyName, Vec<ICalendarParameter>, Vec<ICalendarValue>),
    ICalendarEntry,
>)
    ensures
        match r {
            Ok(k) => entry_view(e) == EntryView::Known(
                (PropertyView {
                    name: k.0,
                    params: param_views(k.1@),
                    values: value_views(k.2@),
                }),
            ),
            Err(raw) => raw == e && entry_view(e) == EntryView::Foreign(e),
        },
{
    let name = match &e.name {
        ICalendarProperty::Uid => PropertyName::Uid, ICalendarProperty::Dtstart => PropertyName::Dtstart,
        ICalendarProperty::Dtend => PropertyName::Dtend, ICalendarProperty::Dtstamp => PropertyName::Dtstamp,
        ICalendarProperty::RecurrenceId => PropertyName::RecurrenceId,
        ICalendarProperty::Summary => PropertyName::Summary,
        ICalendarProperty::Description => PropertyName::Description,
        ICalendarProperty::Location => PropertyName::Location,
        ICalendarProperty::Sequence => PropertyName::Sequence, ICalendarProperty::Exdate => PropertyName::Exdate,
        ICalendarProperty::Rrule => PropertyName::Rrule, ICalendarProperty::Rdate => PropertyName::Rdate,
        ICalendarProperty::Attendee => PropertyName::Attendee,
        ICalendarProperty::Organizer => PropertyName::Organizer, ICalendarProperty::Status => PropertyName::Status,
        _ => return Err(e),
    };
    Ok((name, e.params, e.values))
}

/// `ICalendarEntry` with the property, parameters and values given.
#[verifier::external_body]
fn pack_entry(
    name: PropertyName,
    params: Vec<ICalendarParameter>,
    values: Vec<ICalendarValue>,
) -> (r: ICalendarEntry)
    ensures
        entry_view(r) == EntryView::Known(
            (PropertyView {
                name: name,
                params: param_views(params@),
                values: value_views(values@),
            }),
        ),
{
    let name = match name {
        PropertyName::Uid => ICalendarProperty::Uid, PropertyName::Dtstart => ICalendarProperty::Dtstart,
        PropertyName::Dtend => ICalendarProperty::Dtend, PropertyName::Dtstamp => ICalendarProperty::Dtstamp,
        PropertyName::RecurrenceId => ICalendarProperty::RecurrenceId,
        PropertyName::Summary => ICalendarProperty::Summary,
        PropertyName::Description => ICalendarProperty::Description,
        PropertyName::Location => ICalendarProperty::Location,
        PropertyName::Sequence => ICalendarProperty::Sequence, PropertyName::Exdate => ICalendarProperty::Exdate,
        PropertyName::Rrule => ICalendarProperty::Rrule, PropertyName::Rdate => ICalendarProperty::Rdate,
        PropertyName::Attendee => ICalendarProperty::Attendee,
        PropertyName::Organizer => ICalendarProperty::Organizer, PropertyName::Status => ICalendarProperty::Status,
    };
    ICalendarEntry { name, params, values }
}

/// Tells the `ICalendarComponentType`s `VCALENDAR` and `VEVENT` from the rest,
/// which is carried.
#[verifier::external_body]
fn unpack_kind(t: ICalendarComponentType) -> (r: ComponentKind)
    ensures
        r == kind_view(t),
        r.wf(),
{
    match t {
        ICalendarComponentType::VCalendar => ComponentKind::Calendar,
        ICalendarComponentType::VEvent => ComponentKind::Event,
        t => ComponentKind::Other(t),
    }
}

/// The `ICalendarComponentType` of a kind.
#[verifier::external_body]
fn pack_kind(k: ComponentKind) -> (r: ICalendarComponentType)
    requires
        k.wf(),
    ensures
        kind_view(r) == k,
{
    match k {
        ComponentKind::Calendar => ICalendarComponentType::VCalendar,
        ComponentKind::Event => ICalendarComponentType::VEvent,
        ComponentKind::Other(t) => t,
    }
}

/// The fields of an `ICalendarComponent`.
#[verifier::external_body]
fn unpack_component(c: ICalendarComponent) -> (r: (
    ICalendarComponentType,
    Vec<ICalendarEntry>,
    Vec<u32>,
))
    ensures
        component_view(c) == (ComponentView {
            kind: kind_view(r.0),
            entries: entry_views(r.1@),
            children: r.2@,
        }),
{
    (c.component_type, c.entries, c.component_ids)
}

/// `ICalendarComponent` with the fields given.
#[verifier::external_body]
fn pack_component(
    kind: ICalendarComponentType,
    entries: Vec<ICalendarEntry>,
    children: Vec<u32>,
) -> (r: ICalendarComponent)
    ensures
        component_view(r) == (ComponentView {
            kind: kind_view(kind),
            entries: entry_views(entries@),
            children: children@,
        }),
{
    ICalendarComponent { component_type: kind, entries, component_ids: children }
}

/// The components of an `ICalendar`.
#[verifier::external_body]
fn unpack_calendar(c: ICalendar) -> (r: Vec<ICalendarComponent>)
    ensures
        calendar_view(c) == component_views(r@),
{
    c.components
}

/// `ICalendar` with the components given.
#[verifier::external_body]
fn pack_calendar(components: Vec<ICalendarComponent>) -> (r: ICalendar)
    ensures
        calendar_view(r) == component_views(components@),
{
    ICalendar { components }
}

/// Brings a list of `calcard` parameters over.
fn import_params(params: Vec<ICalendarParameter>) -> (r: Vec<Param>)
    ensures
        crate::model::param_list(r@) == param_views(params@),
        forall|i: int| 0 <= i < r@.len() ==> (#[trigger] r@[i]).wf(),
{
    let ghost all = params@;
    let mut out: Vec<Param> = Vec::new();
    for p in it: params
        invariant
            it.seq() == all,
            out@.len() == it.index(),
            forall|i: int|
                0 <= i < out@.len() ==> (#[trigger] out@[i])@ == param_view(all[i]) && out@[i].wf(),
    {
        out.push(unpack_param(p));
    }
    assert(crate::model::param_list(out@) =~= param_views(all));
    out
}

/// Brings a list of `calcard` values over.
fn import_values(values: Vec<ICalendarValue>) -> (r: Vec<Value>)
    ensures
        crate::model::value_list(r@) == value_views(values@),
        forall|i: int| 0 <= i < r@.len() ==> (#[trigger] r@[i]).wf(),
{
    let ghost all = values@;
    let mut out: Vec<Value> = Vec::new();
    for v in it: values
        invariant
            it.seq() == all,
            out@.len() == it.index(),
            forall|i: int|
                0 <= i < out@.len() ==> (#[trigger] out@[i])@ == value_view(all[i]) && out@[i].wf(),
    {
        out.push(import_value(v));
    }
    assert(crate::model::value_list(out@) =~= value_views(all));
    out
}

/// Brings one `calcard` entry over.
fn import_entry(e: ICalendarEntry) -> (r: Entry)
    ensures
        r@ == entry_view(e),
        r.wf(),
{
    match unpack_entry(e) {
        Ok((name, params, values)) => {
            Entry::Known(
                Property { name, params: import_params(params), values: import_values(values) },
            )
        },
        Err(raw) => Entry::Foreign(raw),
    }
}

/// Brings a list of `calcard` entries over.
fn import_entries(entries: Vec<ICalendarEntry>) -> (r: Vec<Entry>)
    ensures
        crate::model::entry_list(r@) == entry_views(entries@),
        forall|i: int| 0 <= i < r@.len() ==> (#[trigger] r@[i]).wf(),
{
    let ghost all = entries@;
    let mut out: Vec<Entry> = Vec::new();
    for e in it: entries
        invariant
            it.seq() == all,
            out@.len() == it.index(),
            forall|i: int|
                0 <= i < out@.len() ==> (#[trigger] out@[i])@ == entry_view(all[i]) && out@[i].wf(),
    {
        out.push(import_entry(e));
    }
    assert(crate::model::entry_list(out@) =~= entry_views(all));
    out
}

/// Brings a `calcard` calendar over: the same components, in the same order,
/// with the same contents.
pub fn import_calendar(c: ICalendar) -> (r: Calendar)
    ensures
        r@ == calendar_view(c),
        r.parts_wf(),
{
    let components = unpack_calendar(c);
    let ghost all = components@;
    let mut out: Vec<Component> = Vec::new();
    for raw in it: components
        invariant
            it.seq() == all,
            out@.len() == it.index(),
            forall|i: int|
                0 <= i < out@.len() ==> (#[trigger] out@[i])@ == component_view(all[i])
                    && out@[i].wf(),
    {
        let (kind, entries, children) = unpack_component(raw);
        out.push(
            Component { kind: unpack_kind(kind), entries: import_entries(entries), children },
        );
    }
    assert(crate::model::component_list(out@) =~= component_views(all));
    Calendar { components: out }
}

/// Hands a list of parameters back to `calcard`.
fn export_params(params: Vec<Param>) -> (r: Vec<ICalendarParameter>)
    requires
        forall|i: int| 0 <= i < params@.len() ==> (#[trigger] params@[i]).wf(),
    ensures
        param_views(r@) == crate::model::param_list(params@),
{
    let ghost all = params@;
    let mut out: Vec<ICalendarParameter> = Vec::new();
    for p in it: params
        invariant
            it.seq() == all,
            forall|i: int| 0 <= i < all.len() ==> (#[trigger] all[i]).wf(),
            out@.len() == it.index(),
            forall|i: int| 0 <= i < out@.len() ==> param_view(#[trigger] out@[i]) == all[i]@,
    {
        out.push(pack_param(p));
    }
    assert(param_views(out@) =~= crate::model::param_list(all));
    out
}

/// Hands a list of values back to `calcard`.
fn export_values(values: Vec<Value>) -> (r: Vec<ICalendarValue>)
    requires
        forall|i: int| 0 <= i < values@.len() ==> (#[trigger] values@[i]).wf(),
    ensures
        value_views(r@) == crate::model::value_list(values@),
{
    let ghost all = values@;
    let mut out: Vec<ICalendarValue> = Vec::new();
    for v in it: values
        invariant
            it.seq() == all,
            forall|i: int| 0 <= i < all.len() ==> (#[trigger] all[i]).wf(),
            out@.len() == it.index(),
            forall|i: int| 0 <= i < out@.len() ==> value_view(#[trigger] out@[i]) == all[i]@,
    {
        out.push(pack_value(v));
    }
    assert(value_views(out@) =~= crate::model::value_list(all));
    out
}

/// Hands one entry back to `calcard`.
fn export_entry(e: Entry) -> (r: ICalendarEntry)
    requires
        e.wf(),
    ensures
        entry_view(r) == e@,
{
    match e {
        Entry::Known(p) => {
            let params = export_params(p.params);
            let values = export_values(p.values);
            pack_entry(p.name, params, values)
        },
        Entry::Foreign(raw) => raw,
    }
}

/// Hands a list of entries back to `calcard`.
fn export_entries(entries: Vec<Entry>) -> (r: Vec<ICalendarEntry>)
    requires
        forall|i: int| 0 <= i < entries@.len() ==> (#[trigger] entries@[i]).wf(),
    ensures
        entry_views(r@) == crate::model::entry_list(entries@),
{
    let ghost all = entries@;
    let mut out: Vec<ICalendarEntry> = Vec::new();
    for e in it: entries
        invariant
            it.seq() == all,
            forall|i: int| 0 <= i < all.len() ==> (#[trigger] all[i]).wf(),
            out@.len() == it.index(),
            forall|i: int| 0 <= i < out@.len() ==> entry_view(#[trigger] out@[i]) == all[i]@,
    {
        out.push(export_entry(e));
    }
    assert(entry_views(out@) =~= crate::model::entry_list(all));
    out
}

/// Hands a calendar back to `calcard`, the inverse of [`import_calendar`].
pub fn export_calendar(c: Calendar) -> (r: ICalendar)
    requires
        c.parts_wf(),
    ensures
        calendar_view(r) == c@,
{
    let ghost all = c.components@;
    let mut out: Vec<ICalendarComponent> = Vec::new();
    for x in it: c.components
        invariant
            it.seq() == all,
            forall|i: int| 0 <= i < all.len() ==> (#[trigger] all[i]).wf(),
            out@.len() == it.index(),
            forall|i: int| 0 <= i < out@.len() ==> component_view(#[trigger] out@[i]) == all[i]@,
    {
        let kind = pack_kind(x.kind);
        let entries = export_entries(x.entries);
        out.push(pack_component(kind, entries, x.children));
    }
    assert(component_views(out@) =~= crate::model::component_list(all));
    pack_calendar(out)
}

/// The entries of a text, in order: the contents of a calendar, or `None`
/// where something else stands.
pub uninterp spec fn text_entries(text: Seq<char>) -> Seq<Option<Seq<ComponentView>>>;

/// The entries that a parser has not handed out yet.
pub uninterp spec fn pending(p: Parser<'_>) -> Seq<Option<Seq<ComponentView>>>;

/// The text that a calendar is written as.
pub uninterp spec fn ics_text(m: Seq<ComponentView>) -> Seq<char>;

/// What a parser hands out.
enum Step {
    Calendar(ICalendar),
    Other,
    End,
}

/// What holds of the components of a calendar that was read from text: they
/// form a tree, each but the root stands in the list of one before it, and 32
/// bits number them.
pub open spec fn readable(m: Seq<ComponentView>) -> bool {
    &&& crate::model::is_tree(m)
    &&& forall|i: int|
        0 < i < m.len() ==> exists|j: int|
            0 <= j < i && (#[trigger] m[j]).children.contains(#[trigger] (i as u32))
    &&& m.len() <= u32::MAX
}

/// A content line of an event, without parameters.
pub enum LineView {
    /// A text as it stands.
    Bare(PropertyName, Seq<char>),
    /// A text with its special characters escaped.
    Text(PropertyName, Seq<char>),
    /// An instant in the basic form of UTC.
    Instant(PropertyName, Civil),
}

/// Is the value of the property a single text?
pub open spec fn holds_text(n: PropertyName) -> bool {
    n is Uid || n is Summary || n is Description || n is Location
}

/// Is the value of the property a single date-time?
pub open spec fn holds_instant(n: PropertyName) -> bool {
    n is Dtstamp || n is Dtstart || n is Dtend
}

/// Does a line hold what it is read as? A carriage return is dropped by the
/// reader wherever it stands, and a backslash or a line feed has to be escaped.
pub open spec fn is_plain(l: LineView) -> bool {
    match l {
        LineView::Bare(n, s) => holds_text(n) && !s.contains('\\') && !s.contains('\n')
            && !s.contains('\r'),
        LineView::Text(n, s) => holds_text(n) && !s.contains('\r'),
        LineView::Instant(n, c) => holds_instant(n) && c.valid() && c.ordinary() && 0 <= c.year
            <= 9999,
    }
}

/// The name of a property that holds a text or an instant, and its colon.
pub open spec fn label(n: PropertyName) -> Seq<char> {
    match n {
        PropertyName::Uid => "UID:"@,
        PropertyName::Summary => "SUMMARY:"@,
        PropertyName::Description => "DESCRIPTION:"@,
        PropertyName::Location => "LOCATION:"@,
        PropertyName::Dtstart => "DTSTART:"@,
        PropertyName::Dtend => "DTEND:"@,
        _ => "DTSTAMP:"@,
    }
}

/// The text of a line, with the line break behind it.
pub open spec fn content(l: LineView) -> Seq<char> {
    match l {
        LineView::Bare(n, s) => crate::icloud::line(label(n), s),
        LineView::Text(n, s) => crate::icloud::line(label(n), crate::icloud::escaped(s)),
        LineView::Instant(n, c) => crate::icloud::line(label(n), crate::civil::basic_utc_text(c)),
    }
}

/// The text of some lines.
pub open spec fn contents(lines: Seq<LineView>) -> Seq<char>
    decreases lines.len(),
{
    if lines.len() == 0 {
        seq![]
    } else {
        contents(lines.drop_last()) + content(lines.last())
    }
}

/// The values that stand for a text: none where it is empty.
pub open spec fn text_values(s: Seq<char>) -> Seq<ValueView> {
    if s.len() == 0 {
        seq![]
    } else {
        seq![ValueView::Text(s)]
    }
}

/// The entry that a line is read as.
pub open spec fn line_entry(l: LineView) -> EntryView {
    match l {
        LineView::Bare(n, s) | LineView::Text(n, s) => EntryView::Known(
            PropertyView { name: n, params: seq![], values: text_values(s) },
        ),
        LineView::Instant(n, c) => EntryView::Known(
            PropertyView {
                name: n,
                params: seq![],
                values: seq![ValueView::Date(date_time_value(c, true))],
            },
        ),
    }
}

/// A calendar text with one event of these lines.
pub open spec fn document(product: Seq<char>, lines: Seq<LineView>) -> Seq<char> {
    crate::icloud::line("BEGIN:VCALENDAR"@, seq![]) + crate::icloud::line("VERSION:2.0"@, seq![])
        + crate::icloud::line("PRODID:"@, product) + crate::icloud::line("BEGIN:VEVENT"@, seq![])
        + contents(lines) + crate::icloud::line("END:VEVENT"@, seq![]) + crate::icloud::line(
        "END:VCALENDAR"@,
        seq![],
    )
}

/// Is this a calendar with one event of these lines in it, and nothing else?
pub open spec fn holds_lines(m: Seq<ComponentView>, lines: Seq<LineView>) -> bool {
    &&& m.len() == 2
    &&& m[0].kind is Calendar
    &&& m[0].children == seq![1u32]
    &&& m[1] == (ComponentView {
        kind: ComponentKind::Event,
        entries: lines.map_values(|l: LineView| line_entry(l)),
        children: seq![],
    })
}

/// Are the entries of a text, where it is a calendar text with one event of
/// plain lines, that calendar alone?
pub open spec fn reads_documents(text: Seq<char>, entries: Seq<Option<Seq<ComponentView>>>) -> bool {
    forall|product: Seq<char>, lines: Seq<LineView>|
        text == #[trigger] document(product, lines) && !product.contains('\\')
            && !product.contains('\n') && !product.contains('\r') && (forall|i: int|
            0 <= i < lines.len() ==> is_plain(#[trigger] lines[i])) ==> {
            &&& entries.len() == 1
            &&& entries[0] is Some
            &&& holds_lines(entries[0]->0, lines)
        }
}

/// `Parser::new`: a parser of `text`, with all of its entries ahead. What a
/// text is read as is named. A calendar text with one event, whose lines have no
/// parameters and hold a text or an instant in UTC, is read as one entry: a
/// calendar and its event, each line of the event an entry under its name with
/// the text or the instant that it was written from. An empty value is read as
/// none.
#[verifier::external_body]
fn new_parser(text: &str) -> (r: Parser<'_>)
    ensures
        pending(r) == text_entries(text@),
        reads_documents(text@, pending(r)),
{
    Parser::new(text)
}

/// `Parser::entry`: the next entry, or `Eof` behind the last one. The parser
/// numbers components in the order in which they begin, with 32 bits, and
/// lists each in the one that it begins in.
#[verifier::external_body]
fn next_entry(p: &mut Parser<'_>) -> (r: Step)
    ensures
        pending(*old(p)).len() == 0 ==> r is End && pending(*final(p)).len() == 0,
        pending(*old(p)).len() > 0 ==> pending(*final(p)) == pending(*old(p)).drop_first(),
        pending(*old(p)).len() > 0 ==> match pending(*old(p))[0] {
            Some(m) => r matches Step::Calendar(c) && calendar_view(c) == m,
            None => r is Other,
        },
        r matches Step::Calendar(c) ==> readable(calendar_view(c)),
{
    match p.entry() {
        calcard::Entry::ICalendar(c) => Step::Calendar(c),
        calcard::Entry::Eof => Step::End,
        _ => Step::Other,
    }
}

/// The `Display` form of an `ICalendar`: its text. The writer follows the
/// sub-component indices from component 0 on, so they have to form a tree.
#[verifier::external_body]
pub(crate) fn write_calendar(c: &ICalendar) -> (r: String)
    requires
        crate::model::is_tree(calendar_view(*c)),
    ensures
        r@ == ics_text(calendar_view(*c)),
{
    c.to_string()
}

/// `ICalendar::remove_component_ids`: takes the listed components out, with
/// all that they hold, and renumbers the rest.
#[verifier::external_body]
pub(crate) fn remove_components(c: &mut ICalendar, ids: &Vec<u32>)
    requires
        crate::model::is_tree(calendar_view(*old(c))),
        calendar_view(*old(c)).len() <= u32::MAX,
    ensures
        calendar_view(*final(c)) == crate::model::without(calendar_view(*old(c)), ids@),
{
    c.remove_component_ids(ids);
}

/// The calendars among a list of entries.
pub open spec fn calendars_in(s: Seq<Option<Seq<ComponentView>>>) -> Seq<Seq<ComponentView>>
    decreases s.len(),
{
    if s.len() == 0 {
        seq![]
    } else {
        match s.last() {
            Some(m) => calendars_in(s.drop_last()).push(m),
            None => calendars_in(s.drop_last()),
        }
    }
}

/// Parses a text into its calendars, skipping whatever else stands in it.
pub fn parse_calendars(ics: &str) -> (r: Vec<ICalendar>)
    ensures
        calendar_views(r@) == calendars_in(text_entries(ics@)),
        reads_documents(ics@, text_entries(ics@)),
        forall|i: int| 0 <= i < r@.len() ==> readable(calendar_view(#[trigger] r@[i])),
{
    let ghost all = text_entries(ics@);
    let ghost mut k: int = 0;
    let mut parser = new_parser(ics);
    let mut out: Vec<ICalendar> = Vec::new();
    proof {
        assert(all.skip(0) =~= all);
        assert(all.take(0) =~= seq![]);
        assert(calendar_views(out@) =~= seq![]);
    }
    loop
        invariant
            0 <= k <= all.len(),
            pending(parser) == all.skip(k),
            calendar_views(out@) == calendars_in(all.take(k)),
            forall|i: int| 0 <= i < out@.len() ==> readable(calendar_view(#[trigger] out@[i])),
        ensures
            k == all.len(),
        decreases all.len() - k,
    {
        let step = next_entry(&mut parser);
        if let Step::End = step {
            break;
        }
        proof {
            assert(all.skip(k).drop_first() =~= all.skip(k + 1));
            assert(all.take(k + 1).drop_last() =~= all.take(k));
            k = k + 1;
        }
        if let Step::Calendar(c) = step {
            let ghost before = out@;
            out.push(c);
            assert(calendar_views(out@) =~= calendar_views(before).push(calendar_view(c)));
        }
    }
    assert(all.take(k) =~= all);
    out
}

/// The first calendar in a text.
pub open spec fn first_calendar(text: Seq<char>) -> Option<Seq<ComponentView>> {
    let all = calendars_in(text_entries(text));
    if all.len() > 0 {
        Some(all[0])
    } else {
        None
    }
}

/// The first calendar among the first entries is the first of all.
proof fn lemma_first_calendar(s: Seq<Option<Seq<ComponentView>>>, k: int)
    requires
        0 <= k <= s.len(),
        calendars_in(s.take(k)).len() > 0,
    ensures
        calendars_in(s).len() > 0,
        calendars_in(s)[0] == calendars_in(s.take(k))[0],
    decreases s.len(),
{
    if k < s.len() {
        assert(s.drop_last().take(k) =~= s.take(k));
        lemma_first_calendar(s.drop_last(), k);
    } else {
        assert(s.take(k) =~= s);
    }
}

/// Parses the first calendar out of a text.
pub fn parse_one(ics: &str) -> (r: Result<ICalendar, Error>)
    ensures
        match r {
            Ok(c) => first_calendar(ics@) == Some(calendar_view(c)) && readable(calendar_view(c)),
            Err(e) => first_calendar(ics@) is None && e is NoCalendar,
        },
        reads_documents(ics@, text_entries(ics@)),
{
    let ghost all = text_entries(ics@);
    let ghost mut k: int = 0;
    let mut parser = new_parser(ics);
    proof {
        assert(all.skip(0) =~= all);
        assert(all.take(0) =~= seq![]);
    }
    loop
        invariant
            0 <= k <= all.len(),
            all == text_entries(ics@),
            pending(parser) == all.skip(k),
            calendars_in(all.take(k)).len() == 0,
            reads_documents(ics@, all),
        decreases all.len() - k,
    {
        let step = next_entry(&mut parser);
        if let Step::End = step {
            assert(all.take(k) =~= all);
            return Err(Error::NoCalendar);
        }
        proof {
            assert(all.skip(k).drop_first() =~= all.skip(k + 1));
            assert(all.take(k + 1).drop_last() =~= all.take(k));
            k = k + 1;
        }
        if let Step::Calendar(c) = step {
            proof {
                lemma_first_calendar(all, k);
            }
            return Ok(c);
        }
    }
}

/// `PartialDateTime::to_date_time`: the wall clock that a date shows.
#[verifier::external_body]
pub(crate) fn wall_clock_of(d: PartialDate) -> (r: Option<Civil>)
    ensures
        r == crate::read::wall_clock(d),
{
    let p = PartialDateTime {
        year: d.year, month: d.month, day: d.day,
        hour: d.hour, minute: d.minute, second: d.second,
        tz_hour: d.tz_hour, tz_minute: d.tz_minute, tz_minus: d.tz_minus,
    };
    match p.to_date_time() {
        Some(t) => Some(Civil {
            year: t.date_time.year(), month: t.date_time.month() as u8, day: t.date_time.day() as u8,
            hour: t.date_time.hour() as u8, minute: t.date_time.minute() as u8,
            second: t.date_time.second() as u8, nano: t.date_time.nanosecond(),
        }),
        None => None,
    }
}

/// A wall clock as the date-time of a property, in UTC or without an offset.
/// The year is kept in 16 bits.
pub open spec fn date_time_value(c: Civil, utc: bool) -> PartialDate {
    PartialDate {
        year: Some(c.year as u16),
        month: Some(c.month),
        day: Some(c.day),
        hour: Some(c.hour),
        minute: Some(c.minute),
        second: Some(c.second),
        tz_hour: if utc {
            Some(0u8)
        } else {
            None
        },
        tz_minute: if utc {
            Some(0u8)
        } else {
            None
        },
        tz_minus: false,
    }
}

/// `PartialDateTime::from_utc_timestamp`: the date-time in UTC of an instant.
#[verifier::external_body]
pub(crate) fn utc_date(timestamp: i64) -> (r: PartialDate)
    requires
        crate::civil::min_seconds() <= timestamp <= crate::civil::max_seconds(),
    ensures
        r == date_time_value(crate::civil::at(timestamp as int, 0), true),
{
    let d = PartialDateTime::from_utc_timestamp(timestamp);
    PartialDate {
        year: d.year, month: d.month, day: d.day,
        hour: d.hour, minute: d.minute, second: d.second,
        tz_hour: d.tz_hour, tz_minute: d.tz_minute, tz_minus: d.tz_minus,
    }
}

/// The time zone in which a wall clock is read.
#[derive(Debug, PartialEq)]
pub enum Zone {
    Utc,
    /// No zone of its own; its clock is read as UTC.
    Floating,
    /// A fixed offset east of UTC, in seconds.
    Fixed(i32),
    /// A zone of the IANA database.
    Named(String),
}

/// What a [`Zone`] holds.
pub enum ZoneView {
    Utc,
    Floating,
    Fixed(i32),
    Named(Seq<char>),
}

impl View for Zone {
    type V = ZoneView;

    open spec fn view(&self) -> ZoneView {
        match self {
            Zone::Utc => ZoneView::Utc,
            Zone::Floating => ZoneView::Floating,
            Zone::Fixed(n) => ZoneView::Fixed(*n),
            Zone::Named(s) => ZoneView::Named(s@),
        }
    }
}

/// A fixed offset is less than a day.
pub open spec fn zone_ok(z: ZoneView) -> bool {
    z matches ZoneView::Fixed(n) ==> -86400 < n < 86400
}

/// One occurrence of a component: when it starts and ends, and the time zone
/// of its start.
#[derive(Debug, PartialEq)]
pub struct Span {
    pub comp_id: u32,
    pub start: Moment,
    pub end: Moment,
    pub zone: Zone,
}

/// What a [`Span`] holds.
pub struct SpanView {
    pub comp_id: u32,
    pub start: Moment,
    pub end: Moment,
    pub zone: ZoneView,
}

impl View for Span {
    type V = SpanView;

    open spec fn view(&self) -> SpanView {
        SpanView { comp_id: self.comp_id, start: self.start, end: self.end, zone: self.zone@ }
    }
}

/// The view of an optional occurrence.
pub open spec fn span_view(s: Option<Span>) -> Option<SpanView> {
    match s {
        Some(x) => Some(x@),
        None => None,
    }
}

/// The views of a list of optional occurrences.
pub open spec fn span_list(s: Seq<Option<Span>>) -> Seq<Option<SpanView>> {
    Seq::new(s.len(), |i: int| span_view(s[i]))
}

/// The occurrences of the components of a calendar, `None` for one whose end
/// cannot be resolved: first those whose order the calendar fixes, then, in no
/// fixed order, the overrides that match no generated slot.
pub uninterp spec fn expansion(m: Seq<ComponentView>, limit: usize) -> (
    Seq<Option<SpanView>>,
    vstd::multiset::Multiset<Option<SpanView>>,
);

/// Is the occurrence one of a component of the calendar, at moments that
/// `chrono` can hold?
pub open spec fn span_ok(m: Seq<ComponentView>, s: Option<SpanView>) -> bool {
    s matches Some(x) ==> x.comp_id < m.len() && x.start.ok() && x.end.ok() && zone_ok(x.zone)
}

/// Are these occurrences of the calendar?
pub open spec fn spans_ok(m: Seq<ComponentView>, spans: Seq<Option<SpanView>>) -> bool {
    forall|i: int| 0 <= i < spans.len() ==> span_ok(m, #[trigger] spans[i])
}

/// The offset from UTC, in seconds, at which the clocks of a named time zone
/// show `c`, if they do so at exactly one moment.
pub uninterp spec fn local_offset(c: Civil, zone: Seq<char>) -> Option<i32>;

/// The offset from UTC that a date carries, in seconds.
pub open spec fn own_offset(d: PartialDate) -> int {
    let size = d.tz_hour.unwrap_or(0) * 3600 + d.tz_minute.unwrap_or(0) * 60;
    if d.tz_minus {
        -size
    } else {
        size
    }
}

/// The moment at which a clock at a fixed offset shows `c`.
pub open spec fn moment_at(c: Civil, offset: int) -> Moment {
    Moment { timestamp: (c.seconds() - offset) as i64, offset: offset as i32 }
}

/// When the clocks of a named time zone show `c`, if that is at exactly one
/// moment.
pub open spec fn local_moment(c: Civil, zone: Seq<char>) -> Option<Moment> {
    match local_offset(c, zone) {
        Some(n) => Some(moment_at(c, n as int)),
        None => None,
    }
}

/// The moment of a date: at its own offset where it carries one, else in the
/// time zone given.
pub open spec fn resolved(d: PartialDate, zone: ZoneView) -> Option<Moment> {
    match crate::read::wall_clock(d) {
        Some(c) => if d.tz_hour is Some {
            Some(moment_at(c, own_offset(d)))
        } else {
            match zone {
                ZoneView::Utc | ZoneView::Floating => Some(moment_at(c, 0)),
                ZoneView::Fixed(n) => Some(moment_at(c, n as int)),
                ZoneView::Named(s) => local_moment(c, s),
            }
        },
        None => None,
    }
}

/// Is the value a recurrence rule?
pub open spec fn is_rule_value(v: ValueView) -> bool {
    v matches ValueView::Other(o) && o.rule is Some
}

/// Is the entry a recurrence rule?
pub open spec fn is_rule(e: EntryView) -> bool {
    match e {
        EntryView::Known(p) => p.name == PropertyName::Rrule && p.values.len() > 0 && is_rule_value(
            p.values[0],
        ),
        EntryView::Foreign(_) => false,
    }
}

/// Is the entry a recurrence rule that can be followed? Its end, if it has one,
/// has to be a date that exists.
pub open spec fn is_usable_rule(e: EntryView) -> bool {
    is_rule(e) && (e->Known_0.values[0]->Other_0.until matches Some(d) ==> crate::read::wall_clock(
        d,
    ) is Some)
}

/// Do the occurrences of an event all come from its recurrence rule?
pub open spec fn generates(c: ComponentView) -> bool {
    &&& crate::read::is_event(c)
    &&& !crate::model::is_override(c)
    &&& !crate::model::has(c, PropertyName::Rdate)
    &&& has_rule(c)
    &&& forall|i: int|
        0 <= i < c.entries.len() && is_rule(#[trigger] c.entries[i]) ==> is_usable_rule(
            c.entries[i],
        )
}

/// Does every `DTSTART` of a component name this time zone, or none?
pub open spec fn zoned(c: ComponentView, tz: Option<Seq<char>>) -> bool {
    forall|i: int|
        0 <= i < c.entries.len() && crate::model::named(
            #[trigger] c.entries[i],
            PropertyName::Dtstart,
        ) ==> crate::read::tzid(c.entries[i]->Known_0.params) == tz
}

/// Does a value of an entry of a series fall on the moment at which an
/// occurrence starts? A date counts that carries its own offset, or that is in
/// the time zone of the series.
pub open spec fn falls_on(
    c: ComponentView,
    params: Seq<ParamView>,
    v: ValueView,
    x: SpanView,
) -> bool {
    match v {
        ValueView::Date(d) => (d.tz_hour is Some || x.zone !is Floating && zoned(
            c,
            crate::read::tzid(params),
        )) && match resolved(d, x.zone) {
            Some(t) => t.timestamp == x.start.timestamp,
            None => false,
        },
        _ => false,
    }
}

/// Is the entry `q` an `EXDATE` for the moment at which an occurrence starts?
pub open spec fn excludes(c: ComponentView, q: int, x: SpanView) -> bool {
    match c.entries[q] {
        EntryView::Known(p) => p.name == PropertyName::Exdate && exists|j: int|
            0 <= j < p.values.len() && falls_on(c, p.params, #[trigger] p.values[j], x),
        EntryView::Foreign(_) => false,
    }
}

/// The number in a `SEQUENCE` entry.
pub open spec fn sequence_number(e: EntryView) -> Option<i64> {
    match e {
        EntryView::Known(p) => if p.name == PropertyName::Sequence && p.values.len() > 0 {
            match p.values[0] {
                ValueView::Integer(i) => Some(i),
                _ => None,
            }
        } else {
            None
        },
        EntryView::Foreign(_) => None,
    }
}

/// The number by which overrides and series find each other: the last
/// `SEQUENCE`, or the largest number where there is none.
pub open spec fn link_sequence(entries: Seq<EntryView>) -> i64
    decreases entries.len(),
{
    if entries.len() == 0 {
        i64::MAX
    } else {
        match sequence_number(entries.last()) {
            Some(i) => i,
            None => link_sequence(entries.drop_last()),
        }
    }
}

/// Does a component have a recurrence rule?
pub open spec fn has_rule(c: ComponentView) -> bool {
    exists|i: int| 0 <= i < c.entries.len() && is_rule(#[trigger] c.entries[i])
}

/// Is the component `i` the only one with a rule under its `SEQUENCE`?
pub open spec fn sole_rule(m: Seq<ComponentView>, i: int) -> bool {
    forall|j: int|
        0 <= j < m.len() && j != i && has_rule(#[trigger] m[j]) ==> link_sequence(m[j].entries)
            != link_sequence(m[i].entries)
}

/// The time zone that the last `TZID` of an entry names.
pub open spec fn last_tzid(params: Seq<ParamView>) -> Option<Seq<char>>
    decreases params.len(),
{
    if params.len() == 0 {
        None
    } else {
        match params.last() {
            ParamView::Tzid(_) | ParamView::OtherTzid(_) => crate::read::param_tzid(params.last()),
            _ => last_tzid(params.drop_last()),
        }
    }
}

/// Is the start of an occurrence the only date of its series at that moment? A
/// clock time that a zone skips or repeats counts as UTC, so a date east of UTC
/// could meet an earlier one there.
pub open spec fn reads_once(x: SpanView) -> bool {
    match x.zone {
        ZoneView::Utc | ZoneView::Fixed(_) => true,
        ZoneView::Floating => false,
        ZoneView::Named(s) => x.start.offset <= 0 || local_moment(
            crate::civil::at(x.start.timestamp as int, 0),
            s,
        ) is Some,
    }
}

/// Is the entry a `RECURRENCE-ID` of the override `o` for the moment at which an
/// occurrence of the series `c` starts? A date counts that carries its own
/// offset, or that is in the time zone of the series.
pub open spec fn slot_falls_on(
    c: ComponentView,
    o: ComponentView,
    e: EntryView,
    x: SpanView,
) -> bool {
    match e {
        EntryView::Known(p) => p.name == PropertyName::RecurrenceId && p.values.len() > 0
            && match p.values[0] {
            ValueView::Date(d) => (d.tz_hour is Some || zoned(c, last_tzid(p.params)) && (last_tzid(
                p.params,
            ) is None ==> zoned(o, None))) && match resolved(d, x.zone) {
                Some(t) => t.timestamp == x.start.timestamp,
                None => false,
            },
            _ => false,
        },
        EntryView::Foreign(_) => false,
    }
}

/// Do all `RECURRENCE-ID`s of a component say the same as `e`?
pub open spec fn sole_slot(c: ComponentView, e: EntryView) -> bool {
    forall|i: int|
        0 <= i < c.entries.len() && crate::model::named(
            #[trigger] c.entries[i],
            PropertyName::RecurrenceId,
        ) ==> c.entries[i] == e
}

/// Is `o` the override, without a rule of its own, for the occurrence of the
/// series `c` that starts when `x` does?
pub open spec fn stands_for(o: ComponentView, c: ComponentView, x: SpanView) -> bool {
    &&& crate::model::is_override(o)
    &&& !has_rule(o)
    &&& link_sequence(o.entries) == link_sequence(c.entries)
    &&& exists|q: int|
        0 <= q < o.entries.len() && slot_falls_on(c, o, #[trigger] o.entries[q], x) && sole_slot(
            o,
            o.entries[q],
        )
}

/// Does a component have one date under the name `n`, an instant in UTC?
pub open spec fn fixed(c: ComponentView, n: PropertyName) -> bool {
    &&& crate::read::property(c.entries, n) is Some
    &&& forall|i: int|
        0 <= i < c.entries.len() && crate::model::named(#[trigger] c.entries[i], n) ==> c.entries[i]
            == EntryView::Known(crate::read::property(c.entries, n)->0)
    &&& match crate::read::date(c, n) {
        Some(d) => d.tz_hour is Some && own_offset(d) == 0 && crate::read::wall_clock(d) is Some,
        None => false,
    }
}

/// Is this a calendar with nothing in it but an event that happens once, from
/// an instant in UTC to another?
pub open spec fn lone_event(m: Seq<ComponentView>) -> bool {
    &&& m.len() == 2
    &&& m[0].kind is Calendar
    &&& crate::read::is_event(m[1])
    &&& !crate::model::is_override(m[1])
    &&& !crate::model::is_recurrent(m[1])
    &&& fixed(m[1], PropertyName::Dtstart)
    &&& fixed(m[1], PropertyName::Dtend)
}

/// The one occurrence of an event that happens once.
pub open spec fn lone_span(m: Seq<ComponentView>) -> SpanView {
    SpanView {
        comp_id: 1,
        start: moment_at(
            crate::read::wall_clock(crate::read::date(m[1], PropertyName::Dtstart)->0)->0,
            0,
        ),
        end: moment_at(
            crate::read::wall_clock(crate::read::date(m[1], PropertyName::Dtend)->0)->0,
            0,
        ),
        zone: ZoneView::Utc,
    }
}

/// Is `spans` a way in which the expansion `e` of a calendar may come out? The
/// part with a fixed order stands in front, and behind it occurrences of
/// overrides only. What a series generates is nowhere at a date that the series
/// excludes, nor at the slot of an override that comes out beside it. A lone
/// event comes out once, at its own dates.
pub open spec fn unfolds(
    m: Seq<ComponentView>,
    e: (Seq<Option<SpanView>>, vstd::multiset::Multiset<Option<SpanView>>),
    spans: Seq<Option<SpanView>>,
) -> bool {
    &&& e.0.len() <= spans.len()
    &&& spans.take(e.0.len() as int) == e.0
    &&& spans.skip(e.0.len() as int).to_multiset() == e.1
    &&& spans_ok(m, spans)
    &&& forall|i: int|
        e.0.len() <= i < spans.len() ==> ((#[trigger] spans[i]) matches Some(x)
            ==> crate::model::is_override(m[x.comp_id as int]))
    &&& forall|i: int, q: int|
        0 <= i < spans.len() && spans[i] is Some && generates(m[spans[i]->0.comp_id as int])
            && 0 <= q < m[spans[i]->0.comp_id as int].entries.len() ==> !#[trigger] excludes(
            m[spans[i]->0.comp_id as int],
            q,
            spans[i]->0,
        )
    &&& forall|i: int, j: int|
        0 <= i < spans.len() && 0 <= j < spans.len() && spans[i] is Some && spans[j] is Some
            && generates(m[spans[i]->0.comp_id as int]) && sole_rule(
            m,
            spans[i]->0.comp_id as int,
        ) && reads_once(spans[i]->0) ==> !#[trigger] stands_for(
            m[spans[j]->0.comp_id as int],
            m[spans[i]->0.comp_id as int],
            spans[i]->0,
        )
    &&& lone_event(m) ==> spans == seq![Some(lone_span(m))]
}

/// `ICalendar::expand_dates` with UTC for clocks without a time zone, each
/// event resolved by `CalendarEvent::try_into_date_time`. How recurrence rules
/// and time zones unfold is named. What a rule generates at a date among the
/// `EXDATE`s of its component is left out. So is what it generates at the
/// `RECURRENCE-ID` of an override with the same `SEQUENCE`, which comes out in
/// its place, once, for the first rule that gets there; that is claimed where no
/// earlier date of the rule can stand at the same moment. An event that happens
/// once, alone in its calendar, comes out from its `DTSTART` to its `DTEND`,
/// which is claimed where both are instants in UTC. The expansion ends with
/// a walk over a hash map of the overrides that match no slot, so these come in
/// any order.
#[verifier::external_body]
pub(crate) fn expand(c: &ICalendar, limit: usize) -> (r: Vec<Option<Span>>)
    requires
        calendar_view(*c).len() <= u32::MAX,
    ensures
        unfolds(calendar_view(*c), expansion(calendar_view(*c), limit), span_list(r@)),
{
    c.expand_dates(Tz::UTC, limit).events.into_iter().map(|ev| ev.try_into_date_time().map(|e| Span {
        comp_id: e.comp_id,
        start: Moment { timestamp: e.start.timestamp(), offset: e.start.offset().fix().local_minus_utc() },
        end: Moment { timestamp: e.end.timestamp(), offset: e.end.offset().fix().local_minus_utc() },
        zone: match e.start.timezone() {
            Tz::Floating => Zone::Floating,
            Tz::Fixed(o) => Zone::Fixed(o.local_minus_utc()),
            Tz::Tz(chrono_tz::Tz::UTC) => Zone::Utc,
            Tz::Tz(t) => Zone::Named(t.name().to_string()),
        },
    })).collect()
}

/// `PartialDateTime::to_date_time_with_tz`: the moment of a date, at its own
/// offset or in the time zone given, if there is exactly one. At which offset
/// the clocks of a zone of the IANA database show a time is named; a zone that
/// is not known counts as UTC.
#[verifier::external_body]
pub(crate) fn resolve(d: PartialDate, zone: &Zone) -> (r: Option<Moment>)
    requires
        zone_ok(zone@),
    ensures
        r == resolved(d, zone@),
        d.tz_hour is None && crate::read::wall_clock(d) is Some ==> (zone@ matches ZoneView::Named(
            s,
        ) ==> match local_offset(crate::read::wall_clock(d)->0, s) {
            Some(n) => r == Some(moment_at(crate::read::wall_clock(d)->0, n as int)),
            None => r is None,
        }),
        r matches Some(m) ==> m.ok(),
{
    let p = PartialDateTime {
        year: d.year, month: d.month, day: d.day, hour: d.hour, minute: d.minute,
        second: d.second, tz_hour: d.tz_hour, tz_minute: d.tz_minute, tz_minus: d.tz_minus,
    };
    let tz = match zone {
        Zone::Utc => Tz::UTC,
        Zone::Floating => Tz::Floating,
        Zone::Fixed(n) => Tz::Fixed(chrono::FixedOffset::east_opt(*n).unwrap()),
        Zone::Named(s) => s.parse().unwrap_or(Tz::UTC),
    };
    p.to_date_time_with_tz(tz).map(|t| Moment { timestamp: t.timestamp(), offset: t.offset().fix().local_minus_utc() })
}

/// The calendars of a text are those of its entries that are one, in order, and
/// the first of them is the first.
pub proof fn calendars_are_the_entries_that_are_one(
    a: Seq<Option<Seq<ComponentView>>>,
    m: Seq<ComponentView>,
)
    ensures
        calendars_in(a.push(Some(m))) == calendars_in(a).push(m),
        calendars_in(a.push(None)) == calendars_in(a),
        a.len() == 0 ==> calendars_in(a).len() == 0,
{
    assert(a.push(Some(m)).drop_last() =~= a);
    assert(a.push(None).drop_last() =~= a);
}

/// A resolved date stands at its wall clock, off UTC by the offset that the date
/// itself has, to the west where it is marked so, else by that of the zone: none
/// for UTC and for a floating date, a fixed one as it is, and for a named zone the
/// one that the zone has there.
pub proof fn resolved_dates_stand_at_their_clock(d: PartialDate, zone: ZoneView, c: Civil)
    requires
        crate::read::wall_clock(d) == Some(c),
    ensures
        ({
            let r = resolved(d, zone);
            let size = d.tz_hour.unwrap_or(0) * 3600 + d.tz_minute.unwrap_or(0) * 60;
            let own = d.tz_hour is Some;
            &&& own && !d.tz_minus ==> r is Some && r->0.offset == size as i32 && r->0.timestamp == (
            c.seconds() - size) as i64
            &&& own && d.tz_minus ==> r is Some && r->0.offset == (-size) as i32
                && r->0.timestamp == (c.seconds() + size) as i64
            &&& !own && (zone is Utc || zone is Floating) ==> r is Some && r->0.offset == 0
                && r->0.timestamp == c.seconds() as i64
            &&& !own ==> (zone matches ZoneView::Fixed(n) ==> r is Some && r->0.offset == n
                && r->0.timestamp == (c.seconds() - n) as i64)
            &&& !own ==> (zone matches ZoneView::Named(s) ==> match local_offset(c, s) {
                Some(n) => r is Some && r->0.offset == n && r->0.timestamp == (c.seconds() - n) as i64,
                None => r is None,
            })
        }),
{
}

/// A date without a wall clock resolves to nothing.
pub proof fn unreadable_dates_resolve_to_nothing(d: PartialDate, zone: ZoneView)
    requires
        crate::read::wall_clock(d) is None,
    ensures
        resolved(d, zone) is None,
{
}

/// The calendar that is changed or shown is the first in its text.
pub proof fn first_calendar_is_the_first(text: Seq<char>)
    ensures
        calendars_in(text_entries(text)).len() == 0 <==> first_calendar(text) is None,
        first_calendar(text) matches Some(m) ==> m == calendars_in(text_entries(text))[0],
{
}

} // verus!
