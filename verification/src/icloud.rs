//! What is sent to the calendar server: discovery, time ranges, and the events
//! that are created or replaced.

use vstd::prelude::*;

use crate::error::{Error, ErrorView};

verus! {

/// Where iCloud serves CalDAV.
pub const ICLOUD_CALDAV_URL: &'static str = "https://caldav.icloud.com";

/// How to reach the calendar server.
pub struct IcloudConfig {
    pub base_url: String,
    pub email: String,
    pub password: String,
}

/// How to reach the calendar server, and the path of the calendar home, once it
/// is known.
pub struct Icloud {
    pub cfg: IcloudConfig,
    pub home: Option<String>,
}

/// What was learnt.
#[derive(Debug)]
pub enum Event {
    /// The home is needed.
    Begin,
    /// The server named this principal, or none.
    Principal(Option<String>),
    /// The server named these calendar homes.
    Homes(Vec<String>),
}

/// What to do next.
#[derive(Debug, PartialEq)]
pub enum Step {
    /// Ask the server for the current principal.
    FindPrincipal,
    /// Ask the server for the calendar homes of a principal.
    FindHomes(String),
    /// Go on with this calendar home.
    Home(String),
}

/// What an [`Event`] holds.
pub enum EventView {
    Begin,
    Principal(Option<Seq<char>>),
    Homes(Seq<Seq<char>>),
}

/// What a [`Step`] holds.
pub enum StepView {
    FindPrincipal,
    FindHomes(Seq<char>),
    Home(Seq<char>),
}

impl View for Event {
    type V = EventView;

    open spec fn view(&self) -> EventView {
        match self {
            Event::Begin => EventView::Begin,
            Event::Principal(p) => EventView::Principal(crate::model::text_view(*p)),
            Event::Homes(h) => EventView::Homes(crate::events::texts(h@)),
        }
    }
}

impl View for Step {
    type V = StepView;

    open spec fn view(&self) -> StepView {
        match self {
            Step::FindPrincipal => StepView::FindPrincipal,
            Step::FindHomes(p) => StepView::FindHomes(p@),
            Step::Home(h) => StepView::Home(h@),
        }
    }
}

impl View for Icloud {
    type V = Option<Seq<char>>;

    open spec fn view(&self) -> Option<Seq<char>> {
        crate::model::text_view(self.home)
    }
}

/// What a fallible step holds.
pub open spec fn step_result(r: Result<Step, Error>) -> Result<StepView, ErrorView> {
    match r {
        Ok(s) => Ok(s@),
        Err(e) => Err(e@),
    }
}

/// The next step of discovery, from what is known and what was learnt. A known
/// home is used whatever was learnt.
pub open spec fn next_step(home: Option<Seq<char>>, event: EventView) -> Result<
    StepView,
    ErrorView,
> {
    match home {
        Some(h) => Ok(StepView::Home(h)),
        None => match event {
            EventView::Begin => Ok(StepView::FindPrincipal),
            EventView::Principal(Some(p)) => Ok(StepView::FindHomes(p)),
            EventView::Principal(None) => Err(ErrorView::NoPrincipal),
            EventView::Homes(h) => if h.len() > 0 {
                Ok(StepView::Home(h[0]))
            } else {
                Err(ErrorView::NoHome)
            },
        },
    }
}

/// The home that is known after a step.
pub open spec fn known_home(home: Option<Seq<char>>, event: EventView) -> Option<Seq<char>> {
    match next_step(home, event) {
        Ok(StepView::Home(h)) => Some(h),
        _ => home,
    }
}

impl Icloud {
    /// No home is known yet.
    pub fn new(cfg: IcloudConfig) -> (r: Icloud)
        ensures
            r.cfg == cfg,
            r@ is None,
    {
        Icloud { cfg, home: None }
    }

    /// Takes one step of discovery.
    pub fn home(&mut self, event: Event) -> (r: Result<Step, Error>)
        ensures
            step_result(r) == next_step(old(self)@, event@),
            final(self)@ == known_home(old(self)@, event@),
            final(self).cfg == old(self).cfg,
    {
        if let Some(h) = &self.home {
            return Ok(Step::Home(h.clone()));
        }
        match event {
            Event::Begin => Ok(Step::FindPrincipal),
            Event::Principal(Some(p)) => Ok(Step::FindHomes(p)),
            Event::Principal(None) => Err(Error::NoPrincipal),
            Event::Homes(h) => {
                if h.len() > 0 {
                    let first = h[0].clone();
                    self.home = Some(first.clone());
                    Ok(Step::Home(first))
                } else {
                    Err(Error::NoHome)
                }
            },
        }
    }
}

/// A home that is known stays the same, and no step asks the server again.
pub proof fn discovery_happens_once(home: Seq<char>, event: EventView)
    ensures
        known_home(Some(home), event) == Some(home),
        next_step(Some(home), event) == Ok::<StepView, ErrorView>(StepView::Home(home)),
{
}

/// A step that fails leaves discovery where it was, to be tried again.
pub proof fn failed_discovery_starts_over(home: Option<Seq<char>>, event: EventView)
    requires
        next_step(home, event) is Err,
    ensures
        home is None,
        known_home(home, event) is None,
        next_step(known_home(home, event), EventView::Begin) == Ok::<StepView, ErrorView>(
            StepView::FindPrincipal,
        ),
{
}

/// An RFC 3339 timestamp in the basic UTC form of CalDAV, `YYYYMMDDTHHMMSSZ`.
pub open spec fn caldav_utc(s: Seq<char>) -> Result<Seq<char>, ErrorView> {
    match crate::civil::rfc3339(s) {
        Some(t) => Ok(crate::civil::basic_utc_text(t.utc)),
        None => Err(ErrorView::BadTimestamp(s)),
    }
}

/// Converts an RFC 3339 timestamp to the basic UTC form of CalDAV.
pub fn to_caldav_utc(s: &str) -> (r: Result<String, Error>)
    ensures
        crate::error::text_result(r) == caldav_utc(s@),
{
    match crate::civil::parse_rfc3339(s) {
        Some(t) => Ok(crate::civil::format_basic_utc(t.utc)),
        None => Err(Error::BadTimestamp(s.to_owned())),
    }
}

/// Timestamps in RFC 3339 convert, and nothing else does. In the years 0 to 9999
/// of UTC the result has 16 characters, the instants of one second have one
/// text, whatever the offset they are given at, and a later second has a text
/// that comes later, character by character.
pub proof fn caldav_utc_keeps_instants(
    s: Seq<char>,
    t: Seq<char>,
    a: crate::civil::Stamp,
    b: crate::civil::Stamp,
)
    requires
        crate::civil::rfc3339(s) == Some(a),
        crate::civil::rfc3339(t) == Some(b),
        a.utc.valid() && b.utc.valid(),
        0 <= a.utc.year <= 9999 && 0 <= b.utc.year <= 9999,
    ensures
        caldav_utc(s) is Ok && caldav_utc(t) is Ok,
        caldav_utc(s)->Ok_0.len() == 16,
        a.utc.seconds() == b.utc.seconds() && a.utc.ordinary() == b.utc.ordinary() ==> caldav_utc(
            s,
        ) == caldav_utc(t),
        a.utc.seconds() < b.utc.seconds() ==> crate::civil::text_before(
            caldav_utc(s)->Ok_0,
            caldav_utc(t)->Ok_0,
        ),
        forall|x: Seq<char>| #[trigger]
            caldav_utc(x) is Ok <==> crate::civil::rfc3339(x) is Some,
{
    crate::civil::basic_utc_has_one_form(a.utc);
    if a.utc.seconds() == b.utc.seconds() && a.utc.ordinary() == b.utc.ordinary() {
        crate::civil::same_second_has_one_text(a.utc, b.utc);
    }
    if a.utc.seconds() < b.utc.seconds() {
        crate::civil::later_second_has_later_text(a.utc, b.utc);
    }
}

/// The view of an optional `&str`.
pub open spec fn str_view(s: Option<&str>) -> Option<Seq<char>> {
    match s {
        Some(t) => Some(t@),
        None => None,
    }
}

/// One end of a time range, where it is given.
pub open spec fn range_end(s: Option<Seq<char>>) -> Result<Option<Seq<char>>, ErrorView> {
    match s {
        Some(t) => match caldav_utc(t) {
            Ok(u) => Ok(Some(u)),
            Err(e) => Err(e),
        },
        None => Ok(None),
    }
}

/// A time range in the form of CalDAV. Either end may be left open.
pub open spec fn range(start: Option<Seq<char>>, end: Option<Seq<char>>) -> Result<
    (Option<Seq<char>>, Option<Seq<char>>),
    ErrorView,
> {
    match (range_end(start), range_end(end)) {
        (Err(e), _) => Err(e),
        (_, Err(e)) => Err(e),
        (Ok(a), Ok(b)) => Ok((a, b)),
    }
}

/// Converts one end of a time range.
fn convert_end(s: Option<&str>) -> (r: Result<Option<String>, Error>)
    ensures
        match r {
            Ok(t) => range_end(str_view(s)) == Ok::<Option<Seq<char>>, ErrorView>(
                crate::model::text_view(t),
            ),
            Err(e) => range_end(str_view(s)) == Err::<Option<Seq<char>>, ErrorView>(e@),
        },
{
    match s {
        Some(t) => match to_caldav_utc(t) {
            Ok(u) => Ok(Some(u)),
            Err(e) => Err(e),
        },
        None => Ok(None),
    }
}

/// Converts a time range of RFC 3339 timestamps to the form of CalDAV.
pub fn caldav_range(start: Option<&str>, end: Option<&str>) -> (r: Result<
    (Option<String>, Option<String>),
    Error,
>)
    ensures
        match r {
            Ok(x) => range(str_view(start), str_view(end)) == Ok::<
                (Option<Seq<char>>, Option<Seq<char>>),
                ErrorView,
            >((crate::model::text_view(x.0), crate::model::text_view(x.1))),
            Err(e) => range(str_view(start), str_view(end)) == Err::<
                (Option<Seq<char>>, Option<Seq<char>>),
                ErrorView,
            >(e@),
        },
{
    let a = match convert_end(start) {
        Ok(a) => a,
        Err(e) => {
            return Err(e);
        },
    };
    match convert_end(end) {
        Ok(b) => Ok((a, b)),
        Err(e) => Err(e),
    }
}

/// How many seconds a window lasts for which no end was asked for: 30 days.
pub const DEFAULT_WINDOW: i64 = 2_592_000;

/// The last second that a window can end at.
pub const LAST_SECOND: i64 = 8_210_266_876_799;

/// The window of a listing: its ends as RFC 3339 timestamps, and in seconds
/// since the epoch.
#[derive(Debug, PartialEq)]
pub struct Window {
    pub start: String,
    pub end: String,
    pub from: i64,
    pub to: i64,
}

/// What a [`Window`] holds.
pub struct WindowView {
    pub start: Seq<char>,
    pub end: Seq<char>,
    pub from: i64,
    pub to: i64,
}

impl View for Window {
    type V = WindowView;

    open spec fn view(&self) -> WindowView {
        WindowView { start: self.start@, end: self.end@, from: self.from, to: self.to }
    }
}

/// An instant in UTC as an RFC 3339 timestamp.
pub open spec fn zulu(now: i64) -> Seq<char> {
    crate::civil::date_time_text(crate::civil::at(now as int, 0)) + seq!['Z']
}

/// One end of a window: the timestamp that was asked for, else `default`.
pub open spec fn window_end(s: Option<Seq<char>>, default: i64) -> Result<
    (Seq<char>, i64),
    ErrorView,
> {
    match s {
        Some(t) => match crate::civil::rfc3339(t) {
            Some(x) => Ok((t, x.utc.seconds() as i64)),
            None => Err(ErrorView::BadTimestamp(t)),
        },
        None => Ok((zulu(default), default)),
    }
}

/// Thirty days later, or the last second where that is beyond it.
pub open spec fn thirty_days_after(from: i64) -> i64 {
    if from + DEFAULT_WINDOW <= LAST_SECOND {
        (from + DEFAULT_WINDOW) as i64
    } else {
        LAST_SECOND
    }
}

/// The window of a listing. It starts now, and lasts for 30 days, where nothing
/// else was asked for.
pub open spec fn window(start: Option<Seq<char>>, end: Option<Seq<char>>, now: i64) -> Result<
    WindowView,
    ErrorView,
> {
    match window_end(start, now) {
        Err(e) => Err(e),
        Ok((a, from)) => match window_end(end, thirty_days_after(from)) {
            Err(e) => Err(e),
            Ok((b, to)) => Ok(WindowView { start: a, end: b, from, to }),
        },
    }
}

/// Reads one end of a window.
fn read_end(s: Option<&str>, default: i64) -> (r: Result<(String, i64), Error>)
    requires
        crate::civil::min_seconds() <= default <= crate::civil::max_seconds(),
    ensures
        match r {
            Ok(x) => window_end(str_view(s), default) == Ok::<(Seq<char>, i64), ErrorView>(
                (x.0@, x.1),
            ) && crate::civil::min_seconds() <= x.1 <= crate::civil::max_seconds(),
            Err(e) => window_end(str_view(s), default) == Err::<(Seq<char>, i64), ErrorView>(e@),
        },
{
    match s {
        Some(t) => match crate::civil::parse_rfc3339(t) {
            Some(x) => {
                proof {
                    crate::civil::lemma_seconds_in_range(x.utc);
                }
                Ok((t.to_owned(), crate::civil::timestamp_of(x.utc)))
            },
            None => Err(Error::BadTimestamp(t.to_owned())),
        },
        None => Ok((crate::civil::format_zulu(default), default)),
    }
}

/// Plans the window of a listing that is asked for at `now`.
pub fn plan_window(start: Option<&str>, end: Option<&str>, now: i64) -> (r: Result<Window, Error>)
    requires
        crate::civil::min_seconds() <= now <= crate::civil::max_seconds(),
    ensures
        match r {
            Ok(w) => window(str_view(start), str_view(end), now) == Ok::<WindowView, ErrorView>(
                w@,
            ),
            Err(e) => window(str_view(start), str_view(end), now) == Err::<WindowView, ErrorView>(
                e@,
            ),
        },
{
    proof {
        crate::civil::lemma_last_second();
    }
    let (a, from) = match read_end(start, now) {
        Ok(x) => x,
        Err(e) => {
            return Err(e);
        },
    };
    let later: i64 = if from <= LAST_SECOND - DEFAULT_WINDOW {
        from + DEFAULT_WINDOW
    } else {
        LAST_SECOND
    };
    match read_end(end, later) {
        Ok((b, to)) => Ok(Window { start: a, end: b, from, to }),
        Err(e) => Err(e),
    }
}

/// Plans the window of a listing that is asked for now.
pub fn current_window(start: Option<&str>, end: Option<&str>) -> (r: Result<Window, Error>)
    ensures
        exists|now: i64|
            crate::civil::min_seconds() <= now <= crate::civil::max_seconds() && match r {
                Ok(w) => #[trigger] window(str_view(start), str_view(end), now) == Ok::<
                    WindowView,
                    ErrorView,
                >(w@),
                Err(e) => window(str_view(start), str_view(end), now) == Err::<
                    WindowView,
                    ErrorView,
                >(e@),
            },
{
    plan_window(start, end, crate::civil::now())
}

/// A character as it stands in a text value: backslash, semicolon and comma
/// have a backslash before them, and a line break is `\n`.
pub open spec fn escaped_char(c: char) -> Seq<char> {
    if c == '\\' || c == ';' || c == ',' {
        seq!['\\', c]
    } else if c == '\n' {
        seq!['\\', 'n']
    } else {
        seq![c]
    }
}

/// A text as it stands in a text value.
pub open spec fn escaped(s: Seq<char>) -> Seq<char>
    decreases s.len(),
{
    if s.len() == 0 {
        seq![]
    } else {
        escaped_char(s[0]) + escaped(s.drop_first())
    }
}

/// The text that a text value stands for.
pub open spec fn unescaped(s: Seq<char>) -> Seq<char>
    decreases s.len(),
{
    if s.len() == 0 {
        seq![]
    } else if s[0] == '\\' && s.len() > 1 {
        seq![
            if s[1] == 'n' {
                '\n'
            } else {
                s[1]
            },
        ] + unescaped(s.skip(2))
    } else {
        seq![s[0]] + unescaped(s.drop_first())
    }
}

/// Escapes the characters that are special in a text value.
pub fn escape_ical(s: &str) -> (r: String)
    ensures
        r@ == escaped(s@),
{
    let ghost all = s@;
    let mut out: String = "".to_owned();
    let len: usize = s.unicode_len();
    let mut i: usize = 0;
    proof {
        reveal_strlit("");
        assert(out@ + escaped(all.skip(0)) =~= escaped(all)) by {
            assert(all.skip(0) =~= all);
        }
    }
    while i < len
        invariant
            0 <= i <= len,
            len == all.len(),
            all == s@,
            out@ + escaped(all.skip(i as int)) == escaped(all),
        decreases len - i,
    {
        let c: char = s.get_char(i);
        let ghost before = out@;
        proof {
            assert(all.skip(i as int)[0] == c);
            assert(all.skip(i as int).drop_first() =~= all.skip(i + 1));
        }
        if c == '\\' || c == ';' || c == ',' {
            out.push('\\');
            out.push(c);
        } else if c == '\n' {
            out.push('\\');
            out.push('n');
        } else {
            out.push(c);
        }
        proof {
            assert(out@ =~= before + escaped_char(c));
            assert(out@ + escaped(all.skip(i + 1)) =~= before + escaped(all.skip(i as int)));
        }
        i = i + 1;
    }
    proof {
        assert(all.skip(i as int) =~= seq![]);
        assert(out@ + escaped(all.skip(i as int)) =~= out@);
    }
    out
}

/// Escaping loses nothing: the text can be read back.
pub proof fn escaping_reads_back(s: Seq<char>)
    ensures
        unescaped(escaped(s)) == s,
    decreases s.len(),
{
    if s.len() > 0 {
        let rest = escaped(s.drop_first());
        let all = escaped_char(s[0]) + rest;
        escaping_reads_back(s.drop_first());
        if escaped_char(s[0]).len() == 2 {
            assert(all.skip(2) =~= rest);
        } else {
            assert(all.drop_first() =~= rest);
        }
        assert(unescaped(all) =~= seq![s[0]] + s.drop_first());
        assert(seq![s[0]] + s.drop_first() =~= s);
    }
}

/// An escaped text has no line break, so it cannot end its line.
pub proof fn escaping_keeps_the_line(s: Seq<char>)
    ensures
        !escaped(s).contains('\n'),
    decreases s.len(),
{
    if s.len() > 0 {
        let front = escaped_char(s[0]);
        let rest = escaped(s.drop_first());
        escaping_keeps_the_line(s.drop_first());
        assert forall|i: int| 0 <= i < escaped(s).len() implies escaped(s)[i] != '\n' by {
            if i >= front.len() {
                assert(escaped(s)[i] == rest[i - front.len()]);
                assert(rest.contains(rest[i - front.len()]));
            }
        }
    }
}

/// A resource under a collection: the two with one slash between them.
pub open spec fn joined(base: Seq<char>, name: Seq<char>) -> Seq<char> {
    if base.len() > 0 && base.last() == '/' {
        base + name
    } else {
        base + seq!['/'] + name
    }
}

/// Joins a collection and the name of a resource, with or without a slash at
/// the end of the collection.
pub fn join_href(base: &str, name: &str) -> (r: String)
    ensures
        r@ == joined(base@, name@),
{
    let len: usize = base.unicode_len();
    let mut out: String = base.to_owned();
    if len == 0 || base.get_char(len - 1) != '/' {
        out.push('/');
        assert(out@ =~= base@ + seq!['/']);
    }
    out.append(name);
    out
}

/// A slash at the end of the collection makes no difference.
pub proof fn trailing_slash_is_optional(base: Seq<char>, name: Seq<char>)
    requires
        base.len() == 0 || base.last() != '/',
    ensures
        joined(base, name) == joined(base.push('/'), name),
{
    assert(base.push('/').last() == '/');
    assert(base.push('/') + name =~= base + seq!['/'] + name);
}

/// A content line, with the line break behind it.
pub open spec fn line(name: Seq<char>, value: Seq<char>) -> Seq<char> {
    name + value + "\r\n"@
}

/// A content line for a text, where there is one.
pub open spec fn text_line(name: Seq<char>, s: Option<Seq<char>>) -> Seq<char> {
    match s {
        Some(t) => line(name, escaped(t)),
        None => seq![],
    }
}

/// What is asked for of an event.
pub struct EventFields {
    pub uid: Seq<char>,
    pub summary: Seq<char>,
    pub start: Seq<char>,
    pub end: Seq<char>,
    pub description: Option<Seq<char>>,
    pub location: Option<Seq<char>>,
}

/// What is asked for of an event.
pub open spec fn event_fields(
    uid: Seq<char>,
    summary: Seq<char>,
    start: Seq<char>,
    end: Seq<char>,
    description: Option<Seq<char>>,
    location: Option<Seq<char>>,
) -> EventFields {
    EventFields { uid, summary, start, end, description, location }
}

/// The text of a calendar with one event, its times given in the form of
/// CalDAV.
pub open spec fn vevent_text(
    e: EventFields,
    stamp: Seq<char>,
    start: Seq<char>,
    end: Seq<char>,
) -> Seq<char> {
    line("BEGIN:VCALENDAR"@, seq![]) + line("VERSION:2.0"@, seq![]) + line(
        "PRODID:-//mcp-icloud-calendar-rs//EN"@,
        seq![],
    ) + line("BEGIN:VEVENT"@, seq![]) + line("UID:"@, e.uid) + line("DTSTAMP:"@, stamp) + line(
        "DTSTART:"@,
        start,
    ) + line("DTEND:"@, end) + line("SUMMARY:"@, escaped(e.summary)) + text_line(
        "DESCRIPTION:"@,
        e.description,
    ) + text_line("LOCATION:"@, e.location) + line("END:VEVENT"@, seq![]) + line(
        "END:VCALENDAR"@,
        seq![],
    )
}

/// The calendar text of an event that is written at `now`.
pub open spec fn vevent(e: EventFields, now: i64) -> Result<Seq<char>, ErrorView> {
    match (caldav_utc(e.start), caldav_utc(e.end), caldav_utc(zulu(now))) {
        (Err(x), _, _) => Err(x),
        (_, Err(x), _) => Err(x),
        (_, _, Err(x)) => Err(x),
        (Ok(start), Ok(end), Ok(stamp)) => Ok(vevent_text(e, stamp, start, end)),
    }
}

/// The stamp of an event is the instant at which it is written, up to the end
/// of the year 9999.
pub proof fn stamp_is_now(now: i64)
    requires
        crate::civil::min_seconds() <= now <= crate::civil::max_seconds(),
        0 <= crate::civil::at(now as int, 0).year <= 9999,
    ensures
        caldav_utc(zulu(now)) == Ok::<Seq<char>, ErrorView>(
            crate::civil::basic_utc_text(crate::civil::at(now as int, 0)),
        ),
        crate::civil::at(now as int, 0).seconds() == now,
{
    let c = crate::civil::at(now as int, 0);
    crate::civil::lemma_at(now as int, 0);
    crate::civil::lemma_utc_reads_back(c);
    assert(crate::civil::date_time_text(c) + crate::civil::fraction_text(c) + seq!['Z'] =~= zulu(
        now,
    ));
}

/// A text split at its line breaks, each a carriage return and a line feed: the
/// lines that are complete, and what stands behind them.
pub open spec fn split_lines(s: Seq<char>) -> (Seq<Seq<char>>, Seq<char>)
    decreases s.len(),
{
    if s.len() == 0 {
        (seq![], seq![])
    } else {
        let (done, rest) = split_lines(s.drop_last());
        if s.last() == '\n' && rest.len() > 0 && rest.last() == '\r' {
            (done.push(rest.drop_last()), seq![])
        } else {
            (done, rest.push(s.last()))
        }
    }
}

/// A text without a line feed goes on with the last line.
proof fn lemma_split_goes_on(s: Seq<char>, t: Seq<char>)
    requires
        !t.contains('\n'),
    ensures
        split_lines(s + t) == (split_lines(s).0, split_lines(s).1 + t),
    decreases t.len(),
{
    if t.len() == 0 {
        assert(s + t =~= s);
        assert(split_lines(s).1 + t =~= split_lines(s).1);
    } else {
        let front = t.drop_last();
        assert(t.contains(t[t.len() - 1]));
        assert(!front.contains('\n')) by {
            if front.contains('\n') {
                let i = choose|i: int| 0 <= i < front.len() && front[i] == '\n';
                assert(t[i] == '\n');
            }
        }
        lemma_split_goes_on(s, front);
        assert((s + t).drop_last() =~= s + front);
        assert((split_lines(s).1 + front).push(t.last()) =~= split_lines(s).1 + t);
    }
}

/// A content line is split off as one line.
proof fn lemma_split_line(s: Seq<char>, name: Seq<char>, value: Seq<char>)
    requires
        split_lines(s).1 == Seq::<char>::empty(),
        !name.contains('\n'),
        !value.contains('\n'),
    ensures
        split_lines(s + line(name, value)) == (
            split_lines(s).0.push(name + value),
            Seq::<char>::empty(),
        ),
{
    reveal_strlit("\r\n");
    let body = name + value + seq!['\r'];
    assert(!body.contains('\n')) by {
        if body.contains('\n') {
            let i = choose|i: int| 0 <= i < body.len() && body[i] == '\n';
            if i < name.len() {
                assert(name[i] == '\n');
            } else if i < name.len() + value.len() {
                assert(value[i - name.len()] == '\n');
            }
        }
    }
    lemma_split_goes_on(s, body);
    assert((s + line(name, value)).drop_last() =~= s + body);
    assert(Seq::<char>::empty() + body =~= body);
    assert(body.drop_last() =~= name + value);
}

/// The line of a text, where there is one.
pub open spec fn text_lines(name: Seq<char>, s: Option<Seq<char>>) -> Seq<Seq<char>> {
    match s {
        Some(t) => seq![name + escaped(t)],
        None => seq![],
    }
}

/// A text line is split off as one line, where there is one.
proof fn lemma_split_text_line(s: Seq<char>, name: Seq<char>, t: Option<Seq<char>>)
    requires
        split_lines(s).1 == Seq::<char>::empty(),
        !name.contains('\n'),
    ensures
        split_lines(s + text_line(name, t)) == (
            split_lines(s).0 + text_lines(name, t),
            Seq::<char>::empty(),
        ),
{
    match t {
        Some(x) => {
            escaping_keeps_the_line(x);
            lemma_split_line(s, name, escaped(x));
            assert(split_lines(s).0.push(name + escaped(x)) =~= split_lines(s).0 + seq![
                name + escaped(x),
            ]);
        },
        None => {
            assert(s + text_line(name, t) =~= s);
            assert(split_lines(s).0 + text_lines(name, t) =~= split_lines(s).0);
        },
    }
}

/// The lines of a calendar with one event.
pub open spec fn vevent_lines(
    e: EventFields,
    stamp: Seq<char>,
    start: Seq<char>,
    end: Seq<char>,
) -> Seq<Seq<char>> {
    seq![
        "BEGIN:VCALENDAR"@,
        "VERSION:2.0"@,
        "PRODID:-//mcp-icloud-calendar-rs//EN"@,
        "BEGIN:VEVENT"@,
        "UID:"@ + e.uid,
        "DTSTAMP:"@ + stamp,
        "DTSTART:"@ + start,
        "DTEND:"@ + end,
        "SUMMARY:"@ + escaped(e.summary),
    ] + text_lines("DESCRIPTION:"@, e.description) + text_lines("LOCATION:"@, e.location) + seq![
        "END:VEVENT"@,
        "END:VCALENDAR"@,
    ]
}

/// The names of the content lines hold no line break.
proof fn lemma_names()
    ensures
        !"BEGIN:VCALENDAR"@.contains('\n'),
        !"VERSION:2.0"@.contains('\n'),
        !"PRODID:-//mcp-icloud-calendar-rs//EN"@.contains('\n'),
        !"BEGIN:VEVENT"@.contains('\n'),
        !"UID:"@.contains('\n'),
        !"DTSTAMP:"@.contains('\n'),
        !"DTSTART:"@.contains('\n'),
        !"DTEND:"@.contains('\n'),
        !"SUMMARY:"@.contains('\n'),
        !"DESCRIPTION:"@.contains('\n'),
        !"LOCATION:"@.contains('\n'),
        !"END:VEVENT"@.contains('\n'),
        !"END:VCALENDAR"@.contains('\n'),
{
    reveal_strlit("BEGIN:VCALENDAR");
    reveal_strlit("VERSION:2.0");
    reveal_strlit("PRODID:-//mcp-icloud-calendar-rs//EN");
    reveal_strlit("BEGIN:VEVENT");
    reveal_strlit("UID:");
    reveal_strlit("DTSTAMP:");
    reveal_strlit("DTSTART:");
    reveal_strlit("DTEND:");
    reveal_strlit("SUMMARY:");
    reveal_strlit("DESCRIPTION:");
    reveal_strlit("LOCATION:");
    reveal_strlit("END:VEVENT");
    reveal_strlit("END:VCALENDAR");
}

/// The text of an event, split at its line breaks, is the lines that it was
/// made of, and nothing behind them.
proof fn lemma_vevent_lines(e: EventFields, stamp: Seq<char>, start: Seq<char>, end: Seq<char>)
    requires
        !e.uid.contains('\n'),
        !stamp.contains('\n'),
        !start.contains('\n'),
        !end.contains('\n'),
    ensures
        split_lines(vevent_text(e, stamp, start, end)) == (
            vevent_lines(e, stamp, start, end),
            Seq::<char>::empty(),
        ),
{
    lemma_names();
    let none = Seq::<char>::empty();
    escaping_keeps_the_line(e.summary);
    let s1 = line("BEGIN:VCALENDAR"@, none);
    assert(none + s1 =~= s1);
    lemma_split_line(none, "BEGIN:VCALENDAR"@, none);
    let s2 = s1 + line("VERSION:2.0"@, none);
    lemma_split_line(s1, "VERSION:2.0"@, none);
    let s3 = s2 + line("PRODID:-//mcp-icloud-calendar-rs//EN"@, none);
    lemma_split_line(s2, "PRODID:-//mcp-icloud-calendar-rs//EN"@, none);
    let s4 = s3 + line("BEGIN:VEVENT"@, none);
    lemma_split_line(s3, "BEGIN:VEVENT"@, none);
    let s5 = s4 + line("UID:"@, e.uid);
    lemma_split_line(s4, "UID:"@, e.uid);
    let s6 = s5 + line("DTSTAMP:"@, stamp);
    lemma_split_line(s5, "DTSTAMP:"@, stamp);
    let s7 = s6 + line("DTSTART:"@, start);
    lemma_split_line(s6, "DTSTART:"@, start);
    let s8 = s7 + line("DTEND:"@, end);
    lemma_split_line(s7, "DTEND:"@, end);
    let s9 = s8 + line("SUMMARY:"@, escaped(e.summary));
    lemma_split_line(s8, "SUMMARY:"@, escaped(e.summary));
    let s10 = s9 + text_line("DESCRIPTION:"@, e.description);
    lemma_split_text_line(s9, "DESCRIPTION:"@, e.description);
    let s11 = s10 + text_line("LOCATION:"@, e.location);
    lemma_split_text_line(s10, "LOCATION:"@, e.location);
    let s12 = s11 + line("END:VEVENT"@, none);
    lemma_split_line(s11, "END:VEVENT"@, none);
    lemma_split_line(s12, "END:VCALENDAR"@, none);
    assert("BEGIN:VCALENDAR"@ + none =~= "BEGIN:VCALENDAR"@);
    assert("VERSION:2.0"@ + none =~= "VERSION:2.0"@);
    assert("PRODID:-//mcp-icloud-calendar-rs//EN"@ + none
        =~= "PRODID:-//mcp-icloud-calendar-rs//EN"@);
    assert("BEGIN:VEVENT"@ + none =~= "BEGIN:VEVENT"@);
    assert("END:VEVENT"@ + none =~= "END:VEVENT"@);
    assert("END:VCALENDAR"@ + none =~= "END:VCALENDAR"@);
    assert(split_lines(s12 + line("END:VCALENDAR"@, none)).0 =~= vevent_lines(
        e,
        stamp,
        start,
        end,
    ));
}

/// The text that a content line holds behind its name.
pub open spec fn line_text(name: Seq<char>, l: Seq<char>) -> Seq<char> {
    unescaped(l.skip(name.len() as int))
}

/// The text of an event gives back what it was written from: split at its line
/// breaks, it has the UID, the times in the form of CalDAV, and lines that,
/// unescaped, are the summary, the description and the location. A UID with a
/// line feed in it is left out: it is written as it is.
pub proof fn event_text_gives_its_fields_back(e: EventFields, now: i64)
    requires
        vevent(e, now) is Ok,
        !e.uid.contains('\n'),
    ensures
        ({
            let (lines, rest) = split_lines(vevent(e, now)->Ok_0);
            let after = if e.description is Some {
                10int
            } else {
                9
            };
            &&& rest == Seq::<char>::empty()
            &&& lines == vevent_lines(
                e,
                caldav_utc(zulu(now))->Ok_0,
                caldav_utc(e.start)->Ok_0,
                caldav_utc(e.end)->Ok_0,
            )
            &&& lines[4] == "UID:"@ + e.uid
            &&& lines[5] == "DTSTAMP:"@ + caldav_utc(zulu(now))->Ok_0
            &&& lines[6] == "DTSTART:"@ + caldav_utc(e.start)->Ok_0
            &&& lines[7] == "DTEND:"@ + caldav_utc(e.end)->Ok_0
            &&& line_text("SUMMARY:"@, lines[8]) == e.summary
            &&& e.description matches Some(d) ==> line_text("DESCRIPTION:"@, lines[9]) == d
            &&& e.location matches Some(l) ==> line_text("LOCATION:"@, lines[after]) == l
        }),
{
    let stamp = caldav_utc(zulu(now))->Ok_0;
    let start = caldav_utc(e.start)->Ok_0;
    let end = caldav_utc(e.end)->Ok_0;
    crate::civil::lemma_basic_utc_is_one_line(crate::civil::rfc3339(zulu(now))->0.utc);
    crate::civil::lemma_basic_utc_is_one_line(crate::civil::rfc3339(e.start)->0.utc);
    crate::civil::lemma_basic_utc_is_one_line(crate::civil::rfc3339(e.end)->0.utc);
    lemma_vevent_lines(e, stamp, start, end);
    lemma_line_text("SUMMARY:"@, e.summary);
    if let Some(d) = e.description {
        lemma_line_text("DESCRIPTION:"@, d);
    }
    if let Some(l) = e.location {
        lemma_line_text("LOCATION:"@, l);
    }
}

/// A text line gives its text back.
proof fn lemma_line_text(name: Seq<char>, s: Seq<char>)
    ensures
        line_text(name, name + escaped(s)) == s,
{
    escaping_reads_back(s);
    assert((name + escaped(s)).skip(name.len() as int) =~= escaped(s));
}

/// Appends a content line.
fn push_line(out: &mut String, name: &str, value: &str)
    ensures
        final(out)@ == old(out)@ + line(name@, value@),
{
    let ghost before = out@;
    out.append(name);
    out.append(value);
    out.append("\r\n");
    assert(out@ =~= before + line(name@, value@));
}

/// Appends a content line without a value.
fn push_bare(out: &mut String, name: &str)
    ensures
        final(out)@ == old(out)@ + line(name@, seq![]),
{
    let ghost before = out@;
    out.append(name);
    out.append("\r\n");
    assert(out@ =~= before + line(name@, seq![]));
}

/// Appends a content line for a text, where there is one.
fn push_text(out: &mut String, name: &str, s: Option<&str>)
    ensures
        final(out)@ == old(out)@ + text_line(name@, str_view(s)),
{
    match s {
        Some(t) => {
            let value = escape_ical(t);
            push_line(out, name, value.as_str());
        },
        None => {
            assert(out@ =~= out@ + Seq::<char>::empty());
        },
    }
}

/// Builds a minimal calendar with one event that is written at `now`.
pub fn vevent_at(
    uid: &str,
    summary: &str,
    start: &str,
    end: &str,
    description: Option<&str>,
    location: Option<&str>,
    now: i64,
) -> (r: Result<String, Error>)
    requires
        crate::civil::min_seconds() <= now <= crate::civil::max_seconds(),
    ensures
        crate::error::text_result(r) == vevent(
            event_fields(
                uid@,
                summary@,
                start@,
                end@,
                str_view(description),
                str_view(location),
            ),
            now,
        ),
{
    let dtstart = match to_caldav_utc(start) {
        Ok(s) => s,
        Err(e) => {
            return Err(e);
        },
    };
    let dtend = match to_caldav_utc(end) {
        Ok(s) => s,
        Err(e) => {
            return Err(e);
        },
    };
    let stamp = crate::civil::format_zulu(now);
    let dtstamp = match to_caldav_utc(stamp.as_str()) {
        Ok(s) => s,
        Err(e) => {
            return Err(e);
        },
    };
    let mut out: String = "".to_owned();
    proof {
        reveal_strlit("");
        assert(out@ =~= seq![]);
    }
    push_bare(&mut out, "BEGIN:VCALENDAR");
    assert(out@ =~= line("BEGIN:VCALENDAR"@, seq![]));
    push_bare(&mut out, "VERSION:2.0");
    push_bare(&mut out, "PRODID:-//mcp-icloud-calendar-rs//EN");
    push_bare(&mut out, "BEGIN:VEVENT");
    push_line(&mut out, "UID:", uid);
    push_line(&mut out, "DTSTAMP:", dtstamp.as_str());
    push_line(&mut out, "DTSTART:", dtstart.as_str());
    push_line(&mut out, "DTEND:", dtend.as_str());
    push_line(&mut out, "SUMMARY:", escape_ical(summary).as_str());
    push_text(&mut out, "DESCRIPTION:", description);
    push_text(&mut out, "LOCATION:", location);
    push_bare(&mut out, "END:VEVENT");
    push_bare(&mut out, "END:VCALENDAR");
    Ok(out)
}

/// Builds a minimal calendar with one event, stamped with the current time.
pub fn build_vevent(
    uid: &str,
    summary: &str,
    start: &str,
    end: &str,
    description: Option<&str>,
    location: Option<&str>,
) -> (r: Result<String, Error>)
    ensures
        exists|now: i64|
            crate::civil::min_seconds() <= now <= crate::civil::max_seconds()
                && crate::error::text_result(r) == #[trigger] vevent(
                event_fields(
                    uid@,
                    summary@,
                    start@,
                    end@,
                    str_view(description),
                    str_view(location),
                ),
                now,
            ),
{
    vevent_at(uid, summary, start, end, description, location, crate::civil::now())
}

/// Is this a hexadecimal digit, in lower case?
pub open spec fn is_hex(c: char) -> bool {
    '0' <= c <= '9' || 'a' <= c <= 'f'
}

/// Is this a random UUID, in its hyphenated form?
pub open spec fn is_uuid(s: Seq<char>) -> bool {
    &&& s.len() == 36
    &&& s[8] == '-' && s[13] == '-' && s[18] == '-' && s[23] == '-'
    &&& s[14] == '4'
    &&& s[19] == '8' || s[19] == '9' || s[19] == 'a' || s[19] == 'b'
    &&& forall|i: int|
        0 <= i < 36 && i != 8 && i != 13 && i != 18 && i != 23 ==> is_hex(#[trigger] s[i])
}

/// `Uuid::new_v4`, as text: chance decides which of the random UUIDs it is.
#[verifier::external_body]
fn fresh_uid() -> (r: String)
    ensures
        is_uuid(r@),
{
    uuid::Uuid::new_v4().to_string()
}

/// An event to store: its UID, where it goes, and its text.
#[derive(Debug)]
pub struct NewEvent {
    pub uid: String,
    pub href: String,
    pub ics: String,
}

/// What a [`NewEvent`] holds.
pub struct NewEventView {
    pub uid: Seq<char>,
    pub href: Seq<char>,
    pub ics: Seq<char>,
}

impl View for NewEvent {
    type V = NewEventView;

    open spec fn view(&self) -> NewEventView {
        NewEventView { uid: self.uid@, href: self.href@, ics: self.ics@ }
    }
}

/// What a fallible plan holds.
pub open spec fn plan_result(r: Result<NewEvent, Error>) -> Result<NewEventView, ErrorView> {
    match r {
        Ok(x) => Ok(x@),
        Err(e) => Err(e@),
    }
}

/// A new event that is written at `now`: it goes into the collection, under a
/// name made of its UID.
pub open spec fn event_plan(e: EventFields, calendar: Seq<char>, now: i64) -> Result<
    NewEventView,
    ErrorView,
> {
    match vevent(e, now) {
        Ok(ics) => Ok(
            NewEventView { uid: e.uid, href: joined(calendar, e.uid + ".ics"@), ics },
        ),
        Err(x) => Err(x),
    }
}

/// Plans a new event under a given UID, written at `now`.
pub fn plan_event(
    uid: String,
    calendar_href: &str,
    summary: &str,
    start: &str,
    end: &str,
    description: Option<&str>,
    location: Option<&str>,
    now: i64,
) -> (r: Result<NewEvent, Error>)
    requires
        crate::civil::min_seconds() <= now <= crate::civil::max_seconds(),
    ensures
        plan_result(r) == event_plan(
            event_fields(
                uid@,
                summary@,
                start@,
                end@,
                str_view(description),
                str_view(location),
            ),
            calendar_href@,
            now,
        ),
{
    let ics = match vevent_at(uid.as_str(), summary, start, end, description, location, now) {
        Ok(s) => s,
        Err(e) => {
            return Err(e);
        },
    };
    let mut name = uid.clone();
    name.append(".ics");
    let href = join_href(calendar_href, name.as_str());
    Ok(NewEvent { uid, href, ics })
}

/// Plans a new event under a fresh UID, stamped with the current time.
pub fn new_event(
    calendar_href: &str,
    summary: &str,
    start: &str,
    end: &str,
    description: Option<&str>,
    location: Option<&str>,
) -> (r: Result<NewEvent, Error>)
    ensures
        exists|uid: Seq<char>, now: i64|
            is_uuid(uid) && crate::civil::min_seconds() <= now <= crate::civil::max_seconds()
                && plan_result(r) == #[trigger] event_plan(
                event_fields(
                    uid,
                    summary@,
                    start@,
                    end@,
                    str_view(description),
                    str_view(location),
                ),
                calendar_href@,
                now,
            ),
{
    let uid = fresh_uid();
    let now: i64 = crate::civil::now();
    plan_event(uid, calendar_href, summary, start, end, description, location, now)
}

/// Discovery asks for the principal, then for the homes of that principal, and
/// settles on the first home that is named. What the server does not name is an
/// error.
pub proof fn discovery_settles_on_the_first_home(
    p: Seq<char>,
    homes: Seq<Seq<char>>,
    event: EventView,
)
    ensures
        next_step(None, EventView::Begin) == Ok::<StepView, ErrorView>(StepView::FindPrincipal),
        known_home(None, EventView::Begin) is None,
        next_step(None, EventView::Principal(Some(p))) == Ok::<StepView, ErrorView>(
            StepView::FindHomes(p),
        ),
        known_home(None, EventView::Principal(Some(p))) is None,
        next_step(None, EventView::Principal(None)) == Err::<StepView, ErrorView>(
            ErrorView::NoPrincipal,
        ),
        homes.len() > 0 ==> next_step(None, EventView::Homes(homes)) == Ok::<StepView, ErrorView>(
            StepView::Home(homes[0]),
        ) && known_home(None, EventView::Homes(homes)) == Some(homes[0]),
        homes.len() == 0 ==> next_step(None, EventView::Homes(homes)) == Err::<StepView, ErrorView>(
            ErrorView::NoHome,
        ),
        next_step(None, event) is Err ==> known_home(None, event) is None,
{
}

/// The CalDAV form of a timestamp shows its clock in UTC: year, month and day in
/// the first eight digits, hour, minute and second in the last six.
pub proof fn caldav_utc_shows_the_clock(s: Seq<char>, c: crate::civil::Civil)
    requires
        crate::civil::rfc3339(s) is Some,
        crate::civil::rfc3339(s)->0.utc == c,
        c.valid() && c.ordinary() && 0 <= c.year <= 9999,
    ensures
        ({
            let t = caldav_utc(s)->Ok_0;
            &&& caldav_utc(s) is Ok
            &&& t.len() == 16 && t[8] == 'T' && t[15] == 'Z'
            &&& crate::text::number(t.subrange(0, 4)) == c.year
            &&& crate::text::number(t.subrange(4, 6)) == c.month
            &&& crate::text::number(t.subrange(6, 8)) == c.day
            &&& crate::text::number(t.subrange(9, 11)) == c.hour
            &&& crate::text::number(t.subrange(11, 13)) == c.minute
            &&& crate::text::number(t.subrange(13, 15)) == c.second
        }),
{
    let t = crate::civil::basic_utc_text(c);
    crate::civil::basic_utc_has_one_form(c);
    reveal_with_fuel(crate::civil::power, 5);
    crate::civil::lemma_digits(c.year as int, 4);
    crate::civil::lemma_digits(c.month as int, 2);
    crate::civil::lemma_digits(c.day as int, 2);
    crate::civil::lemma_digits(c.hour as int, 2);
    crate::civil::lemma_digits(c.minute as int, 2);
    crate::civil::lemma_digits(c.second as int, 2);
    assert(t.subrange(0, 4) =~= crate::text::digits(c.year as int, 4));
    assert(t.subrange(4, 6) =~= crate::text::digits(c.month as int, 2));
    assert(t.subrange(6, 8) =~= crate::text::digits(c.day as int, 2));
    assert(t.subrange(9, 11) =~= crate::text::digits(c.hour as int, 2));
    assert(t.subrange(11, 13) =~= crate::text::digits(c.minute as int, 2));
    assert(t.subrange(13, 15) =~= crate::text::digits(c.second as int, 2));
}

/// Each end of a range is the conversion of the same end that was asked for,
/// and one that was left open stays open. The first end that cannot be read is
/// what a refusal is about.
pub proof fn ranges_keep_their_ends(start: Option<Seq<char>>, end: Option<Seq<char>>)
    ensures
        range(start, end) is Ok <==> (start matches Some(s) ==> crate::civil::rfc3339(s) is Some)
            && (end matches Some(e) ==> crate::civil::rfc3339(e) is Some),
        range(start, end) matches Ok(r) ==> {
            &&& start is None <==> r.0 is None
            &&& end is None <==> r.1 is None
            &&& start matches Some(s) ==> r.0 == Some(caldav_utc(s)->Ok_0)
            &&& end matches Some(e) ==> r.1 == Some(caldav_utc(e)->Ok_0)
        },
        range(start, end) matches Err(x) ==> {
            ||| start is Some && crate::civil::rfc3339(start->0) is None && x
                == ErrorView::BadTimestamp(start->0)
            ||| (start matches Some(s) ==> crate::civil::rfc3339(s) is Some) && end is Some
                && crate::civil::rfc3339(end->0) is None && x == ErrorView::BadTimestamp(end->0)
        },
{
}

/// A range that starts before it ends does so in the form of CalDAV too.
pub proof fn ranges_keep_their_order(
    start: Seq<char>,
    end: Seq<char>,
    a: crate::civil::Stamp,
    b: crate::civil::Stamp,
)
    requires
        crate::civil::rfc3339(start) == Some(a),
        crate::civil::rfc3339(end) == Some(b),
        a.utc.valid() && b.utc.valid(),
        0 <= a.utc.year <= 9999 && 0 <= b.utc.year <= 9999,
        a.utc.seconds() < b.utc.seconds(),
    ensures
        ({
            let r = range(Some(start), Some(end));
            &&& r is Ok
            &&& r->Ok_0.0 is Some && r->Ok_0.1 is Some
            &&& crate::civil::text_before(r->Ok_0.0->0, r->Ok_0.1->0)
        }),
{
    caldav_utc_keeps_instants(start, end, a, b);
}

/// A window is what was asked for: each end the instant of the timestamp that
/// was given, and that timestamp to the letter. Without a start it starts now.
/// Without an end it lasts for 30 days, up to the last second that there is. The
/// first end that cannot be read is what a refusal is about.
pub proof fn windows_are_what_was_asked_for(
    start: Option<Seq<char>>,
    end: Option<Seq<char>>,
    now: i64,
)
    requires
        crate::civil::min_seconds() <= now <= crate::civil::max_seconds(),
        start matches Some(s) ==> (crate::civil::rfc3339(s) matches Some(t) ==> t.utc.valid()),
        end matches Some(e) ==> (crate::civil::rfc3339(e) matches Some(t) ==> t.utc.valid()),
    ensures
        window(start, end, now) is Ok <==> (start matches Some(s) ==> crate::civil::rfc3339(
            s,
        ) is Some) && (end matches Some(e) ==> crate::civil::rfc3339(e) is Some),
        window(start, end, now) matches Ok(w) ==> {
            &&& start matches Some(s) ==> w.start == s && w.from == crate::civil::rfc3339(
                s,
            )->0.utc.seconds()
            &&& start is None ==> w.from == now
            &&& end matches Some(e) ==> w.end == e && w.to == crate::civil::rfc3339(
                e,
            )->0.utc.seconds()
            &&& end is None && w.from + 30 * 86400 <= crate::civil::max_seconds() ==> w.to == w.from
                + 30 * 86400
            &&& end is None && w.from + 30 * 86400 > crate::civil::max_seconds() ==> w.to
                == crate::civil::max_seconds()
        },
        window(start, end, now) matches Err(x) ==> {
            ||| start is Some && crate::civil::rfc3339(start->0) is None && x
                == ErrorView::BadTimestamp(start->0)
            ||| (start matches Some(s) ==> crate::civil::rfc3339(s) is Some) && end is Some
                && crate::civil::rfc3339(end->0) is None && x == ErrorView::BadTimestamp(end->0)
        },
{
    crate::civil::lemma_last_second();
    if let Some(s) = start {
        if let Some(t) = crate::civil::rfc3339(s) {
            crate::civil::lemma_seconds_bounded(t.utc);
            crate::civil::lemma_seconds_in_range(t.utc);
        }
    }
    if let Some(e) = end {
        if let Some(t) = crate::civil::rfc3339(e) {
            crate::civil::lemma_seconds_bounded(t.utc);
        }
    }
}

/// The texts of a window read back as its ends.
pub proof fn window_texts_are_its_ends(
    start: Option<Seq<char>>,
    end: Option<Seq<char>>,
    now: i64,
)
    requires
        crate::civil::min_seconds() <= now <= crate::civil::max_seconds(),
        start matches Some(s) ==> (crate::civil::rfc3339(s) matches Some(t) ==> t.utc.valid()),
        end matches Some(e) ==> (crate::civil::rfc3339(e) matches Some(t) ==> t.utc.valid()),
        window(start, end, now) is Ok,
        0 <= crate::civil::at(window(start, end, now)->Ok_0.from as int, 0).year <= 9999,
        0 <= crate::civil::at(window(start, end, now)->Ok_0.to as int, 0).year <= 9999,
    ensures
        ({
            let w = window(start, end, now)->Ok_0;
            &&& crate::civil::rfc3339(w.start) is Some
            &&& crate::civil::rfc3339(w.start)->0.utc.seconds() == w.from
            &&& crate::civil::rfc3339(w.end) is Some
            &&& crate::civil::rfc3339(w.end)->0.utc.seconds() == w.to
        }),
{
    let w = window(start, end, now)->Ok_0;
    windows_are_what_was_asked_for(start, end, now);
    crate::civil::lemma_last_second();
    if start is None {
        lemma_zulu_reads_back(now);
    }
    if let Some(s) = start {
        crate::civil::lemma_seconds_in_range(crate::civil::rfc3339(s)->0.utc);
    }
    if end is None {
        lemma_zulu_reads_back(w.to);
    }
}

/// An instant that was written as a timestamp reads back.
proof fn lemma_zulu_reads_back(now: i64)
    requires
        crate::civil::min_seconds() <= now <= crate::civil::max_seconds(),
        0 <= crate::civil::at(now as int, 0).year <= 9999,
    ensures
        crate::civil::rfc3339(zulu(now)) is Some,
        crate::civil::rfc3339(zulu(now))->0.utc.seconds() == now,
{
    let c = crate::civil::at(now as int, 0);
    crate::civil::lemma_at(now as int, 0);
    crate::civil::lemma_utc_reads_back(c);
    assert(crate::civil::date_time_text(c) + crate::civil::fraction_text(c) + seq!['Z'] =~= zulu(
        now,
    ));
}

/// A text is escaped character by character.
pub proof fn escaping_goes_by_character(a: Seq<char>, b: Seq<char>, c: char)
    ensures
        escaped(a + b) == escaped(a) + escaped(b),
        c == '\\' || c == ';' || c == ',' ==> escaped(seq![c]) == seq!['\\', c],
        c == '\n' ==> escaped(seq![c]) == seq!['\\', 'n'],
        c != '\\' && c != ';' && c != ',' && c != '\n' ==> escaped(seq![c]) == seq![c],
        escaped(seq![]) == Seq::<char>::empty(),
    decreases a.len(),
{
    reveal_with_fuel(escaped, 2);
    assert(seq![c].drop_first() =~= seq![]);
    assert(seq![c][0] == c);
    assert(escaped(seq![c]) =~= escaped_char(c));
    if a.len() == 0 {
        assert(a + b =~= b);
        assert(escaped(a) + escaped(b) =~= escaped(b));
    } else {
        escaping_goes_by_character(a.drop_first(), b, c);
        assert((a + b).drop_first() =~= a.drop_first() + b);
        assert((a + b)[0] == a[0]);
        assert(escaped(a + b) =~= escaped(a) + escaped(b));
    }
}

/// A resource is named in its collection behind one slash, be there one at the
/// end of the collection already or not.
pub proof fn resources_stand_behind_one_slash(base: Seq<char>, name: Seq<char>)
    ensures
        joined(base.push('/'), name) == base.push('/') + name,
        base.len() == 0 || base.last() != '/' ==> joined(base, name) == base.push('/') + name,
{
    assert(base.push('/').last() == '/');
    assert(base + seq!['/'] =~= base.push('/'));
}

/// An event can be written where its start and its end can be read, and the
/// first that cannot is what a refusal is about. The stamp can be written up to
/// the end of the year 9999.
pub proof fn events_need_times_that_can_be_read(e: EventFields, now: i64)
    requires
        crate::civil::min_seconds() <= now <= crate::civil::max_seconds(),
        0 <= crate::civil::at(now as int, 0).year <= 9999,
    ensures
        vevent(e, now) is Ok <==> crate::civil::rfc3339(e.start) is Some && crate::civil::rfc3339(
            e.end,
        ) is Some,
        vevent(e, now) matches Err(x) ==> x == ErrorView::BadTimestamp(
            if crate::civil::rfc3339(e.start) is None {
                e.start
            } else {
                e.end
            },
        ),
{
    stamp_is_now(now);
}

/// Where the lines of an event stand.
proof fn lemma_line_places(
    e: EventFields,
    stamp: Seq<char>,
    start: Seq<char>,
    end: Seq<char>,
    lines: Seq<Seq<char>>,
)
    requires
        lines == vevent_lines(e, stamp, start, end),
    ensures
        ({
            let d = if e.description is Some {
                1int
            } else {
                0
            };
            let l = if e.location is Some {
                1int
            } else {
                0
            };
            &&& lines.len() == 11 + d + l
            &&& lines[0] == "BEGIN:VCALENDAR"@
            &&& lines[1] == "VERSION:2.0"@
            &&& lines[2] == "PRODID:-//mcp-icloud-calendar-rs//EN"@
            &&& lines[3] == "BEGIN:VEVENT"@
            &&& lines[4] == "UID:"@ + e.uid
            &&& lines[5] == "DTSTAMP:"@ + stamp
            &&& lines[6] == "DTSTART:"@ + start
            &&& lines[7] == "DTEND:"@ + end
            &&& lines[8] == "SUMMARY:"@ + escaped(e.summary)
            &&& e.description matches Some(x) ==> lines[9] == "DESCRIPTION:"@ + escaped(x)
            &&& e.location matches Some(x) ==> lines[9 + d] == "LOCATION:"@ + escaped(x)
            &&& lines[9 + d + l] == "END:VEVENT"@
            &&& lines[10 + d + l] == "END:VCALENDAR"@
        }),
{
}

/// The text of an event has these lines and no others, in this order: the
/// calendar with its version and product, the event with its UID, its stamp, its
/// start and its end in the form of CalDAV, its summary, and its description and
/// location where they are given, and the ends of both.
pub proof fn event_text_has_its_lines(e: EventFields, now: i64)
    requires
        vevent(e, now) is Ok,
        !e.uid.contains('\n'),
    ensures
        ({
            let (lines, rest) = split_lines(vevent(e, now)->Ok_0);
            let d = if e.description is Some {
                1int
            } else {
                0
            };
            let l = if e.location is Some {
                1int
            } else {
                0
            };
            &&& rest.len() == 0
            &&& lines.len() == 11 + d + l
            &&& lines[0] == "BEGIN:VCALENDAR"@
            &&& lines[1] == "VERSION:2.0"@
            &&& lines[2] == "PRODID:-//mcp-icloud-calendar-rs//EN"@
            &&& lines[3] == "BEGIN:VEVENT"@
            &&& lines[4] == "UID:"@ + e.uid
            &&& lines[5] == "DTSTAMP:"@ + caldav_utc(zulu(now))->Ok_0
            &&& lines[6] == "DTSTART:"@ + caldav_utc(e.start)->Ok_0
            &&& lines[7] == "DTEND:"@ + caldav_utc(e.end)->Ok_0
            &&& lines[8] == "SUMMARY:"@ + escaped(e.summary)
            &&& e.description matches Some(x) ==> lines[9] == "DESCRIPTION:"@ + escaped(x)
            &&& e.location matches Some(x) ==> lines[9 + d] == "LOCATION:"@ + escaped(x)
            &&& lines[9 + d + l] == "END:VEVENT"@
            &&& lines[10 + d + l] == "END:VCALENDAR"@
        }),
{
    let stamp = caldav_utc(zulu(now))->Ok_0;
    let start = caldav_utc(e.start)->Ok_0;
    let end = caldav_utc(e.end)->Ok_0;
    event_text_gives_its_fields_back(e, now);
    lemma_line_places(e, stamp, start, end, split_lines(vevent(e, now)->Ok_0).0);
}

/// Lines end at a carriage return and a line feed: text without a line feed goes
/// on with its line.
pub proof fn lines_end_at_a_break(a: Seq<char>, t: Seq<char>)
    requires
        split_lines(a).1.len() == 0,
        !t.contains('\n'),
    ensures
        split_lines(seq![]).0.len() == 0 && split_lines(seq![]).1.len() == 0,
        split_lines(a + t).0 == split_lines(a).0,
        split_lines(a + t).1 == t,
        split_lines(a + t + seq!['\r', '\n']).0 == split_lines(a).0.push(t),
        split_lines(a + t + seq!['\r', '\n']).1.len() == 0,
{
    reveal_strlit("\r\n");
    let none = Seq::<char>::empty();
    assert(split_lines(a).1 =~= none);
    assert(none + t =~= t);
    lemma_split_goes_on(a, t);
    lemma_split_line(a, t, none);
    assert(t + none =~= t);
    assert(line(t, none) =~= t + seq!['\r', '\n']);
    assert(a + line(t, none) =~= a + t + seq!['\r', '\n']);
}

/// A new event is stored in its collection under its UID and `.ics`, with the
/// text of the event; it cannot be planned where it cannot be written.
pub proof fn new_events_are_stored_under_their_uid(
    e: EventFields,
    calendar: Seq<char>,
    now: i64,
)
    ensures
        event_plan(e, calendar, now) is Ok <==> vevent(e, now) is Ok,
        event_plan(e, calendar, now) matches Ok(n) ==> {
            &&& n.uid == e.uid
            &&& vevent(e, now) == Ok::<Seq<char>, ErrorView>(n.ics)
            &&& n.href == (if calendar.len() > 0 && calendar.last() == '/' {
                calendar
            } else {
                calendar.push('/')
            }) + e.uid + ".ics"@
        },
        event_plan(e, calendar, now) matches Err(x) ==> vevent(e, now) == Err::<
            Seq<char>,
            ErrorView,
        >(x),
{
    let name = e.uid + ".ics"@;
    resources_stand_behind_one_slash(calendar, name);
    if calendar.len() > 0 && calendar.last() == '/' {
        let front = calendar.drop_last();
        assert(front.push('/') =~= calendar);
        resources_stand_behind_one_slash(front, name);
        assert(calendar + e.uid + ".ics"@ =~= calendar + name);
    } else {
        assert(calendar.push('/') + e.uid + ".ics"@ =~= calendar.push('/') + name);
    }
}

/// What is asked of an event is taken over field by field.
pub proof fn event_fields_are_taken_over(
    uid: Seq<char>,
    summary: Seq<char>,
    start: Seq<char>,
    end: Seq<char>,
    description: Option<Seq<char>>,
    location: Option<Seq<char>>,
)
    ensures
        ({
            let e = event_fields(uid, summary, start, end, description, location);
            &&& e.uid == uid
            &&& e.summary == summary
            &&& e.start == start
            &&& e.end == end
            &&& e.description == description
            &&& e.location == location
        }),
{
}

} // verus!
