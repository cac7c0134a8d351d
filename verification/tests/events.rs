use chrono::{DateTime, TimeZone, Utc};
use davenport::civil::Moment;
use davenport::error::Error;
use davenport::events::{
    detail_of, expand_occurrences, list_occurrences, project_detail, OverrideInfo, Resource,
};
use davenport::ical::{import_calendar, parse_calendars, Span, Zone};
use davenport::icloud::build_vevent;
use davenport::model::Calendar;

fn window(start: &str, end: &str) -> (i64, i64) {
    (
        DateTime::parse_from_rfc3339(start).unwrap().with_timezone(&Utc).timestamp(),
        DateTime::parse_from_rfc3339(end).unwrap().with_timezone(&Utc).timestamp(),
    )
}

fn obj(ics: &str) -> Vec<(String, Option<String>, String)> {
    vec![("/cal/abc.ics".to_string(), Some("\"etag-1\"".to_string()), ics.to_string())]
}

fn calendar(ics: &str) -> Calendar {
    import_calendar(parse_calendars(ics).into_iter().next().unwrap())
}

fn span(comp_id: u32, start: i64, end: i64) -> Option<Span> {
    Some(Span {
        comp_id,
        start: Moment { timestamp: start, offset: 0 },
        end: Moment { timestamp: end, offset: 0 },
        zone: Zone::Utc,
    })
}

#[test]
fn one_off_timed_event() {
    let ics = "BEGIN:VCALENDAR\r\nVERSION:2.0\r\nBEGIN:VEVENT\r\nUID:one-off\r\n\
        DTSTART:20260610T150000Z\r\nDTEND:20260610T160000Z\r\nSUMMARY:Solo\r\n\
        END:VEVENT\r\nEND:VCALENDAR\r\n";
    let (s, e) = window("2026-06-01T00:00:00Z", "2026-06-30T00:00:00Z");
    let occ = expand_occurrences(&obj(ics), s, e);
    assert_eq!(occ.len(), 1);
    assert_eq!(occ[0].uid, "one-off");
    assert_eq!(occ[0].recurrence_id, None);
    assert!(!occ[0].recurring, "a one-off is not part of a series");
    assert!(!occ[0].all_day);
    assert_eq!(occ[0].summary, "Solo");
    assert_eq!(occ[0].master_href, "/cal/abc.ics");
    // 15:00Z must round-trip as an RFC3339 timestamp at that instant.
    let parsed = DateTime::parse_from_rfc3339(&occ[0].start).unwrap();
    assert_eq!(parsed.with_timezone(&Utc), Utc.with_ymd_and_hms(2026, 6, 10, 15, 0, 0).unwrap());
}

#[test]
fn all_day_event() {
    let ics = "BEGIN:VCALENDAR\r\nVERSION:2.0\r\nBEGIN:VEVENT\r\nUID:allday\r\n\
        DTSTART;VALUE=DATE:20260612\r\nDTEND;VALUE=DATE:20260613\r\nSUMMARY:Holiday\r\n\
        END:VEVENT\r\nEND:VCALENDAR\r\n";
    let (s, e) = window("2026-06-01T00:00:00Z", "2026-06-30T00:00:00Z");
    let occ = expand_occurrences(&obj(ics), s, e);
    assert_eq!(occ.len(), 1);
    assert!(occ[0].all_day, "DATE-valued DTSTART should be all_day");
    assert_eq!(occ[0].start, "2026-06-12");
    assert_eq!(occ[0].recurrence_id, None);
    assert!(!occ[0].recurring);
}

#[test]
fn weekly_recurrence_with_exdates() {
    // Weekly on Wednesdays from Jun 3; exclude Jun 10 and Jun 24.
    let ics = "BEGIN:VCALENDAR\r\nVERSION:2.0\r\nBEGIN:VEVENT\r\nUID:weekly\r\n\
        DTSTART:20260603T150000Z\r\nDTEND:20260603T153000Z\r\nSUMMARY:Standup\r\n\
        RRULE:FREQ=WEEKLY;COUNT=6\r\n\
        EXDATE:20260610T150000Z\r\nEXDATE:20260624T150000Z\r\n\
        END:VEVENT\r\nEND:VCALENDAR\r\n";
    let (s, e) = window("2026-06-01T00:00:00Z", "2026-07-31T00:00:00Z");
    let occ = expand_occurrences(&obj(ics), s, e);
    // COUNT=6 minus 2 EXDATEs = 4 occurrences.
    assert_eq!(occ.len(), 4, "got: {occ:#?}");
    let starts: Vec<&str> = occ.iter().map(|o| o.start.as_str()).collect();
    assert!(starts.iter().all(|s| !s.starts_with("2026-06-10")), "Jun 10 excluded");
    assert!(starts.iter().all(|s| !s.starts_with("2026-06-24")), "Jun 24 excluded");
    // Generated instances are flagged `recurring` but carry NO recurrence_id
    // (they have no RECURRENCE-ID property — only real overrides do).
    assert!(occ.iter().all(|o| o.recurring), "all are series instances");
    assert!(
        occ.iter().all(|o| o.recurrence_id.is_none()),
        "generated instances must not have a RECURRENCE-ID"
    );
    assert!(occ.iter().all(|o| o.uid == "weekly"));
}

#[test]
fn detached_recurrence_id_override() {
    // Weekly series; the Jun 10 instance is detached and retitled/moved.
    let ics = "BEGIN:VCALENDAR\r\nVERSION:2.0\r\n\
        BEGIN:VEVENT\r\nUID:series\r\nDTSTART:20260603T150000Z\r\nDTEND:20260603T153000Z\r\n\
        SUMMARY:Standup\r\nRRULE:FREQ=WEEKLY;COUNT=4\r\nEND:VEVENT\r\n\
        BEGIN:VEVENT\r\nUID:series\r\nRECURRENCE-ID:20260610T150000Z\r\n\
        DTSTART:20260610T173000Z\r\nDTEND:20260610T180000Z\r\nSUMMARY:Standup (moved)\r\n\
        END:VEVENT\r\nEND:VCALENDAR\r\n";
    let (s, e) = window("2026-06-01T00:00:00Z", "2026-07-31T00:00:00Z");
    let occ = expand_occurrences(&obj(ics), s, e);
    assert_eq!(occ.len(), 4, "4 weekly slots, one replaced by the override: {occ:#?}");
    // The override replaces the generated Jun 10 slot.
    let moved = occ.iter().find(|o| o.summary == "Standup (moved)").expect("override present");
    assert!(moved.start.starts_with("2026-06-10T17:30"), "moved to 17:30: {}", moved.start);
    // The override carries a REAL recurrence_id = the ORIGINAL slot (15:00),
    // not its new start. This is the one occurrence that should have it.
    assert!(moved.recurring);
    assert_eq!(moved.recurrence_id.as_deref(), Some("2026-06-10T15:00:00+00:00"));
    // The generated (non-override) siblings are recurring but have NO recurrence_id.
    let generated: Vec<_> = occ.iter().filter(|o| o.summary == "Standup").collect();
    assert_eq!(generated.len(), 3, "3 generated weekly slots remain");
    assert!(
        generated.iter().all(|o| o.recurring && o.recurrence_id.is_none()),
        "generated siblings: recurring=true, recurrence_id=null"
    );
    // No generated 15:00 Jun 10 occurrence remains.
    assert!(
        !occ.iter().any(|o| o.start.starts_with("2026-06-10T15:00")),
        "original Jun 10 slot must be replaced, not duplicated"
    );
}

#[test]
fn get_event_detail_default_no_raw() {
    let ics = "BEGIN:VCALENDAR\r\nVERSION:2.0\r\nBEGIN:VEVENT\r\nUID:weekly\r\n\
        DTSTART:20260603T150000Z\r\nDTEND:20260603T153000Z\r\nSUMMARY:Standup\r\n\
        DESCRIPTION:Daily sync\r\nRRULE:FREQ=WEEKLY;COUNT=6\r\nEND:VEVENT\r\nEND:VCALENDAR\r\n";
    let detail = project_detail(ics, false).unwrap();
    assert_eq!(detail.uid, "weekly");
    assert_eq!(detail.summary.as_deref(), Some("Standup"));
    assert!(detail.recurring);
    assert!(!detail.rrule.is_empty(), "rrule should be surfaced");
    assert!(detail.raw.is_none(), "raw omitted by default");
    assert!(detail.start.is_some());

    let with_raw = project_detail(ics, true).unwrap();
    assert!(with_raw.raw.is_some(), "raw included when requested");
}

const FULL: &str = "BEGIN:VCALENDAR\r\nVERSION:2.0\r\nBEGIN:VEVENT\r\nUID:full\r\n\
    DTSTART;TZID=America/New_York:20260603T090000\r\n\
    DTEND;TZID=America/New_York:20260603T093000\r\nSUMMARY:Sync\r\nDESCRIPTION:Notes\r\n\
    LOCATION:\r\nSTATUS:CONFIRMED\r\nORGANIZER:mailto:boss@example.com\r\n\
    ATTENDEE:mailto:a@example.com\r\nATTENDEE:mailto:b@example.com\r\n\
    RRULE:FREQ=WEEKLY;BYDAY=WE;COUNT=4\r\nEND:VEVENT\r\n\
    BEGIN:VEVENT\r\nUID:full\r\nRECURRENCE-ID;TZID=America/New_York:20260610T090000\r\n\
    DTSTART;TZID=America/New_York:20260610T100000\r\n\
    DTEND;TZID=America/New_York:20260610T103000\r\nSUMMARY:Late\r\nLOCATION:Room 1\r\n\
    END:VEVENT\r\nEND:VCALENDAR\r\n";

#[test]
fn detail_has_every_field() {
    let d = project_detail(FULL, true).unwrap();
    assert_eq!(d.uid, "full");
    assert_eq!(d.summary.as_deref(), Some("Sync"));
    assert_eq!(d.description.as_deref(), Some("Notes"));
    assert_eq!(d.location, None, "an empty location is left out");
    assert_eq!(d.status.as_deref(), Some("Confirmed"));
    assert_eq!(d.start.as_deref(), Some("2026-06-03T09:00:00-04:00"));
    assert_eq!(d.end.as_deref(), Some("2026-06-03T09:30:00-04:00"));
    assert!(!d.all_day);
    assert!(d.recurring);
    assert_eq!(d.rrule.len(), 1);
    assert!(d.rrule[0].starts_with("FREQ=WEEKLY"), "{}", d.rrule[0]);
    assert!(d.rrule[0].contains("BYDAY=WE"), "{}", d.rrule[0]);
    assert!(d.rrule[0].contains("COUNT=4"), "{}", d.rrule[0]);
    assert_eq!(d.organizer.as_deref(), Some("mailto:boss@example.com"));
    assert_eq!(d.attendees, vec!["mailto:a@example.com", "mailto:b@example.com"]);
    // The overrides of the detail are read in UTC.
    assert_eq!(
        d.overrides,
        vec![OverrideInfo {
            recurrence_id: Some("2026-06-10T09:00:00+00:00".to_string()),
            summary: Some("Late".to_string()),
        }]
    );
    assert_eq!(d.raw.as_deref(), Some(FULL));
}

#[test]
fn zoned_series_keeps_its_offset() {
    let (s, e) = window("2026-06-01T00:00:00Z", "2026-06-30T00:00:00Z");
    let occ = expand_occurrences(&obj(FULL), s, e);
    let starts: Vec<&str> = occ.iter().map(|o| o.start.as_str()).collect();
    assert_eq!(
        starts,
        vec![
            "2026-06-03T09:00:00-04:00",
            "2026-06-10T10:00:00-04:00",
            "2026-06-17T09:00:00-04:00",
            "2026-06-24T09:00:00-04:00",
        ]
    );
    assert_eq!(occ[0].location, None);
    assert_eq!(occ[1].location.as_deref(), Some("Room 1"));
    // The slot of an override is read in the zone of its start.
    assert_eq!(occ[1].recurrence_id.as_deref(), Some("2026-06-10T09:00:00-04:00"));
    assert_eq!(occ[1].end, "2026-06-10T10:30:00-04:00");
}

#[test]
fn window_is_half_open() {
    let ics = "BEGIN:VCALENDAR\r\nBEGIN:VEVENT\r\nUID:u\r\nDTSTART:20260610T150000Z\r\n\
        DTEND:20260610T160000Z\r\nEND:VEVENT\r\nEND:VCALENDAR\r\n";
    let (start, end) = window("2026-06-10T15:00:00Z", "2026-06-10T16:00:00Z");
    let count = |from: i64, to: i64| expand_occurrences(&obj(ics), from, to).len();
    assert_eq!(count(start, end), 1);
    assert_eq!(count(start - 3600, start), 0, "starts as the window ends");
    assert_eq!(count(start - 3600, start + 1), 1);
    assert_eq!(count(end, end + 3600), 0, "ends as the window starts");
    assert_eq!(count(end - 1, end + 3600), 1);
}

#[test]
fn several_objects_are_sorted_by_start() {
    let one = |uid: &str, day: &str| {
        format!(
            "BEGIN:VCALENDAR\r\nBEGIN:VEVENT\r\nUID:{uid}\r\nDTSTART:202606{day}T150000Z\r\n\
             DTEND:202606{day}T160000Z\r\nEND:VEVENT\r\nEND:VCALENDAR\r\n"
        )
    };
    let objects = vec![
        ("/c/1".to_string(), None, one("late", "20")),
        ("/c/2".to_string(), Some("e2".to_string()), one("early", "05")),
        ("/c/3".to_string(), None, one("late-too", "20")),
        ("/c/4".to_string(), None, one("middle", "12")),
        ("/c/5".to_string(), None, "no calendar here".to_string()),
    ];
    let (s, e) = window("2026-06-01T00:00:00Z", "2026-06-30T00:00:00Z");
    let occ = expand_occurrences(&objects, s, e);
    let uids: Vec<&str> = occ.iter().map(|o| o.uid.as_str()).collect();
    assert_eq!(uids, vec!["early", "middle", "late", "late-too"]);
    assert_eq!(occ[0].master_href, "/c/2");
    assert_eq!(occ[0].master_etag.as_deref(), Some("e2"));
    assert_eq!(occ[1].master_etag, None);
}

#[test]
fn given_spans_are_filtered_and_sorted() {
    let ics = "BEGIN:VCALENDAR\r\nBEGIN:VEVENT\r\nUID:u\r\nDTSTART:20260610T150000Z\r\n\
        SUMMARY:x\r\nEND:VEVENT\r\nEND:VCALENDAR\r\n";
    let resource = Resource {
        href: "/h".to_string(),
        etag: None,
        calendar: calendar(ics),
        spans: vec![
            span(1, 7200, 7300),
            None,
            span(1, 3600, 3700),
            span(1, 0, 1800),
            span(0, 3600, 3800),
            span(1, 9000, 9100),
        ],
    };
    let occ = list_occurrences(&vec![resource], 1800, 9000);
    let seen: Vec<(&str, &str)> = occ.iter().map(|o| (o.start.as_str(), o.uid.as_str())).collect();
    assert_eq!(
        seen,
        vec![
            ("1970-01-01T01:00:00+00:00", "u"),
            ("1970-01-01T01:00:00+00:00", ""),
            ("1970-01-01T02:00:00+00:00", "u"),
        ]
    );
}

#[test]
fn detail_takes_the_first_of_the_earliest() {
    let cal = calendar(FULL);
    // Component 1 is the master, component 2 its override.
    let spans = vec![span(2, 10, 20), None, span(1, 60, 70), span(1, 50, 55), span(1, 50, 90)];
    let d = detail_of(&cal, &spans, FULL, false).unwrap();
    assert_eq!(d.start.as_deref(), Some("1970-01-01T00:00:50+00:00"));
    assert_eq!(d.end.as_deref(), Some("1970-01-01T00:00:55+00:00"));
    let none = detail_of(&cal, &vec![span(2, 10, 20)], FULL, false).unwrap();
    assert_eq!(none.start, None);
    assert_eq!(none.end, None);
}

#[test]
fn detail_errors() {
    assert!(matches!(project_detail("", false), Err(Error::NoCalendar)));
    let empty = "BEGIN:VCALENDAR\r\nVERSION:2.0\r\nEND:VCALENDAR\r\n";
    assert!(matches!(project_detail(empty, true), Err(Error::NoEvent)));
    assert_eq!(Error::NoCalendar.message(), "resource contained no VCALENDAR");
    assert_eq!(Error::NoEvent.message(), "resource contained no VEVENT");
}

#[test]
fn override_stands_in_for_a_missing_master() {
    let ics = "BEGIN:VCALENDAR\r\nBEGIN:VEVENT\r\nUID:o\r\nRECURRENCE-ID:20260610T150000Z\r\n\
        DTSTART:20260610T170000Z\r\nDTEND:20260610T173000Z\r\nSUMMARY:Only\r\n\
        END:VEVENT\r\nEND:VCALENDAR\r\n";
    let d = project_detail(ics, false).unwrap();
    assert_eq!(d.summary.as_deref(), Some("Only"));
    assert!(!d.recurring);
    assert_eq!(d.start, None, "overrides do not date the series");
    assert_eq!(d.overrides.len(), 1);
    // An override that matches no slot is still listed.
    let (s, e) = window("2026-06-01T00:00:00Z", "2026-06-30T00:00:00Z");
    let occ = expand_occurrences(&obj(ics), s, e);
    assert_eq!(occ.len(), 1);
    assert!(occ[0].recurring);
    assert_eq!(occ[0].recurrence_id.as_deref(), Some("2026-06-10T15:00:00+00:00"));
}

#[test]
fn all_day_slots_are_dates() {
    let ics = "BEGIN:VCALENDAR\r\nBEGIN:VEVENT\r\nUID:d\r\nDTSTART;VALUE=DATE:20260601\r\n\
        DTEND;VALUE=DATE:20260602\r\nRRULE:FREQ=DAILY;COUNT=3\r\nEND:VEVENT\r\n\
        BEGIN:VEVENT\r\nUID:d\r\nRECURRENCE-ID;VALUE=DATE:20260602\r\n\
        DTSTART;VALUE=DATE:20260605\r\nDTEND;VALUE=DATE:20260606\r\nSUMMARY:Moved\r\n\
        END:VEVENT\r\nEND:VCALENDAR\r\n";
    let (s, e) = window("2026-05-01T00:00:00Z", "2026-07-01T00:00:00Z");
    let occ = expand_occurrences(&obj(ics), s, e);
    let seen: Vec<(&str, Option<&str>)> =
        occ.iter().map(|o| (o.start.as_str(), o.recurrence_id.as_deref())).collect();
    assert_eq!(
        seen,
        vec![("2026-06-01", None), ("2026-06-03", None), ("2026-06-05", Some("2026-06-02"))]
    );
}

#[test]
fn batches_list_together_in_any_order() {
    let day = |uid: &str, day: &str| {
        format!(
            "BEGIN:VCALENDAR\r\nBEGIN:VEVENT\r\nUID:{uid}\r\nDTSTART:202606{day}T150000Z\r\n\
             DTEND:202606{day}T160000Z\r\nEND:VEVENT\r\nEND:VCALENDAR\r\n"
        )
    };
    let objects = |uids: &[(&str, &str)]| -> Vec<(String, Option<String>, String)> {
        uids.iter().map(|(u, d)| (format!("/c/{u}"), None, day(u, d))).collect()
    };
    let (s, e) = window("2026-06-01T00:00:00Z", "2026-06-30T00:00:00Z");
    let list = |objects: &Vec<(String, Option<String>, String)>| -> Vec<String> {
        let mut uids: Vec<String> =
            expand_occurrences(objects, s, e).into_iter().map(|o| o.uid).collect();
        uids.sort();
        uids
    };
    let a = objects(&[("a", "10"), ("b", "05"), ("b", "05")]);
    let b = objects(&[("c", "20"), ("d", "10")]);
    let all: Vec<_> = a.iter().chain(b.iter()).cloned().collect();
    let mut apart = list(&a);
    apart.extend(list(&b));
    assert_eq!(list(&all), apart);
    let backwards: Vec<_> = all.iter().rev().cloned().collect();
    assert_eq!(list(&backwards), list(&all));
    // The occurrences of one start keep the order of the objects.
    let order: Vec<String> =
        expand_occurrences(&backwards, s, e).into_iter().map(|o| o.uid).collect();
    assert_eq!(order, vec!["b", "b", "d", "a", "c"]);
    // An object without a calendar adds nothing.
    let mut more = all.clone();
    more.insert(2, ("/c/x".to_string(), None, "BEGIN:VCARD\r\nFN:X\r\nEND:VCARD\r\n".to_string()));
    more.insert(0, ("/c/y".to_string(), None, String::new()));
    assert_eq!(expand_occurrences(&more, s, e), expand_occurrences(&all, s, e));
}

#[test]
fn overrides_need_the_sequence_of_their_series() {
    let series = |number: &str| {
        format!(
            "BEGIN:VCALENDAR\r\nBEGIN:VEVENT\r\nUID:s\r\nSEQUENCE:2\r\nDTSTART:20260603T150000Z\r\n\
             RRULE:FREQ=WEEKLY;COUNT=4\r\nEND:VEVENT\r\nBEGIN:VEVENT\r\nUID:s\r\n{number}\
             RECURRENCE-ID:20260610T150000Z\r\nDTSTART:20260610T170000Z\r\nEND:VEVENT\r\n\
             END:VCALENDAR\r\n"
        )
    };
    let (s, e) = window("2026-06-01T00:00:00Z", "2026-06-30T00:00:00Z");
    let starts = |ics: &str| -> Vec<String> {
        expand_occurrences(&obj(ics), s, e).into_iter().map(|o| o.start).collect()
    };
    let linked = starts(&series("SEQUENCE:2\r\n"));
    assert_eq!(linked.len(), 4);
    assert!(!linked.contains(&"2026-06-10T15:00:00+00:00".to_string()));
    // Under another number both come out.
    assert_eq!(starts(&series("SEQUENCE:1\r\n")).len(), 5);
    assert_eq!(starts(&series("")).len(), 5);
}

#[test]
fn excluded_dates_are_read_in_their_zone() {
    let series = |exdate: &str| {
        format!(
            "BEGIN:VCALENDAR\r\nBEGIN:VEVENT\r\nUID:s\r\n\
             DTSTART;TZID=America/New_York:20260603T090000\r\nRRULE:FREQ=WEEKLY;COUNT=4\r\n\
             {exdate}\r\nEND:VEVENT\r\nEND:VCALENDAR\r\n"
        )
    };
    let (s, e) = window("2026-06-01T00:00:00Z", "2026-06-30T00:00:00Z");
    let count = |exdate: &str| expand_occurrences(&obj(&series(exdate)), s, e).len();
    assert_eq!(count("EXDATE;TZID=America/New_York:20260610T090000"), 3);
    assert_eq!(count("EXDATE:20260610T130000Z"), 3);
    assert_eq!(count("EXDATE;TZID=Europe/Berlin:20260610T150000"), 3);
    assert_eq!(count("EXDATE;TZID=Europe/Berlin:20260610T090000"), 4);
}

#[test]
fn built_event_projects_back() {
    let cases = [
        ("u1", "Lunch", Some("with A; B, and C\\D"), Some("Cafe\nRoom 2")),
        ("a;b,c", "  blanks around  ", Some("\\n is no \n"), Some("\"quoted\": x=1")),
        ("0123456789abcdef", "\u{fc}\u{1f600},;\\", None, None),
        ("u", "", Some(""), Some("")),
        ("", "\t\u{7f}\u{1}", Some("BEGIN:VEVENT\nEND:VCALENDAR\n"), Some(" ")),
    ];
    let filled = |s: &str| if s.is_empty() { None } else { Some(s.to_string()) };
    for (uid, summary, description, location) in cases {
        let (start, end) = ("2026-06-10T23:30:00.75-04:00", "2026-06-11T06:15:00+02:00");
        let ics = build_vevent(uid, summary, start, end, description, location).unwrap();
        let d = project_detail(&ics, false).unwrap();
        assert_eq!(d.uid, uid);
        assert_eq!(d.summary, filled(summary));
        assert_eq!(d.description, description.and_then(filled));
        assert_eq!(d.location, location.and_then(filled));
        assert_eq!(d.start.as_deref(), Some("2026-06-11T03:30:00+00:00"));
        assert_eq!(d.end.as_deref(), Some("2026-06-11T04:15:00+00:00"));
        assert!(!d.all_day && !d.recurring);
        assert!(d.rrule.is_empty() && d.attendees.is_empty() && d.overrides.is_empty());
        assert_eq!((d.status, d.organizer, d.raw), (None, None, None));
        // It is listed once, where it overlaps the window.
        let (s, e) = window("2026-06-11T04:14:59Z", "2026-06-12T00:00:00Z");
        let occ = expand_occurrences(&obj(&ics), s, e);
        assert_eq!(occ.len(), 1);
        assert_eq!((occ[0].uid.as_str(), occ[0].summary.as_str()), (uid, summary));
        assert_eq!(occ[0].start, "2026-06-11T03:30:00+00:00");
        assert_eq!(occ[0].end, "2026-06-11T04:15:00+00:00");
        assert_eq!(occ[0].location, location.and_then(filled));
        assert!(!occ[0].recurring && occ[0].recurrence_id.is_none());
        let (s, e) = window("2026-06-11T04:15:00Z", "2026-06-12T00:00:00Z");
        assert!(expand_occurrences(&obj(&ics), s, e).is_empty());
    }
    // The first and the last year that can be written, and an end before the start.
    for (start, end) in [
        ("0000-01-01T00:00:00Z", "9999-12-31T23:59:59Z"),
        ("2026-06-10T15:00:00Z", "2026-06-10T14:00:00Z"),
    ] {
        let ics = build_vevent("u", "s", start, end, None, None).unwrap();
        let d = project_detail(&ics, true).unwrap();
        assert_eq!(d.start.unwrap(), start.replace('Z', "+00:00"));
        assert_eq!(d.end.unwrap(), end.replace('Z', "+00:00"));
        assert_eq!(d.raw, Some(ics));
    }
}

#[test]
fn listing_twice_gives_the_same() {
    // Overrides that match no slot come in any order.
    let mut ics = String::from("BEGIN:VCALENDAR\r\n");
    for day in 10..28 {
        ics += &format!(
            "BEGIN:VEVENT\r\nUID:o{day}\r\nRECURRENCE-ID:202606{day}T150000Z\r\n\
             DTSTART:20260610T170000Z\r\nDTEND:20260610T173000Z\r\nEND:VEVENT\r\n"
        );
    }
    ics += "END:VCALENDAR\r\n";
    let (s, e) = window("2026-06-01T00:00:00Z", "2026-06-30T00:00:00Z");
    let list = || -> Vec<String> {
        let mut uids: Vec<String> =
            expand_occurrences(&obj(&ics), s, e).into_iter().map(|o| o.uid).collect();
        uids.sort();
        uids
    };
    assert_eq!(list().len(), 18);
    assert_eq!(list(), list());
}
