use calcard::icalendar::{ICalendarParameterName, ICalendarParameterValue};
use chrono::{DateTime, Utc};
use davenport::error::Error;
use davenport::events::{expand_occurrences, Occurrence};
use davenport::ical::{export_calendar, import_calendar, parse_calendars};
use davenport::model::{Calendar, ComponentKind, Entry, Param, PropertyName, Value};
use davenport::write::{
    apply_instance_delete, apply_instance_update, build_value, derive_end, exclude_slot,
    master_duration, master_style, parse_timed, try_instance_delete, try_instance_update,
    update_calendar, DateStyle, InstanceFields,
};

const WEEKLY: &str = "BEGIN:VCALENDAR\r\nVERSION:2.0\r\nBEGIN:VEVENT\r\nUID:series\r\n\
    DTSTART:20260603T150000Z\r\nDTEND:20260603T153000Z\r\nSUMMARY:Standup\r\n\
    RRULE:FREQ=WEEKLY;COUNT=4\r\nEND:VEVENT\r\nEND:VCALENDAR\r\n";

fn occ(ics: &str) -> Vec<Occurrence> {
    let objs = vec![("/c/x.ics".to_string(), Some("\"e\"".to_string()), ics.to_string())];
    let s = DateTime::parse_from_rfc3339("2026-06-01T00:00:00Z").unwrap().with_timezone(&Utc);
    let e = DateTime::parse_from_rfc3339("2026-07-15T00:00:00Z").unwrap().with_timezone(&Utc);
    expand_occurrences(&objs, s.timestamp(), e.timestamp())
}

fn calendar(ics: &str) -> Calendar {
    import_calendar(parse_calendars(ics).into_iter().next().unwrap())
}

/// The text of a calendar, with its `DTSTAMP` lines left out.
fn body(ics: &str) -> String {
    ics.lines().filter(|l| !l.starts_with("DTSTAMP")).collect::<Vec<_>>().join("\n")
}

#[test]
fn update_generated_instance_creates_override() {
    // Move the Jun 10 15:00Z occurrence to 17:30Z and retitle it.
    let fields = InstanceFields {
        summary: Some("Standup (moved)".into()),
        start: Some("2026-06-10T17:30:00Z".into()),
        end: Some("2026-06-10T18:00:00Z".into()),
        ..Default::default()
    };
    let new_ics = apply_instance_update(WEEKLY, "2026-06-10T15:00:00Z", &fields).unwrap();
    let occ = occ(&new_ics);
    assert_eq!(occ.len(), 4, "still 4 slots, one overridden: {occ:#?}");
    let moved = occ.iter().find(|o| o.summary == "Standup (moved)").expect("override present");
    assert!(moved.start.starts_with("2026-06-10T17:30"), "moved: {}", moved.start);
    assert!(moved.recurrence_id.is_some(), "override carries a real RECURRENCE-ID");
    assert!(
        !occ.iter().any(|o| o.start.starts_with("2026-06-10T15:00")),
        "old slot replaced, not duplicated"
    );
    // Other instances untouched.
    assert!(occ.iter().any(|o| o.start.starts_with("2026-06-03T15:00") && o.summary == "Standup"));
}

#[test]
fn second_update_modifies_same_override_in_place() {
    let f1 = InstanceFields {
        summary: Some("v1".into()),
        start: Some("2026-06-10T17:30:00Z".into()),
        end: Some("2026-06-10T18:00:00Z".into()),
        ..Default::default()
    };
    let ics1 = apply_instance_update(WEEKLY, "2026-06-10T15:00:00Z", &f1).unwrap();
    let f2 = InstanceFields { summary: Some("v2".into()), ..Default::default() };
    let ics2 = apply_instance_update(&ics1, "2026-06-10T15:00:00Z", &f2).unwrap();
    // Exactly one VEVENT carries RECURRENCE-ID — we updated, didn't add a second.
    let n_overrides = ics2.matches("RECURRENCE-ID").count();
    assert_eq!(n_overrides, 1, "must reuse the existing override\n{ics2}");
    let occ = occ(&ics2);
    assert!(occ.iter().any(|o| o.summary == "v2"));
    assert!(!occ.iter().any(|o| o.summary == "v1"));
}

#[test]
fn delete_instance_adds_exdate() {
    let new_ics = apply_instance_delete(WEEKLY, "2026-06-10T15:00:00Z").unwrap();
    assert!(new_ics.contains("EXDATE"), "EXDATE added:\n{new_ics}");
    let occ = occ(&new_ics);
    assert_eq!(occ.len(), 3, "one slot removed: {occ:#?}");
    assert!(!occ.iter().any(|o| o.start.starts_with("2026-06-10")), "Jun 10 gone");
    // The rest remain.
    assert!(occ.iter().any(|o| o.start.starts_with("2026-06-03")));
    assert!(occ.iter().any(|o| o.start.starts_with("2026-06-17")));
}

#[test]
fn delete_then_override_gone_too() {
    // First create an override on Jun 10, then delete that occurrence.
    let f = InstanceFields {
        summary: Some("moved".into()),
        start: Some("2026-06-10T17:30:00Z".into()),
        end: Some("2026-06-10T18:00:00Z".into()),
        ..Default::default()
    };
    let ics1 = apply_instance_update(WEEKLY, "2026-06-10T15:00:00Z", &f).unwrap();
    let ics2 = apply_instance_delete(&ics1, "2026-06-10T15:00:00Z").unwrap();
    let occ = occ(&ics2);
    assert_eq!(occ.len(), 3, "deleted occurrence (incl. its override) gone");
    assert!(!occ.iter().any(|o| o.start.starts_with("2026-06-10")));
    assert!(!occ.iter().any(|o| o.summary == "moved"));
}

#[test]
fn tzid_series_writes_exdate_with_tzid() {
    // A TZID-anchored weekly series: EXDATE must carry the same TZID.
    let ics = "BEGIN:VCALENDAR\r\nVERSION:2.0\r\nBEGIN:VEVENT\r\nUID:tz\r\n\
        DTSTART;TZID=America/New_York:20260603T090000\r\nDTEND;TZID=America/New_York:20260603T093000\r\n\
        SUMMARY:Sync\r\nRRULE:FREQ=WEEKLY;COUNT=4\r\nEND:VEVENT\r\nEND:VCALENDAR\r\n";
    // Slot exposed to the agent would be 09:00-04:00 (EDT).
    let new_ics = apply_instance_delete(ics, "2026-06-10T09:00:00-04:00").unwrap();
    assert!(
        new_ics.contains("EXDATE;TZID=America/New_York:20260610T090000"),
        "EXDATE must mirror the master TZID/wall-clock:\n{new_ics}"
    );
}

#[test]
fn update_leaves_the_master_alone() {
    let fields = InstanceFields { location: Some("Room 2".into()), ..Default::default() };
    let new_ics = apply_instance_update(WEEKLY, "2026-06-10T15:00:00Z", &fields).unwrap();
    let expected = "BEGIN:VCALENDAR\nVERSION:2.0\nBEGIN:VEVENT\nUID:series\n\
        DTSTART:20260603T150000Z\nDTEND:20260603T153000Z\nSUMMARY:Standup\n\
        RRULE:FREQ=WEEKLY;COUNT=4\nEND:VEVENT\nBEGIN:VEVENT\nUID:series\n\
        RECURRENCE-ID:20260610T150000Z\nDTSTART:20260610T150000Z\nDTEND:20260610T153000Z\n\
        SUMMARY:Standup\nLOCATION:Room 2\nEND:VEVENT\nEND:VCALENDAR";
    assert_eq!(body(&new_ics), expected);
    let stamps: Vec<&str> = new_ics.lines().filter(|l| l.starts_with("DTSTAMP:")).collect();
    assert_eq!(stamps.len(), 1);
    assert_eq!(stamps[0].len(), "DTSTAMP:20260610T150000Z".len());
    assert!(stamps[0].ends_with('Z'));
}

#[test]
fn override_copies_sequence_and_texts() {
    let ics = "BEGIN:VCALENDAR\r\nBEGIN:VEVENT\r\nUID:s\r\nSEQUENCE:7\r\n\
        DTSTART:20260603T150000Z\r\nDTEND:20260603T153000Z\r\nSUMMARY:A\r\nDESCRIPTION:B\r\n\
        LOCATION:C\r\nRRULE:FREQ=WEEKLY;COUNT=4\r\nEND:VEVENT\r\nEND:VCALENDAR\r\n";
    let fields = InstanceFields { description: Some("new".into()), ..Default::default() };
    let out = apply_instance_update(ics, "2026-06-10T15:00:00Z", &fields).unwrap();
    let tail = out.split("BEGIN:VEVENT").nth(2).unwrap();
    assert!(tail.contains("SEQUENCE:7"), "{out}");
    assert!(tail.contains("SUMMARY:A"), "{out}");
    assert!(tail.contains("DESCRIPTION:new"), "{out}");
    assert!(tail.contains("LOCATION:C"), "{out}");
    assert!(!tail.contains("RRULE"), "{out}");
}

#[test]
fn moving_the_start_keeps_the_duration() {
    let fields = InstanceFields { start: Some("2026-06-10T23:45:00+02:00".into()), ..Default::default() };
    let out = apply_instance_update(WEEKLY, "2026-06-10T15:00:00Z", &fields).unwrap();
    assert!(out.contains("DTSTART:20260610T214500Z"), "{out}");
    assert!(out.contains("DTEND:20260610T221500Z"), "{out}");
}

#[test]
fn fractions_and_leap_seconds_are_read() {
    let fields = InstanceFields { start: Some("2026-06-10T16:00:00.250Z".into()), ..Default::default() };
    let out = apply_instance_update(WEEKLY, "2026-06-10T15:00:00Z", &fields).unwrap();
    assert!(out.contains("DTSTART:20260610T160000Z"), "{out}");
    assert!(out.contains("DTEND:20260610T163000Z"), "{out}");
    let leap = InstanceFields { start: Some("2026-06-10T16:59:60Z".into()), ..Default::default() };
    let out = apply_instance_update(WEEKLY, "2026-06-10T15:00:00Z", &leap).unwrap();
    assert!(out.contains("DTSTART:20260610T165959Z"), "{out}");
    assert!(out.contains("DTEND:20260610T172959Z"), "{out}");
}

const ALL_DAY: &str = "BEGIN:VCALENDAR\r\nBEGIN:VEVENT\r\nUID:d\r\n\
    DTSTART;VALUE=DATE:20260601\r\nDTEND;VALUE=DATE:20260603\r\nSUMMARY:Trip\r\n\
    RRULE:FREQ=WEEKLY;COUNT=3\r\nEND:VEVENT\r\nEND:VCALENDAR\r\n";

#[test]
fn all_day_series_is_written_in_dates() {
    let out = apply_instance_delete(ALL_DAY, "2026-06-08").unwrap();
    assert!(out.contains("EXDATE;VALUE=DATE:20260608\r\n"), "{out}");
    assert_eq!(occ(&out).len(), 2);
    // Only the first ten bytes of the value count, and the end is two days on.
    let fields = InstanceFields { start: Some("2026-06-30T12:00:00Z".into()), ..Default::default() };
    let out = apply_instance_update(ALL_DAY, "2026-06-08", &fields).unwrap();
    assert!(out.contains("RECURRENCE-ID;VALUE=DATE:20260608\r\n"), "{out}");
    assert!(out.contains("DTSTART;VALUE=DATE:20260630\r\n"), "{out}");
    assert!(out.contains("DTEND;VALUE=DATE:20260702\r\n"), "{out}");
    assert_eq!(occ(&out).len(), 3);
}

#[test]
fn all_day_without_an_end_lasts_a_day() {
    let ics = "BEGIN:VCALENDAR\r\nBEGIN:VEVENT\r\nUID:d\r\nDTSTART;VALUE=DATE:20240227\r\n\
        RRULE:FREQ=DAILY;COUNT=3\r\nEND:VEVENT\r\nEND:VCALENDAR\r\n";
    let out = apply_instance_update(ics, "2024-02-28", &InstanceFields::default()).unwrap();
    assert!(out.contains("DTSTART;VALUE=DATE:20240228\r\n"), "{out}");
    assert!(out.contains("DTEND;VALUE=DATE:20240229\r\n"), "{out}");
}

#[test]
fn floating_series_stays_floating() {
    let ics = "BEGIN:VCALENDAR\r\nBEGIN:VEVENT\r\nUID:f\r\nDTSTART:20260603T090000\r\n\
        DTEND:20260603T100000\r\nRRULE:FREQ=WEEKLY;COUNT=4\r\nEND:VEVENT\r\nEND:VCALENDAR\r\n";
    let out = apply_instance_delete(ics, "2026-06-10T09:00:00").unwrap();
    assert!(out.contains("EXDATE:20260610T090000\r\n"), "{out}");
    // Of a timestamp with an offset the clock that it shows is kept.
    let fields = InstanceFields { start: Some("2026-06-10T11:00:00-04:00".into()), ..Default::default() };
    let out = apply_instance_update(ics, "2026-06-10T09:00:00", &fields).unwrap();
    assert!(out.contains("DTSTART:20260610T110000\r\n"), "{out}");
    assert!(out.contains("DTEND:20260610T120000\r\n"), "{out}");
}

#[test]
fn tzid_series_writes_overrides_with_tzid() {
    let ics = "BEGIN:VCALENDAR\r\nBEGIN:VEVENT\r\nUID:tz\r\n\
        DTSTART;TZID=America/New_York:20260603T090000\r\n\
        DTEND;TZID=America/New_York:20260603T093000\r\nRRULE:FREQ=WEEKLY;COUNT=4\r\n\
        END:VEVENT\r\nEND:VCALENDAR\r\n";
    let fields = InstanceFields { start: Some("2026-06-10T12:00:00".into()), ..Default::default() };
    let out = apply_instance_update(ics, "2026-06-10T09:00:00-04:00", &fields).unwrap();
    assert!(out.contains("RECURRENCE-ID;TZID=America/New_York:20260610T090000\r\n"), "{out}");
    assert!(out.contains("DTSTART;TZID=America/New_York:20260610T120000\r\n"), "{out}");
    assert!(out.contains("DTEND;TZID=America/New_York:20260610T123000\r\n"), "{out}");
}

#[test]
fn write_errors() {
    let none = InstanceFields::default();
    let slot = "2026-06-10T15:00:00Z";
    assert!(matches!(apply_instance_update("", slot, &none), Err(Error::NoCalendar)));
    assert!(matches!(apply_instance_delete("", slot), Err(Error::NoCalendar)));
    let empty = "BEGIN:VCALENDAR\r\nEND:VCALENDAR\r\n";
    assert!(matches!(apply_instance_update(empty, slot, &none), Err(Error::NoEvent)));
    assert!(matches!(apply_instance_delete(empty, slot), Err(Error::NoEvent)));
    let anonymous = WEEKLY.replace("UID:series\r\n", "");
    assert!(matches!(apply_instance_update(&anonymous, slot, &none), Err(Error::NoUid)));
    let single = WEEKLY.replace("RRULE:FREQ=WEEKLY;COUNT=4\r\n", "");
    assert!(matches!(apply_instance_delete(&single, slot), Err(Error::NotRecurring)));
    match apply_instance_delete(WEEKLY, "tomorrow") {
        Err(Error::BadDateTime(s)) => assert_eq!(s, "tomorrow"),
        other => panic!("{other:?}"),
    }
    match apply_instance_delete(ALL_DAY, "tomorrow") {
        Err(Error::BadDate(s)) => assert_eq!(s, "tomorrow"),
        other => panic!("{other:?}"),
    }
    let bad = InstanceFields { start: Some("soon".into()), ..Default::default() };
    match apply_instance_update(ALL_DAY, "2026-06-08", &bad) {
        Err(Error::BadAllDayStart(s)) => assert_eq!(s, "soon"),
        other => panic!("{other:?}"),
    }
    let bad_end = InstanceFields { end: Some("later".into()), ..Default::default() };
    match apply_instance_update(WEEKLY, slot, &bad_end) {
        Err(Error::BadDateTime(s)) => assert_eq!(s, "later"),
        other => panic!("{other:?}"),
    }
}

#[test]
fn error_messages() {
    assert_eq!(Error::NoUid.message(), "master VEVENT has no UID");
    assert_eq!(
        Error::NotRecurring.message(),
        "event is not a recurring series; use delete_event to remove it entirely"
    );
    assert_eq!(
        Error::BadDateTime("x".into()).message(),
        "could not parse `x` as RFC3339 or naive date-time"
    );
    assert_eq!(
        Error::BadDate("x".into()).message(),
        "all-day series needs a `YYYY-MM-DD` value, got `x`"
    );
    assert_eq!(
        Error::BadAllDayStart("x".into()).message(),
        "all-day value must be `YYYY-MM-DD`, got `x`"
    );
    assert_eq!(
        Error::BadTimestamp("x".into()).message(),
        "could not parse timestamp `x` as RFC3339"
    );
}

#[test]
fn delete_keeps_the_rest_in_place() {
    let ics = "BEGIN:VCALENDAR\r\nBEGIN:VEVENT\r\nUID:s\r\nDTSTART:20260603T150000Z\r\n\
        RRULE:FREQ=WEEKLY;COUNT=4\r\nEXDATE:20260617T150000Z\r\nEND:VEVENT\r\n\
        BEGIN:VEVENT\r\nUID:s\r\nRECURRENCE-ID:20260610T150000Z\r\nDTSTART:20260610T170000Z\r\n\
        BEGIN:VALARM\r\nACTION:DISPLAY\r\nEND:VALARM\r\nEND:VEVENT\r\n\
        BEGIN:VEVENT\r\nUID:s\r\nRECURRENCE-ID:20260624T150000Z\r\nDTSTART:20260624T180000Z\r\n\
        SUMMARY:Kept\r\nEND:VEVENT\r\nEND:VCALENDAR\r\n";
    let out = apply_instance_delete(ics, "2026-06-10T15:00:00Z").unwrap();
    assert_eq!(
        body(&out),
        "BEGIN:VCALENDAR\nBEGIN:VEVENT\nUID:s\nDTSTART:20260603T150000Z\n\
         RRULE:FREQ=WEEKLY;COUNT=4\nEXDATE:20260617T150000Z\nEXDATE:20260610T150000Z\n\
         END:VEVENT\nBEGIN:VEVENT\nUID:s\nRECURRENCE-ID:20260624T150000Z\n\
         DTSTART:20260624T180000Z\nSUMMARY:Kept\nEND:VEVENT\nEND:VCALENDAR"
    );
}

#[test]
fn given_instant_is_the_stamp() {
    let none = InstanceFields::default();
    let cal = update_calendar(calendar(WEEKLY), "2026-06-10T15:00:00Z", &none, 1_781_103_600).unwrap();
    let text = export_calendar(cal).to_string();
    assert!(text.contains("DTSTAMP:20260610T150000Z\r\n"), "{text}");
    let (cal, ids) = exclude_slot(calendar(WEEKLY), "2026-06-10T15:00:00Z", 86_399).unwrap();
    assert!(ids.is_empty());
    let text = export_calendar(cal).to_string();
    assert!(text.contains("DTSTAMP:19700101T235959Z\r\n"), "{text}");
}

#[test]
fn end_out_of_range_gives_nothing() {
    let ics = "BEGIN:VCALENDAR\r\nBEGIN:VEVENT\r\nUID:f\r\nDTSTART:20260603T090000\r\n\
        DTEND:20260603T100000\r\nRRULE:FREQ=WEEKLY;COUNT=4\r\nEND:VEVENT\r\nEND:VCALENDAR\r\n";
    let none = InstanceFields::default();
    assert!(try_instance_update(ics, "+262142-12-31T23:30:00", &none).is_none());
    assert!(matches!(try_instance_update(ics, "2026-06-10T09:00:00", &none), Some(Ok(_))));
    assert!(matches!(try_instance_update("", "x", &none), Some(Err(Error::NoCalendar))));
    assert!(matches!(try_instance_update(ics, "x", &none), Some(Err(Error::BadDateTime(_)))));
}

#[test]
fn root_that_is_an_override_is_not_deleted() {
    let ics = "BEGIN:VEVENT\r\nUID:s\r\nRECURRENCE-ID:20260610T150000Z\r\n\
        DTSTART:20260610T150000Z\r\nRRULE:FREQ=WEEKLY;COUNT=4\r\nEND:VEVENT\r\n";
    assert_eq!(parse_calendars(ics).len(), 1);
    assert!(try_instance_delete(ics, "2026-06-10T15:00:00Z").is_none());
    assert!(matches!(try_instance_delete(ics, "2026-06-17T15:00:00Z"), Some(Ok(_))));
    assert!(matches!(try_instance_delete(WEEKLY, "2026-06-10T15:00:00Z"), Some(Ok(_))));
    assert!(matches!(try_instance_delete("", "x"), Some(Err(Error::NoCalendar))));
}

#[test]
fn timezone_and_unknown_parts_are_carried() {
    let ics = "BEGIN:VCALENDAR\r\nPRODID:-//x//EN\r\nBEGIN:VTIMEZONE\r\nTZID:Mine\r\n\
        BEGIN:STANDARD\r\nDTSTART:19701101T020000\r\nTZOFFSETFROM:-0400\r\nTZOFFSETTO:-0500\r\n\
        END:STANDARD\r\nEND:VTIMEZONE\r\nBEGIN:VEVENT\r\nUID:s\r\n\
        DTSTART;TZID=Mine:20260603T090000\r\nDTEND;TZID=Mine:20260603T093000\r\n\
        X-APPLE-TRAVEL:1\r\nRRULE:FREQ=WEEKLY;COUNT=4\r\nEND:VEVENT\r\nEND:VCALENDAR\r\n";
    let out = apply_instance_delete(ics, "2026-06-10T09:00:00").unwrap();
    for line in ics.lines() {
        assert!(out.contains(line), "{line} is lost in\n{out}");
    }
    assert!(out.contains("EXDATE;TZID=Mine:20260610T090000\r\n"), "{out}");
}

#[test]
fn import_takes_calendars_apart() {
    let cal = calendar(ALL_DAY);
    assert!(matches!(cal.components[0].kind, ComponentKind::Calendar));
    assert!(matches!(cal.components[1].kind, ComponentKind::Event));
    assert_eq!(cal.components[0].children, vec![1]);
    let known: Vec<PropertyName> = cal.components[1]
        .entries
        .iter()
        .map(|e| match e {
            Entry::Known(p) => p.name,
            Entry::Foreign(e) => panic!("{e:?}"),
        })
        .collect();
    assert_eq!(
        known,
        vec![
            PropertyName::Uid,
            PropertyName::Dtstart,
            PropertyName::Dtend,
            PropertyName::Summary,
            PropertyName::Rrule,
        ]
    );
    match &cal.components[1].entries[1] {
        Entry::Known(p) => {
            assert!(matches!(p.params[..], [Param::ValueDate]));
            match &p.values[..] {
                [Value::Date(d)] => {
                    assert_eq!((d.year, d.month, d.day), (Some(2026), Some(6), Some(1)));
                    assert!(!d.has_time());
                }
                other => panic!("{other:?}"),
            }
        }
        Entry::Foreign(e) => panic!("{e:?}"),
    }
    // What goes out again is what came in.
    assert_eq!(export_calendar(cal).to_string(), parse_calendars(ALL_DAY)[0].to_string());
}

#[test]
fn listed_values_are_slots() {
    let zoned = "BEGIN:VCALENDAR\r\nBEGIN:VEVENT\r\nUID:tz\r\n\
        DTSTART;TZID=Europe/Berlin:20260603T090000\r\nDTEND;TZID=Europe/Berlin:20260603T093000\r\n\
        RRULE:FREQ=WEEKLY;COUNT=4\r\nEND:VEVENT\r\nEND:VCALENDAR\r\n";
    let floating = "BEGIN:VCALENDAR\r\nBEGIN:VEVENT\r\nUID:f\r\nDTSTART:20260603T090000\r\n\
        DTEND:20260603T100000\r\nRRULE:FREQ=WEEKLY;COUNT=4\r\nEND:VEVENT\r\nEND:VCALENDAR\r\n";
    for ics in [WEEKLY, ALL_DAY, zoned, floating] {
        let before = occ(ics);
        let slot = before[1].start.clone();
        // The start of a generated instance is its slot.
        let out = apply_instance_delete(ics, &slot).unwrap();
        let after = occ(&out);
        assert_eq!(after.len(), before.len() - 1, "{out}");
        assert!(after.iter().all(|o| o.start != slot), "{out}");
        // The recurrence ID of an override is its slot.
        let fields = InstanceFields { summary: Some("changed".into()), ..Default::default() };
        let changed = apply_instance_update(ics, &slot, &fields).unwrap();
        let id = occ(&changed).into_iter().find_map(|o| o.recurrence_id).unwrap();
        assert_eq!(id, slot);
        let again = apply_instance_update(&changed, &id, &fields).unwrap();
        assert_eq!(again.matches("RECURRENCE-ID").count(), 1, "{again}");
        let gone = occ(&apply_instance_delete(&again, &id).unwrap());
        assert!(gone.iter().all(|o| o.recurrence_id.is_none() && o.start != slot));
    }
}

#[test]
fn setting_a_property_leaves_one() {
    let fields = InstanceFields {
        summary: Some("a".into()),
        description: Some("b".into()),
        location: Some("c".into()),
        ..Default::default()
    };
    let once = apply_instance_update(WEEKLY, "2026-06-10T15:00:00Z", &fields).unwrap();
    let twice = apply_instance_update(&once, "2026-06-10T15:00:00Z", &fields).unwrap();
    let tail = twice.split("BEGIN:VEVENT").nth(2).unwrap();
    for name in ["DTSTART", "DTEND", "DTSTAMP", "SUMMARY", "DESCRIPTION", "LOCATION", "UID"] {
        assert_eq!(tail.matches(name).count(), 1, "{name} in\n{twice}");
    }
}

#[test]
fn dates_make_a_series_too() {
    let ics = "BEGIN:VCALENDAR\r\nBEGIN:VEVENT\r\nUID:r\r\nDTSTART:20260603T150000Z\r\n\
        RDATE:20260605T150000Z\r\nEND:VEVENT\r\nEND:VCALENDAR\r\n";
    let out = apply_instance_delete(ics, "2026-06-05T15:00:00Z").unwrap();
    assert!(out.contains("EXDATE:20260605T150000Z\r\n"), "{out}");
}

#[test]
fn only_overrides_in_the_resource() {
    // The first override stands in for the master.
    let ics = "BEGIN:VCALENDAR\r\nBEGIN:VEVENT\r\nUID:o\r\nRECURRENCE-ID:20260610T150000Z\r\n\
        DTSTART:20260610T170000Z\r\nDTEND:20260610T180000Z\r\nEND:VEVENT\r\nEND:VCALENDAR\r\n";
    let fields = InstanceFields { start: Some("2026-06-10T20:00:00Z".into()), ..Default::default() };
    let out = apply_instance_update(ics, "2026-06-10T15:00:00Z", &fields).unwrap();
    assert_eq!(out.matches("BEGIN:VEVENT").count(), 1, "{out}");
    assert!(out.contains("DTSTART:20260610T200000Z"), "{out}");
    assert!(out.contains("DTEND:20260610T210000Z"), "{out}");
    let out = apply_instance_update(ics, "2026-06-17T15:00:00Z", &fields).unwrap();
    assert_eq!(out.matches("BEGIN:VEVENT").count(), 2, "{out}");
}

#[test]
fn fields_left_out_stay_as_they_are() {
    let slot = "2026-06-10T15:00:00Z";
    let first = InstanceFields {
        summary: Some("v1".into()),
        start: Some("2026-06-10T17:30:00Z".into()),
        end: Some("2026-06-10T18:00:00Z".into()),
        ..Default::default()
    };
    let moved = apply_instance_update(WEEKLY, slot, &first).unwrap();
    let second = InstanceFields { summary: Some("v2".into()), ..Default::default() };
    let renamed = occ(&apply_instance_update(&moved, slot, &second).unwrap());
    let o = renamed.iter().find(|o| o.summary == "v2").unwrap();
    assert_eq!(o.start, "2026-06-10T17:30:00+00:00");
    assert_eq!(o.end, "2026-06-10T18:00:00+00:00");
    assert_eq!(renamed.len(), 4);
    // Only the end moves.
    let longer = InstanceFields { end: Some("2026-06-10T19:00:00Z".into()), ..Default::default() };
    let out = occ(&apply_instance_update(&moved, slot, &longer).unwrap());
    let o = out.iter().find(|o| o.summary == "v1").unwrap();
    assert_eq!(o.start, "2026-06-10T17:30:00+00:00");
    assert_eq!(o.end, "2026-06-10T19:00:00+00:00");
    // The start moves, and the end follows it by the duration of the series.
    let later = InstanceFields { start: Some("2026-06-10T20:00:00Z".into()), ..Default::default() };
    let out = occ(&apply_instance_update(&moved, slot, &later).unwrap());
    let o = out.iter().find(|o| o.summary == "v1").unwrap();
    assert_eq!(o.start, "2026-06-10T20:00:00+00:00");
    assert_eq!(o.end, "2026-06-10T20:30:00+00:00");
    // Nothing is asked for, and nothing changes but the stamp.
    let none = apply_instance_update(&moved, slot, &InstanceFields::default()).unwrap();
    assert_eq!(body(&none), body(&moved));
}

#[test]
fn dates_left_out_need_no_end() {
    // The override has no end of its own, and a change of its texts gives it none.
    let ics = "BEGIN:VCALENDAR\r\nBEGIN:VEVENT\r\nUID:f\r\nDTSTART:20260603T090000\r\n\
        DTEND:20260603T100000\r\nRRULE:FREQ=WEEKLY;COUNT=4\r\nEND:VEVENT\r\n\
        BEGIN:VEVENT\r\nUID:f\r\nRECURRENCE-ID:20260610T090000\r\nDTSTART:20260610T110000\r\n\
        END:VEVENT\r\nEND:VCALENDAR\r\n";
    let fields = InstanceFields { location: Some("Room 2".into()), ..Default::default() };
    let out = apply_instance_update(ics, "2026-06-10T09:00:00", &fields).unwrap();
    let tail = out.split("BEGIN:VEVENT").nth(2).unwrap();
    assert!(tail.contains("DTSTART:20260610T110000\r\n"), "{out}");
    assert!(!tail.contains("DTEND"), "{out}");
    assert!(tail.contains("LOCATION:Room 2\r\n"), "{out}");
}

#[test]
fn changed_occurrence_replaces_its_slot() {
    let zoned = "BEGIN:VCALENDAR\r\nBEGIN:VEVENT\r\nUID:tz\r\nSEQUENCE:3\r\n\
        DTSTART;TZID=America/New_York:20260603T090000\r\n\
        DTEND;TZID=America/New_York:20260603T093000\r\nRRULE:FREQ=WEEKLY;COUNT=4\r\n\
        END:VEVENT\r\nEND:VCALENDAR\r\n";
    for (ics, slot, to) in [
        (WEEKLY, "2026-06-10T15:00:00+00:00", "2026-06-11T15:00:00Z"),
        (zoned, "2026-06-10T09:00:00-04:00", "2026-06-11T09:00:00-04:00"),
    ] {
        assert!(occ(ics).iter().any(|o| o.start == slot));
        let fields = InstanceFields { start: Some(to.into()), ..Default::default() };
        let out = occ(&apply_instance_update(ics, slot, &fields).unwrap());
        assert_eq!(out.len(), 4);
        assert!(out.iter().all(|o| o.start != slot), "{out:#?}");
        assert_eq!(out.iter().filter(|o| o.recurrence_id.as_deref() == Some(slot)).count(), 1);
    }
}

#[test]
fn repeated_change_changes_nothing() {
    let slot = "2026-06-10T15:00:00Z";
    // In the second calendar the override stands in for the master.
    let alone = "BEGIN:VCALENDAR\r\nBEGIN:VEVENT\r\nUID:o\r\nRECURRENCE-ID:20260610T150000Z\r\n\
        DTSTART:20260610T170000Z\r\nDTEND:20260610T180000Z\r\nEND:VEVENT\r\nEND:VCALENDAR\r\n";
    let lines = |text: &str| -> Vec<String> {
        let mut lines: Vec<String> = text.lines().map(str::to_string).collect();
        lines.sort();
        lines
    };
    for ics in [WEEKLY, alone] {
        for fields in [
            InstanceFields::default(),
            InstanceFields { summary: Some("x".into()), ..Default::default() },
            InstanceFields { start: Some("2026-06-10T17:30:00Z".into()), ..Default::default() },
            InstanceFields { end: Some("2026-06-10T18:00:00Z".into()), ..Default::default() },
            InstanceFields { start: Some("2026-06-10T16:59:60Z".into()), ..Default::default() },
        ] {
            let first = update_calendar(calendar(ics), slot, &fields, 0).unwrap();
            let once = export_calendar(first).to_string();
            let again = update_calendar(calendar(&once), slot, &fields, 0).unwrap();
            assert_eq!(lines(&export_calendar(again).to_string()), lines(&once));
        }
    }
}

#[test]
fn deleting_after_a_change_is_deleting_at_once() {
    let slot = "2026-06-10T15:00:00Z";
    let fields = InstanceFields {
        summary: Some("x".into()),
        start: Some("2026-06-10T17:30:00Z".into()),
        ..Default::default()
    };
    let at_once = apply_instance_delete(WEEKLY, slot).unwrap();
    let changed = apply_instance_update(WEEKLY, slot, &fields).unwrap();
    assert_eq!(body(&apply_instance_delete(&changed, slot).unwrap()), body(&at_once));
    let twice = apply_instance_update(&changed, slot, &InstanceFields::default()).unwrap();
    assert_eq!(body(&apply_instance_delete(&twice, slot).unwrap()), body(&at_once));
}

#[test]
fn derived_ends_read_back() {
    let zone = DateStyle::Tzid("Europe/Berlin".into());
    for style in [DateStyle::Utc, DateStyle::Floating, zone] {
        let start = "2026-06-10T23:45:00Z";
        let end = derive_end(start, 1800, &style).unwrap();
        let c = parse_timed(&end, &style).unwrap();
        assert_eq!((c.year, c.month, c.day), (2026, 6, 11));
        assert_eq!((c.hour, c.minute, c.second, c.nano), (0, 15, 0, 0));
        let d = build_value(&end, &style).unwrap();
        assert_eq!((d.day, d.hour, d.minute), (Some(11), Some(0), Some(15)));
        match derive_end("soon", 1800, &style) {
            Err(Error::BadDateTime(s)) => assert_eq!(s, "soon"),
            other => panic!("{other:?}"),
        }
    }
    assert_eq!(
        derive_end("2026-06-10T23:45:00.250+02:00", 60, &DateStyle::Utc).unwrap(),
        "2026-06-10T21:46:00.250+00:00"
    );
    assert_eq!(
        derive_end("2026-06-10T23:45:00.250Z", -60, &DateStyle::Floating).unwrap(),
        "2026-06-10T23:44:00"
    );
    assert_eq!(derive_end("2024-02-28", 86_400, &DateStyle::AllDay).unwrap(), "2024-02-29");
    assert_eq!(derive_end("2024-02-28", 0, &DateStyle::AllDay).unwrap(), "2024-02-29");
    assert_eq!(derive_end("2024-02-28", 200_000, &DateStyle::AllDay).unwrap(), "2024-03-01");
    // A start that cannot be read is refused, however long it is to last.
    for seconds in [i64::MIN, i64::MAX] {
        assert!(matches!(derive_end("soon", seconds, &DateStyle::Utc), Err(Error::BadDateTime(_))));
        assert!(matches!(
            derive_end("soon", seconds, &DateStyle::AllDay),
            Err(Error::BadAllDayStart(_))
        ));
    }
    assert_eq!(derive_end("2024-02-28", i64::MIN, &DateStyle::AllDay).unwrap(), "2024-02-29");
    match derive_end("soon", 0, &DateStyle::AllDay) {
        Err(Error::BadAllDayStart(s)) => assert_eq!(s, "soon"),
        other => panic!("{other:?}"),
    }
}

#[test]
fn style_and_duration_of_the_master() {
    let weekly = calendar(WEEKLY);
    let style = master_style(&weekly.components[1]);
    assert!(matches!(style, DateStyle::Utc));
    assert_eq!(master_duration(&weekly.components[1], &style), 1800);
    let days = calendar(ALL_DAY);
    let style = master_style(&days.components[1]);
    assert!(matches!(style, DateStyle::AllDay));
    assert_eq!(master_duration(&days.components[1], &style), 172_800);
    // Where the dates do not tell, the style given does.
    let open = calendar(&WEEKLY.replace("DTEND:20260603T153000Z\r\n", ""));
    assert_eq!(master_duration(&open.components[1], &DateStyle::AllDay), 86_400);
    assert_eq!(master_duration(&open.components[1], &DateStyle::Floating), 0);
    assert_eq!(master_duration(&weekly.components[1], &DateStyle::AllDay), 1800);
    let zoned = WEEKLY.replace("DTSTART:20260603T150000Z", "DTSTART;TZID=Europe/Berlin:20260603T150000");
    let zoned = calendar(&zoned);
    assert!(matches!(master_style(&zoned.components[1]), DateStyle::Tzid(z) if z == "Europe/Berlin"));
    let floating = calendar(&WEEKLY.replace("150000Z", "150000").replace("153000Z", "153000"));
    assert!(matches!(master_style(&floating.components[1]), DateStyle::Floating));
}

#[test]
fn time_zones_that_are_no_plain_text_count_too() {
    let ics = WEEKLY.replace("DTSTART:20260603T150000Z", "DTSTART;TZID=Mine:20260603T150000");
    let given = |value: ICalendarParameterValue| {
        let mut raw = parse_calendars(&ics).remove(0);
        raw.components[1].entries[1].params[0].value = value;
        raw
    };
    let raw = given(ICalendarParameterValue::Bool(true));
    let text = raw.to_string();
    let cal = import_calendar(raw);
    match &cal.components[1].entries[1] {
        Entry::Known(p) => match &p.params[..] {
            [Param::OtherTzid(z)] => {
                assert_eq!(z.text.as_deref(), Some("TRUE"));
                assert_eq!(z.raw.name, ICalendarParameterName::Tzid);
            }
            other => panic!("{other:?}"),
        },
        Entry::Foreign(e) => panic!("{e:?}"),
    }
    assert!(matches!(master_style(&cal.components[1]), DateStyle::Tzid(z) if z == "TRUE"));
    assert_eq!(export_calendar(cal).to_string(), text);
    let cal = import_calendar(given(ICalendarParameterValue::Integer(7)));
    assert!(matches!(master_style(&cal.components[1]), DateStyle::Floating));
    let cal = import_calendar(given(ICalendarParameterValue::Text("Mine".into())));
    assert!(matches!(master_style(&cal.components[1]), DateStyle::Tzid(z) if z == "Mine"));
}
