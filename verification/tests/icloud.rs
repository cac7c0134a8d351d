use davenport::error::Error;
use davenport::icloud::{
    build_vevent, caldav_range, current_window, escape_ical, join_href, new_event, plan_event,
    plan_window, to_caldav_utc, vevent_at, Event, Icloud, IcloudConfig, Step, ICLOUD_CALDAV_URL,
};

fn icloud() -> Icloud {
    Icloud::new(IcloudConfig {
        base_url: ICLOUD_CALDAV_URL.to_string(),
        email: "me@example.com".to_string(),
        password: "pw".to_string(),
    })
}

#[test]
fn discovery_runs_once() {
    let mut state = icloud();
    assert_eq!(state.home(Event::Begin).unwrap(), Step::FindPrincipal);
    assert_eq!(
        state.home(Event::Principal(Some("/p/".into()))).unwrap(),
        Step::FindHomes("/p/".into())
    );
    assert_eq!(state.home, None);
    let homes = vec!["/h1/".to_string(), "/h2/".to_string()];
    assert_eq!(state.home(Event::Homes(homes)).unwrap(), Step::Home("/h1/".into()));
    assert_eq!(state.home(Event::Begin).unwrap(), Step::Home("/h1/".into()));
    assert_eq!(state.home(Event::Principal(None)).unwrap(), Step::Home("/h1/".into()));
    assert_eq!(state.home.as_deref(), Some("/h1/"));
    assert_eq!(state.cfg.base_url, "https://caldav.icloud.com");
}

#[test]
fn discovery_errors() {
    let mut state = icloud();
    assert!(matches!(state.home(Event::Principal(None)), Err(Error::NoPrincipal)));
    assert!(matches!(state.home(Event::Homes(vec![])), Err(Error::NoHome)));
    assert_eq!(state.home, None);
    assert_eq!(state.home(Event::Begin).unwrap(), Step::FindPrincipal);
    assert_eq!(Error::NoPrincipal.message(), "iCloud returned no current-user-principal");
    assert_eq!(Error::NoHome.message(), "iCloud returned no calendar-home-set");
}

#[test]
fn timestamps_become_basic_utc() {
    assert_eq!(to_caldav_utc("2026-05-29T14:00:00Z").unwrap(), "20260529T140000Z");
    assert_eq!(to_caldav_utc("2026-05-29T23:30:00-04:00").unwrap(), "20260530T033000Z");
    assert_eq!(to_caldav_utc("2026-01-01T00:00:00+05:30").unwrap(), "20251231T183000Z");
    assert_eq!(to_caldav_utc("2026-05-29T14:00:00.123456Z").unwrap(), "20260529T140000Z");
    assert_eq!(to_caldav_utc("2026-05-29 14:00:00z").unwrap(), "20260529T140000Z");
    assert_eq!(to_caldav_utc("2026-05-29T14:00:00.5Z").unwrap(), "20260529T140000Z");
    match to_caldav_utc("2026-05-29T14:00:00") {
        Err(Error::BadTimestamp(s)) => assert_eq!(s, "2026-05-29T14:00:00"),
        other => panic!("{other:?}"),
    }
    assert!(to_caldav_utc("2026-02-29T14:00:00Z").is_err());
    assert!(to_caldav_utc("2024-02-29T14:00:00Z").is_ok());
}

#[test]
fn ranges_may_be_open() {
    assert_eq!(caldav_range(None, None).unwrap(), (None, None));
    assert_eq!(
        caldav_range(Some("2026-05-29T14:00:00Z"), None).unwrap(),
        (Some("20260529T140000Z".to_string()), None)
    );
    assert_eq!(
        caldav_range(None, Some("2026-05-29T14:00:00Z")).unwrap(),
        (None, Some("20260529T140000Z".to_string()))
    );
    assert!(matches!(caldav_range(Some("a"), Some("b")), Err(Error::BadTimestamp(s)) if s == "a"));
    assert!(matches!(caldav_range(None, Some("b")), Err(Error::BadTimestamp(s)) if s == "b"));
}

#[test]
fn window_defaults_to_thirty_days() {
    let w = plan_window(None, None, 0).unwrap();
    assert_eq!((w.from, w.to), (0, 2_592_000));
    assert_eq!(w.start, "1970-01-01T00:00:00Z");
    assert_eq!(w.end, "1970-01-31T00:00:00Z");
    let w = plan_window(Some("2026-06-01T00:00:00-04:00"), None, 0).unwrap();
    assert_eq!(w.start, "2026-06-01T00:00:00-04:00");
    assert_eq!(w.end, "2026-07-01T04:00:00Z");
    assert_eq!(w.to - w.from, 30 * 86_400);
    let w = plan_window(None, Some("1970-01-02T00:00:00Z"), 10).unwrap();
    assert_eq!((w.from, w.to), (10, 86_400));
    let last = plan_window(None, None, 8_210_266_876_799).unwrap();
    assert_eq!((last.from, last.to), (8_210_266_876_799, 8_210_266_876_799));
    assert!(matches!(plan_window(Some("x"), None, 0), Err(Error::BadTimestamp(_))));
    assert!(matches!(plan_window(None, Some("y"), 0), Err(Error::BadTimestamp(_))));
    let now = current_window(None, None).unwrap();
    assert_eq!(now.to - now.from, 2_592_000);
    assert!(now.from > 1_600_000_000);
}

#[test]
fn special_characters_are_escaped() {
    assert_eq!(escape_ical("a;b,c\\d\ne"), "a\\;b\\,c\\\\d\\ne");
    assert_eq!(escape_ical("plain text"), "plain text");
    assert_eq!(escape_ical(""), "");
    assert_eq!(escape_ical("\\n"), "\\\\n");
    assert!(!escape_ical("x\nEND:VEVENT").contains('\n'));
}

#[test]
fn hrefs_are_joined_with_one_slash() {
    assert_eq!(join_href("/cal/", "e.ics"), "/cal/e.ics");
    assert_eq!(join_href("/cal", "e.ics"), "/cal/e.ics");
    assert_eq!(join_href("", "e.ics"), "/e.ics");
}

#[test]
fn event_body_is_exact() {
    let ics = vevent_at(
        "u-1",
        "Lunch, with A; B",
        "2026-06-10T15:00:00-04:00",
        "2026-06-10T16:00:00-04:00",
        Some("line 1\nline 2"),
        Some("Cafe"),
        1_781_103_600,
    )
    .unwrap();
    assert_eq!(
        ics,
        "BEGIN:VCALENDAR\r\nVERSION:2.0\r\nPRODID:-//mcp-icloud-calendar-rs//EN\r\n\
         BEGIN:VEVENT\r\nUID:u-1\r\nDTSTAMP:20260610T150000Z\r\nDTSTART:20260610T190000Z\r\n\
         DTEND:20260610T200000Z\r\nSUMMARY:Lunch\\, with A\\; B\r\n\
         DESCRIPTION:line 1\\nline 2\r\nLOCATION:Cafe\r\nEND:VEVENT\r\nEND:VCALENDAR\r\n"
    );
    let bare =
        vevent_at("u", "s", "2026-06-10T15:00:00Z", "2026-06-10T16:00:00Z", None, None, 0).unwrap();
    assert!(!bare.contains("DESCRIPTION"));
    assert!(!bare.contains("LOCATION"));
}

#[test]
fn event_errors_name_the_timestamp() {
    let start = build_vevent("u", "s", "bad", "worse", None, None);
    assert!(matches!(start, Err(Error::BadTimestamp(s)) if s == "bad"));
    let end = build_vevent("u", "s", "2026-06-10T15:00:00Z", "worse", None, None);
    assert!(matches!(end, Err(Error::BadTimestamp(s)) if s == "worse"));
    // A stamp beyond the year 9999 cannot be written.
    let late =
        vevent_at("u", "s", "2026-06-10T15:00:00Z", "2026-06-10T16:00:00Z", None, None, 253_402_300_800);
    assert!(matches!(late, Err(Error::BadTimestamp(s)) if s == "+10000-01-01T00:00:00Z"));
}

#[test]
fn new_events_get_fresh_uids() {
    let make = || {
        new_event("/cal", "s", "2026-06-10T15:00:00Z", "2026-06-10T16:00:00Z", None, None).unwrap()
    };
    let (a, b) = (make(), make());
    assert_ne!(a.uid, b.uid);
    assert_eq!(a.uid.len(), 36);
    assert_eq!(a.uid.as_bytes()[14], b'4');
    assert_eq!(a.href, format!("/cal/{}.ics", a.uid));
    assert!(a.ics.contains(&format!("UID:{}\r\n", a.uid)));
}

#[test]
fn planned_event_is_exact() {
    let e = plan_event(
        "id".to_string(),
        "/cal/",
        "s",
        "2026-06-10T15:00:00Z",
        "2026-06-10T16:00:00Z",
        None,
        None,
        0,
    )
    .unwrap();
    assert_eq!(e.uid, "id");
    assert_eq!(e.href, "/cal/id.ics");
    assert!(e.ics.contains("DTSTAMP:19700101T000000Z\r\n"));
}

#[test]
fn basic_utc_keeps_the_order_of_instants() {
    let texts: Vec<String> = [
        "0000-01-01T00:00:00Z",
        "1969-12-31T23:59:59Z",
        "2026-05-29T13:59:59Z",
        "2026-05-29T16:00:00+02:00",
        "2026-05-29T14:00:01Z",
        "2026-06-30T23:59:60Z",
        "2026-07-01T00:00:00Z",
        "9999-12-31T23:59:59Z",
    ]
    .iter()
    .map(|s| to_caldav_utc(s).unwrap())
    .collect();
    assert!(texts.windows(2).all(|w| w[0] < w[1]), "{texts:?}");
    assert!(texts.iter().all(|t| t.len() == 16), "{texts:?}");
    assert_eq!(texts[5], "20260630T235960Z");
    assert_eq!(
        to_caldav_utc("2026-05-29T16:00:00+02:00").unwrap(),
        to_caldav_utc("2026-05-29T08:30:00.75-05:30").unwrap()
    );
    assert!(matches!(to_caldav_utc(""), Err(Error::BadTimestamp(s)) if s.is_empty()));
}

#[test]
fn event_lines_give_the_fields_back() {
    let summary = "a,b;c\\d\ne \\n";
    let description = "x\r\ny";
    let ics = vevent_at(
        "u",
        summary,
        "2026-06-10T15:00:00Z",
        "2026-06-10T16:00:00Z",
        Some(description),
        Some("END:VEVENT\nUID:other"),
        0,
    )
    .unwrap();
    assert!(ics.ends_with("\r\n"));
    let lines: Vec<&str> = ics.split("\r\n").collect();
    assert_eq!(lines.len(), 14, "13 lines and nothing behind them");
    assert_eq!(lines[4], "UID:u");
    assert_eq!(lines[5], "DTSTAMP:19700101T000000Z");
    assert_eq!(lines[6], "DTSTART:20260610T150000Z");
    assert_eq!(lines[7], "DTEND:20260610T160000Z");
    let unescape = |s: &str| {
        let mut out = String::new();
        let mut it = s.chars();
        while let Some(c) = it.next() {
            match c {
                '\\' => match it.next() {
                    Some('n') => out.push('\n'),
                    Some(c) => out.push(c),
                    None => out.push('\\'),
                },
                c => out.push(c),
            }
        }
        out
    };
    assert_eq!(unescape(lines[8].strip_prefix("SUMMARY:").unwrap()), summary);
    assert_eq!(unescape(lines[9].strip_prefix("DESCRIPTION:").unwrap()), description);
    assert_eq!(unescape(lines[10].strip_prefix("LOCATION:").unwrap()), "END:VEVENT\nUID:other");
    assert_eq!(lines[11], "END:VEVENT");
    assert_eq!(lines[12], "END:VCALENDAR");
}
