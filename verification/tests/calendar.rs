use wtm::calendar::{failure_message, fetched, helper_script, now_epoch, parse_line, parse_output, Calendar};

#[test]
fn parses_helper_lines() {
    let m = parse_line("100\t200\t10:00\t10:30\tStandup\tRoom A\thttps://x").unwrap();
    assert_eq!((m.start, m.end), (100, 200));
    assert_eq!(m.subject, "Standup");
    assert_eq!(m.location, "Room A");
    assert_eq!(m.join_url, "https://x");
}

#[test]
fn tolerates_missing_trailing_fields_and_garbage() {
    let m = parse_line("1\t2\t09:00\t09:30\tSolo").unwrap();
    assert!(m.location.is_empty() && m.join_url.is_empty());
    assert!(parse_line("garbage").is_none());
    assert!(parse_line("1\t2\t09:00\t09:30\t").is_none());
    assert!(parse_line("").is_none());
}

#[test]
fn output_is_sorted_and_cut() {
    let mut text = String::from("junk\n");
    for i in 0..25 {
        text.push_str(&format!("{}\t{}\ta\tb\tm{}\r\n", 100 - i, 200, i));
    }
    let list = parse_output(&text);
    assert_eq!(list.len(), 20);
    assert_eq!(list[0].start, 76);
    assert_eq!(list[0].subject, "m24");
    assert_eq!(list[19].start, 95);
}

#[test]
fn meetings_with_one_start_keep_their_order() {
    let list = parse_output("5\t9\ta\tb\tfirst\n5\t9\ta\tb\tsecond\n4\t9\ta\tb\tearly\n");
    let names: Vec<&str> = list.iter().map(|m| m.subject.as_str()).collect();
    assert_eq!(names, vec!["early", "first", "second"]);
}

#[test]
fn chip_shows_what_is_near() {
    let mut c = Calendar::default();
    let read = parse_output("10\t20\ta\tb\tpast\n100\t200\ta\tb\tnow\n90000\t90100\ta\tb\tlater\n");
    assert_eq!(c.refreshed(Ok(read)), None);
    assert_eq!(c.agenda(50).len(), 2);
    assert_eq!(c.next_meeting(150).unwrap().subject, "now");
    assert!(c.next_meeting(201).is_none());
    assert_eq!(c.next_meeting(90000 - 12 * 3600).unwrap().subject, "later");
}

#[test]
fn configure_starts_once_and_forgets() {
    let mut c = Calendar::default();
    assert!(!c.configure("  ", 5));
    assert!(c.configure(" outlook ", 0));
    assert_eq!(c.source, "outlook");
    assert_eq!(c.pause(), 60);
    c.refreshed(Ok(parse_output("10\t20\ta\tb\tm\n")));
    assert!(!c.configure("outlook", 500));
    assert_eq!(c.pause(), 7200);
    assert_eq!(c.meetings.len(), 1);
    assert!(!c.configure("https://x/y.ics", 7));
    assert_eq!(c.meetings.len(), 0);
}

#[test]
fn failures_are_reported_once_in_a_row() {
    let mut c = Calendar::default();
    assert_eq!(c.refreshed(Err("no".to_string())), Some("no".to_string()));
    assert_eq!(c.refreshed(Err("no".to_string())), None);
    assert_eq!(c.refreshed(Ok(Vec::new())), None);
    assert_eq!(c.refreshed(Err("no".to_string())), Some("no".to_string()));
    assert_eq!(failure_message("bad\nworse"), "helper failed: bad");
    assert_eq!(failure_message(""), "helper failed: (no output)");
}

#[test]
fn failed_helper_gives_no_meetings() {
    let line = "10\t20\ta\tb\tm\n";
    let list = fetched(true, line, "warning\n").unwrap();
    assert_eq!((list.len(), list[0].subject.as_str()), (1, "m"));
    assert_eq!(
        fetched(false, line, "denied\nmore").unwrap_err(),
        "helper failed: denied"
    );
    assert_eq!(fetched(false, line, "").unwrap_err(), "helper failed: (no output)");
}

#[test]
fn script_is_filled_in() {
    assert_eq!(helper_script("OutLook", "O", "I"), "O");
    assert_eq!(helper_script("a'b", "O", "src='__SRC__'"), "src='a''b'");
    assert_eq!(now_epoch(None), 0);
    assert_eq!(now_epoch(Some(7)), 7);
}
