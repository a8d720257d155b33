use wtm::config::LauncherEntry;
use wtm::strmap::StrMap;
use wtm::usage::{read_usage, record_launch, usage_key, usage_score, write_usage};

fn entry(command: &str, args: &str) -> LauncherEntry {
    LauncherEntry {
        name: "n".to_string(),
        command: command.to_string(),
        args: args.to_string(),
        dir: String::new(),
        key: String::new(),
        group: String::new(),
    }
}

#[test]
fn key_is_what_runs() {
    assert_eq!(usage_key(&entry("C:\\A.exe", "")), "c:\\a.exe");
    assert_eq!(usage_key(&entry(" Brave.exe", "--App=X ")), "brave.exe --app=x");
}

#[test]
fn record_reads_back() {
    let mut m: StrMap<(u32, u64)> = StrMap::new();
    record_launch(&mut m, &entry("b", ""), 100);
    record_launch(&mut m, &entry("a", "x"), 200);
    record_launch(&mut m, &entry("B", ""), 300);
    let text = write_usage(&m);
    assert_eq!(text, "1\t200\ta x\n2\t300\tb\n");
    let again = read_usage(&text);
    assert_eq!(again.get("b"), Some(&(2, 300)));
    assert_eq!(again.get("a x"), Some(&(1, 200)));
    assert_eq!(again.entries.len(), 2);
}

#[test]
fn broken_lines_are_left_out() {
    let m = read_usage("x\t1\ta\n1\ty\tb\n1\t2\n3\t4\tc\td\n3\t5\tc\td\n+7\t8\te\n-1\t2\tf\n4294967296\t1\tg\n");
    assert_eq!(m.entries.len(), 2);
    assert_eq!(m.get("c\td"), Some(&(3, 5)));
    assert_eq!(m.get("e"), Some(&(7, 8)));
}

#[test]
fn score_weighs_age() {
    let e = entry("a", "");
    let mut m: StrMap<(u32, u64)> = StrMap::new();
    assert_eq!(usage_score(&m, &e, 0), 0);
    m.insert("a".to_string(), (3, 1_000_000));
    assert_eq!(usage_score(&m, &e, 1_003_599), 24);
    assert_eq!(usage_score(&m, &e, 1_003_600), 12);
    assert_eq!(usage_score(&m, &e, 1_086_400), 6);
    assert_eq!(usage_score(&m, &e, 1_604_800), 3);
    assert_eq!(usage_score(&m, &e, 5), 24);
    m.insert("a".to_string(), (4_000_000_000, 0));
    assert_eq!(usage_score(&m, &e, 0), 800);
}

#[test]
fn count_stops_at_its_limit() {
    let mut m: StrMap<(u32, u64)> = StrMap::new();
    m.insert("a".to_string(), (u32::MAX, 0));
    record_launch(&mut m, &entry("A", ""), 9);
    assert_eq!(m.get("a"), Some(&(u32::MAX, 9)));
}
