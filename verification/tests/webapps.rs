use wtm::config::LauncherEntry;
use wtm::webapps::{
    browsers, cycle_entry_browser, decode_entities, entry_browser_label, entry_url, file_stem,
    normalize_url, parse_bookmarks_html, url_display_name, web_browser_choices, wire, wire_for,
    BrowserChoice, Folders,
};

fn entry(command: &str, args: &str) -> LauncherEntry {
    LauncherEntry {
        name: "x".to_string(),
        command: command.to_string(),
        args: args.to_string(),
        dir: String::new(),
        key: String::new(),
        group: String::new(),
    }
}

fn folders() -> Folders {
    Folders::from_environment(None, None, Some("L:".to_string()))
}

fn choice(label: &str, exe: &str, args: &str) -> BrowserChoice {
    BrowserChoice { label: label.to_string(), exe: exe.to_string(), args: args.to_string() }
}

#[test]
fn parses_netscape_bookmarks() {
    let html = r##"<DL><p>
<DT><A HREF="https://grafana.example.com/d/1?a=1&amp;b=2" ADD_DATE="123">Grafana &amp; Friends</A>
<DT><a href="http://youtube.com">YouTube</a>
<DT><A HREF="place:folder=TOOLBAR">ignored non-http</A>
</DL>"##;
    let marks = parse_bookmarks_html(html);
    assert_eq!(marks.len(), 2);
    assert_eq!(marks[0].0, "Grafana & Friends");
    assert_eq!(marks[0].1, "https://grafana.example.com/d/1?a=1&b=2");
    assert_eq!(marks[1], ("YouTube".to_string(), "http://youtube.com".to_string()));
}

#[test]
fn url_normalization_and_names() {
    assert_eq!(normalize_url("grafana.corp.com/d/1"), "https://grafana.corp.com/d/1");
    assert_eq!(normalize_url("http://a.b"), "http://a.b");
    assert_eq!(url_display_name("https://www.youtube.com/feed"), "youtube.com");
}

#[test]
fn addresses_are_trimmed_and_cut() {
    assert_eq!(normalize_url("  a.b \t"), "https://a.b");
    assert_eq!(url_display_name("a.b?x=1/2"), "a.b");
    assert_eq!(url_display_name("https://www.www.x.org"), "x.org");
    assert_eq!(url_display_name("x://y://z"), "y");
}

#[test]
fn broken_bookmarks_are_left_out() {
    assert_eq!(parse_bookmarks_html("<a href=\"http://x\">never closed").len(), 0);
    assert_eq!(parse_bookmarks_html("<a href=\"http://x\"").len(), 0);
    assert_eq!(parse_bookmarks_html("<a href=\"http://x\">  </a>").len(), 0);
    assert_eq!(parse_bookmarks_html("<a name=\"x\">y</a>").len(), 0);
    let m = parse_bookmarks_html("Ä <A x HREF=\"HTTP://x\">n</A><a href=\"http://Ü\"> é </a>");
    assert_eq!(m, vec![("é".to_string(), "http://Ü".to_string())]);
}

#[test]
fn entities_are_decoded_in_turn() {
    assert_eq!(decode_entities("&lt;a&gt; &quot;b&quot; &#39;c&#39; &amp;d"), "<a> \"b\" 'c' &d");
    assert_eq!(decode_entities("&amp;lt;"), "<");
}

#[test]
fn stem_is_the_name_without_its_ending() {
    assert_eq!(file_stem("C:\\Projects\\ProjectA\\evars.bat"), "evars");
    assert_eq!(file_stem("a/b.c.d"), "b.c");
    assert_eq!(file_stem("plain"), "plain");
    assert_eq!(file_stem(""), "");
}

#[test]
fn folders_fall_back() {
    let f = Folders::from_environment(None, None, None);
    assert_eq!(f.programs, "C:\\Program Files");
    assert_eq!(f.programs_x86, "C:\\Program Files (x86)");
    assert_eq!(f.local, "");
}

#[test]
fn only_present_browsers_are_offered() {
    let f = folders();
    let all = browsers(&f);
    assert_eq!(all.len(), 4);
    assert_eq!(all[0].paths[0], "C:\\Program Files\\BraveSoftware\\Brave-Browser\\Application\\brave.exe");
    assert_eq!(all[1].paths[0], "C:\\Program Files (x86)\\Microsoft\\Edge\\Application\\msedge.exe");
    assert_eq!(all[2].paths[2], "L:\\Google\\Chrome\\Application\\chrome.exe");
    assert_eq!(all[3].paths[1], "C:\\Program Files (x86)\\Mozilla Firefox\\firefox.exe");
    let none = web_browser_choices(&f, "https://x", &Vec::new());
    assert_eq!(none.len(), 1);
    assert_eq!(none[0].label, "Default browser — normal tab");
    assert!(none[0].exe.is_empty() && none[0].args.is_empty());
    let present = vec![
        "C:\\Program Files\\Mozilla Firefox\\firefox.exe".to_string(),
        "L:\\Google\\Chrome\\Application\\chrome.exe".to_string(),
        "C:\\Program Files\\Google\\Chrome\\Application\\chrome.exe".to_string(),
    ];
    let some = web_browser_choices(&f, "https://x", &present);
    assert_eq!(some.len(), 3);
    assert_eq!(some[0].label, "Chrome — app window");
    assert_eq!(some[0].exe, "C:\\Program Files\\Google\\Chrome\\Application\\chrome.exe");
    assert_eq!(some[0].args, "--app=https://x");
    assert_eq!(some[1].label, "Firefox — new window");
    assert_eq!(some[1].args, "-new-window https://x");
}

#[test]
fn entry_gives_its_address() {
    assert_eq!(entry_url(&entry("https://a", "")), Some("https://a".to_string()));
    assert_eq!(entry_url(&entry("http://a", "--app=b")), Some("http://a".to_string()));
    assert_eq!(entry_url(&entry("brave.exe", "--x --app= https://b ")), Some("https://b".to_string()));
    assert_eq!(entry_url(&entry("firefox.exe", "-new-window c")), Some("c".to_string()));
    assert_eq!(entry_url(&entry("notepad.exe", "c")), None);
}

#[test]
fn entry_names_its_browser() {
    assert_eq!(entry_browser_label(&entry("C:\\x\\BRAVE.exe", "")), "Brave");
    assert_eq!(entry_browser_label(&entry("x/msedge.exe", "")), "Edge");
    assert_eq!(entry_browser_label(&entry("chrome.exe", "")), "Chrome");
    assert_eq!(entry_browser_label(&entry("firefox.exe", "")), "Firefox");
    assert_eq!(entry_browser_label(&entry("https://a/brave", "")), "Default");
}

#[test]
fn cycling_goes_round_and_keeps_the_address() {
    let cs = vec![
        choice("Brave", "C:\\brave.exe", "--app={url}"),
        choice("Firefox", "C:\\firefox.exe", "-new-window {url}"),
        choice("Default", "", ""),
    ];
    let mut e = entry("https://a.b", "");
    assert!(cycle_entry_browser(&mut e, &cs));
    assert_eq!((e.command.as_str(), e.args.as_str()), ("C:\\brave.exe", "--app=https://a.b"));
    assert_eq!(entry_url(&e), Some("https://a.b".to_string()));
    e.command = "c:\\BRAVE.exe".to_string();
    assert!(cycle_entry_browser(&mut e, &cs));
    assert_eq!((e.command.as_str(), e.args.as_str()), ("C:\\firefox.exe", "-new-window https://a.b"));
    assert!(cycle_entry_browser(&mut e, &cs));
    assert_eq!((e.command.as_str(), e.args.as_str()), ("https://a.b", ""));
    for (exe, args) in [
        ("C:\\brave.exe", "--app=https://a.b"),
        ("C:\\firefox.exe", "-new-window https://a.b"),
        ("https://a.b", ""),
    ] {
        assert!(cycle_entry_browser(&mut e, &cs));
        assert_eq!((e.command.as_str(), e.args.as_str()), (exe, args));
    }
    let mut n = entry("notepad.exe", "");
    assert!(!cycle_entry_browser(&mut n, &cs));
    assert_eq!(n.command, "notepad.exe");
}

#[test]
fn wiring_fills_in_the_address() {
    let c = choice("Brave", "C:\\brave.exe", "--app={url} {url}");
    assert_eq!(wire_for(&c, "u"), ("C:\\brave.exe".to_string(), "--app=u u".to_string()));
    let d = choice("Default", "", "");
    assert_eq!(wire_for(&d, "u"), ("u".to_string(), String::new()));
    assert_eq!(wire(&d, "u"), ("u".to_string(), String::new()));
    assert_eq!(wire(&c, "u"), ("C:\\brave.exe".to_string(), "--app={url} {url}".to_string()));
}
