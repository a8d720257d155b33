use wtm::config::LauncherEntry;
use wtm::configfile::{
    is_quiet, save_app_rule, save_border_color, save_border_thickness, save_calendar_source, save_keybinding,
    save_launcher, save_workspace_names, save_workspaces, set_app_rule, set_integer,
    set_keybinding, set_launcher, set_text, set_workspace_names,
};

const FILE: &str = "outer_gap = 12\nsplit_ratio = 0.55\n\n[keybindings]\nfocus_left = \"alt+h\"\n";

fn entry(name: &str, args: &str) -> LauncherEntry {
    LauncherEntry {
        name: name.to_string(),
        command: "C:\\Tools\\it's.exe".to_string(),
        args: args.to_string(),
        dir: String::new(),
        key: "win+enter".to_string(),
        group: String::new(),
    }
}

fn table(text: &str) -> toml::Table {
    text.parse::<toml::Table>().unwrap()
}

#[test]
fn binding_is_saved_beside_the_rest() {
    let t = table(&save_keybinding(FILE, "focus_right", "alt+l").unwrap());
    assert_eq!(t["keybindings"]["focus_right"].as_str(), Some("alt+l"));
    assert_eq!(t["keybindings"]["focus_left"].as_str(), Some("alt+h"));
    assert_eq!(t["outer_gap"].as_integer(), Some(12));
    assert_eq!(t["split_ratio"].as_float(), Some(0.55));
    assert_eq!(t.len(), 3);
}

#[test]
fn saved_texts_are_exact() {
    assert_eq!(
        save_keybinding("", "focus_left", "alt+a"),
        Ok("[keybindings]\nfocus_left = \"alt+a\"\n".to_string())
    );
    assert_eq!(save_workspaces("", 12), Ok("workspaces = 12\n".to_string()));
    assert_eq!(save_border_thickness("", 0), Ok("border_thickness = 0\n".to_string()));
    assert_eq!(
        save_border_color("", "#a6e3a1"),
        Ok("active_border_color = \"#a6e3a1\"\n".to_string())
    );
    assert_eq!(
        save_calendar_source("", "outlook"),
        Ok("calendar_source = \"outlook\"\n".to_string())
    );
    assert_eq!(
        save_app_rule("", "brave.exe", Some(3)),
        Ok("[app_rules]\n\"brave.exe\" = 3\n".to_string())
    );
}

#[test]
fn other_value_in_the_place_of_a_section_stays() {
    assert_eq!(save_keybinding("keybindings = 3\n", "exit", "alt+x"), Ok("keybindings = 3\n".to_string()));
    assert_eq!(save_app_rule("app_rules = 'x'\n", "a.exe", Some(1)), Ok("app_rules = \"x\"\n".to_string()));
}

#[test]
fn rule_is_changed_and_removed() {
    let one = save_app_rule(FILE, "a.exe", Some(2)).unwrap();
    let two = save_app_rule(&one, "b.exe", Some(4)).unwrap();
    let changed = save_app_rule(&two, "a.exe", Some(9)).unwrap();
    assert_eq!(table(&changed)["app_rules"]["a.exe"].as_integer(), Some(9));
    let gone = save_app_rule(&changed, "a.exe", None).unwrap();
    let rules = table(&gone)["app_rules"].as_table().unwrap().clone();
    assert_eq!(rules.len(), 1);
    assert_eq!(rules["b.exe"].as_integer(), Some(4));
    assert_eq!(table(&gone)["outer_gap"].as_integer(), Some(12));
}

#[test]
fn launcher_leaves_out_what_is_empty() {
    let text = save_launcher(FILE, &vec![entry("One", ""), entry("Two", "--app=https://x")]).unwrap();
    let t = table(&text);
    let list = t["launcher"].as_array().unwrap();
    assert_eq!(list.len(), 2);
    let first = list[0].as_table().unwrap();
    assert_eq!(first.len(), 3);
    assert_eq!(first["command"].as_str(), Some("C:\\Tools\\it's.exe"));
    assert_eq!(list[1]["args"].as_str(), Some("--app=https://x"));
    assert_eq!(t["keybindings"]["focus_left"].as_str(), Some("alt+h"));
}

#[test]
fn awkward_names_read_back() {
    let names = vec![
        String::new(),
        "it's \"quoted\"".to_string(),
        "tab\tand\nline\r\nend".to_string(),
        "\u{7f} \u{1} ключ".to_string(),
    ];
    let text = save_workspace_names("", &names).unwrap();
    let read: Vec<String> = table(&text)["workspace_names"]
        .as_array()
        .unwrap()
        .iter()
        .map(|v| v.as_str().unwrap().to_string())
        .collect();
    assert_eq!(read, names);
}

#[test]
fn malformed_file_is_reported() {
    let e = save_workspaces("workspaces = = 3", 4).unwrap_err();
    assert!(e.starts_with("TOML parse error at line 1, column 14"), "{}", e);
    assert!(save_keybinding("[a", "exit", "alt+x").is_err());
    assert!(save_launcher("x", &Vec::new()).is_err());
    assert!(save_workspace_names("x", &Vec::new()).is_err());
    assert!(save_border_thickness("x", 1).is_err());
    assert!(save_border_color("x", "").is_err());
    assert!(save_calendar_source("x", "").is_err());
    assert!(save_app_rule("x", "", None).is_err());
}

#[test]
fn tables_are_changed_in_place() {
    let mut t = toml::Table::new();
    set_integer(&mut t, "workspaces", 5);
    set_text(&mut t, "bar_background", "#181825");
    set_keybinding(&mut t, "exit", "alt+x");
    set_keybinding(&mut t, "exit", "alt+z");
    set_app_rule(&mut t, "a.exe", None);
    set_workspace_names(&mut t, &vec!["web".to_string()]);
    set_launcher(&mut t, &Vec::new());
    assert_eq!(t["workspaces"].as_integer(), Some(5));
    assert_eq!(t["bar_background"].as_str(), Some("#181825"));
    assert_eq!(t["keybindings"]["exit"].as_str(), Some("alt+z"));
    assert!(t["app_rules"].as_table().unwrap().is_empty());
    assert_eq!(t["workspace_names"][0].as_str(), Some("web"));
    assert_eq!(t["launcher"].as_array().map(|a| a.len()), Some(0));
}

#[test]
fn long_rows_of_quotes_are_refused() {
    let row = |q: &str, n: usize| q.repeat(n);
    for q in ["'", "\""] {
        let text = format!("a{}b", row(q, 255));
        assert!(is_quiet(&text));
        let file = save_calendar_source("", &text).unwrap();
        assert_eq!(table(&file)["calendar_source"].as_str(), Some(text.as_str()));
        let loud = format!("a{}b", row(q, 256));
        assert!(!is_quiet(&loud));
        let error = Err("a text holds 256 quotes in a row".to_string());
        assert_eq!(save_calendar_source(FILE, &loud), error);
        assert_eq!(save_workspace_names(FILE, &vec!["x".to_string(), loud.clone()]), error);
        assert_eq!(save_launcher(FILE, &vec![entry("x", &loud)]), error);
        assert_eq!(save_keybinding(FILE, "exit", &loud), error);
        let escaped = loud.replace('"', "\\\"");
        let deep = format!("[a]\nb = [[{{ c = \"{}\" }}]]\n", escaped);
        assert_eq!(save_workspaces(&deep, 4), error);
        assert!(save_workspaces(&deep.replace("a'", "a' ").replace("a\\\"", "a\\\" "), 4).is_ok());
    }
    assert!(is_quiet(&row("'\"", 400)));
}

#[test]
fn saved_launcher_gives_back_all_fields() {
    let full = LauncherEntry {
        name: "n".to_string(),
        command: "c".to_string(),
        args: "a".to_string(),
        dir: "d".to_string(),
        key: "k".to_string(),
        group: "g".to_string(),
    };
    let entries = vec![entry("x", "\"y\" 'z'"), full, entry("", "")];
    let t = table(&save_launcher(FILE, &entries).unwrap());
    assert_eq!(t["outer_gap"].as_integer(), Some(12));
    let list = t["launcher"].as_array().unwrap();
    assert_eq!(list.len(), 3);
    for (e, v) in entries.iter().zip(list) {
        let field = |k: &str| v.get(k).and_then(|x| x.as_str()).unwrap_or("").to_string();
        assert_eq!(
            (field("name"), field("command"), field("args")),
            (e.name.clone(), e.command.clone(), e.args.clone())
        );
        assert_eq!(
            (field("dir"), field("key"), field("group")),
            (e.dir.clone(), e.key.clone(), e.group.clone())
        );
    }
}

#[test]
fn dates_of_other_programs_are_kept() {
    let dates = [
        "1979-05-27",
        "2024-02-29",
        "07:32:00",
        "23:59:60.000000001",
        "1979-05-27T07:32:00",
        "1979-05-27T07:32:00.5Z",
        "1979-05-27t00:32:00.999999-07:00",
        "1979-05-27 07:32:00+00:00",
    ];
    for d in dates {
        let file = format!("outer_gap = 12\nseen = {}\nall = [{}, {}]\n[x]\ny = {{ z = {} }}\n", d, d, d, d);
        let entries = vec![entry("x", "y"), entry("", "")];
        let saved = table(&save_launcher(&file, &entries).unwrap());
        let mut expected = table(&file);
        set_launcher(&mut expected, &entries);
        assert_eq!(saved, expected, "{}", d);
    }
    assert!(save_workspaces("seen = 2023-02-29", 4).is_err());
}

#[test]
fn floats_are_kept() {
    for x in ["0.1", "-0.0", "1e300", "inf", "-inf", "5e-324"] {
        let file = format!("x = {}\n", x);
        let t = table(&save_workspaces(&file, 4).unwrap());
        let bits = |t: &toml::Table| t["x"].as_float().map(|f| f.to_bits());
        assert_eq!(bits(&t), bits(&table(&file)), "{}", x);
    }
    let t = table(&save_workspaces("x = nan\n", 4).unwrap());
    let x = t["x"].as_float().unwrap();
    assert!(x.is_nan() && x.is_sign_positive());
}

#[test]
fn deep_files_are_written() {
    let path = |n: usize| vec!["a"; n].join(".");
    let lists = |n: usize| format!("{}{}", "[".repeat(n), "]".repeat(n));
    for file in [
        format!("[{}]\n", path(79)),
        format!("a = {}\n", lists(79)),
        format!("[{}]\nb = {}\n", path(40), lists(39)),
        format!("a = {}{{}}{}\n", "[".repeat(78), "]".repeat(78)),
    ] {
        let mut expected = table(&file);
        set_integer(&mut expected, "workspaces", 4);
        assert_eq!(table(&save_workspaces(&file, 4).unwrap()), expected);
    }
    let deeper = format!("{} = {{ {} = 1 }}\n", path(79), path(79));
    assert!(save_workspaces(&deeper, 4).unwrap().starts_with("workspaces = 4\n"));
}

#[test]
fn empty_file_has_no_settings() {
    let t = table(&save_launcher("", &vec![entry("x", "")]).unwrap());
    assert_eq!((t.len(), t["launcher"].as_array().map(|a| a.len())), (1, Some(1)));
}
