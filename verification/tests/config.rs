use unified_launcher::config::{
    all_tokens_found, config_path, default_subtitle, default_title, load_config, lower_all,
    names_browser, validate_config, AppEntry, Category, Config, DEFAULT_CONFIG,
};

fn entry(name: &str, category: &str) -> AppEntry {
    AppEntry {
        name: name.to_owned(),
        description: String::new(),
        category: category.to_owned(),
        section: None,
        command: Vec::new(),
        url: None,
        workdir: None,
        preview: None,
        check_path: None,
        in_terminal: false,
        hold_terminal: false,
        clear_fontconfig: false,
        requires_browser: None,
        tags: Vec::new(),
    }
}

fn config(categories: Vec<Category>, apps: Vec<AppEntry>) -> Config {
    Config {
        title: default_title(),
        subtitle: default_subtitle(),
        usage_db: None,
        categories,
        apps,
    }
}

fn words(list: &[&str]) -> Vec<String> {
    list.iter().map(|s| s.to_string()).collect()
}

#[test]
fn has_default_titles() {
    assert_eq!(default_title(), "Neutron Imaging Launcher");
    assert_eq!(default_subtitle(), "Select the application you want to launch");
}

#[test]
fn the_argument_names_the_configuration_first() {
    let arg = Some("/a.toml".to_owned());
    let var = Some("/b.toml".to_owned());
    assert_eq!(config_path(arg, var.clone()), "/a.toml");
    assert_eq!(config_path(None, var), "/b.toml");
    assert_eq!(config_path(None, None), DEFAULT_CONFIG);
    assert_eq!(
        DEFAULT_CONFIG,
        "/SNS/VENUS/shared/software/git/rust_unified_launcher/applications.toml"
    );
}

#[test]
fn tells_why_there_is_no_configuration() {
    let unread = load_config("/a.toml", Err("gone".to_owned()));
    assert_eq!(unread.unwrap_err(), "Cannot read /a.toml: gone");
    let unparsed = load_config("/a.toml", Ok(Err("line 3".to_owned())));
    assert_eq!(unparsed.unwrap_err(), "Bad TOML in /a.toml: line 3");
    let cfg = config(Vec::new(), vec![entry("A", "x")]);
    let read = load_config("/a.toml", Ok(Ok(cfg)));
    assert_eq!(read.unwrap().apps[0].name, "A");
}

#[test]
fn checks_the_last_absolute_argument() {
    let mut a = entry("A", "x");
    assert_eq!(a.checked_path(), None);
    a.command = words(&["/bin/bash", "/opt/run.sh", "--fast"]);
    assert_eq!(a.checked_path(), Some("/opt/run.sh".to_owned()));
    a.check_path = Some("relative".to_owned());
    assert_eq!(a.checked_path(), Some("relative".to_owned()));
}

#[test]
fn availability_follows_the_checked_path() {
    let mut a = entry("A", "x");
    assert!(!a.available(true));
    a.command = words(&["tool"]);
    assert!(a.available(false));
    a.command = words(&["/bin/tool"]);
    assert!(!a.available(false));
    assert!(a.available(true));
}

#[test]
fn a_web_page_is_always_available() {
    let mut a = entry("A", "x");
    a.url = Some("https://a".to_owned());
    a.check_path = Some("/gone".to_owned());
    assert!(a.available(false));
}

#[test]
fn guesses_the_browser_from_command_and_tags() {
    let mut a = entry("A", "x");
    a.command = words(&["/opt/RunJupyter.sh"]);
    assert!(a.involves_browser());
    a.command = words(&["/opt/run.sh"]);
    assert!(!a.involves_browser());
    a.tags = words(&["Dashboard", "WEB"]);
    assert!(a.involves_browser());
    a.tags = Vec::new();
    a.url = Some("ftp://x".to_owned());
    assert!(a.involves_browser());
}

#[test]
fn the_browser_flag_decides() {
    let mut a = entry("A", "x");
    a.command = words(&["firefox"]);
    a.requires_browser = Some(false);
    assert!(!a.involves_browser());
    a.command = words(&["ls"]);
    a.requires_browser = Some(true);
    assert!(a.involves_browser());
}

#[test]
fn names_of_browsers() {
    for word in [
        "firefox", "chrome", "chromium", "browser", "jupyter", "marimo", "portal", "website", "web",
    ] {
        assert!(names_browser(&vec![format!("x{word}y")]));
    }
    assert!(!names_browser(&words(&["wed", "Firefox"])));
}

#[test]
fn every_word_must_match_somewhere() {
    let mut a = entry("CT Reconstruction", "x");
    a.description = "Neutron data".to_owned();
    a.tags = words(&["iBeatles"]);
    assert!(a.matches("ct recon"));
    assert!(a.matches("recon CT"));
    assert!(a.matches("neutron  beat"));
    assert!(!a.matches("ct xray"));
}

#[test]
fn the_web_page_is_not_searched() {
    let mut a = entry("Wiki", "x");
    a.url = Some("https://ornl.gov".to_owned());
    assert!(!a.matches("ornl"));
    assert!(a.matches("wiki"));
    assert!(!a.matches("wiki ornl"));
}

#[test]
fn an_empty_search_matches() {
    assert!(entry("A", "x").matches(""));
    assert!(entry("A", "x").matches(" \t"));
}

#[test]
fn case_is_ignored_beyond_ascii() {
    let mut a = entry("GRÖßE", "x");
    assert!(a.matches("größe"));
    a.name = "größe".to_owned();
    assert!(a.matches("GRÖ"));
    a.tags = words(&["CT scan"]);
    assert!(a.matches("ct GRÖ") && a.matches("CT"));
    assert_eq!(lower_all(&words(&["ÀB", "c"])), words(&["àb", "c"]));
}

#[test]
fn tokens_are_looked_for_as_given() {
    let fields = words(&["ab", "cd"]);
    assert!(all_tokens_found(&fields, &words(&["b", "c"])));
    assert!(!all_tokens_found(&fields, &words(&["bc"])));
    assert!(all_tokens_found(&Vec::new(), &Vec::new()));
}

#[test]
fn warns_about_unknown_categories() {
    let known = Category { id: "a".to_owned(), name: "A".to_owned(), passwords: Vec::new() };
    let cfg = config(vec![known], vec![entry("One", "a"), entry("Two", "b"), entry("3", "")]);
    assert_eq!(
        validate_config(&cfg),
        vec![
            "\"Two\" references unknown category \"b\"",
            "\"3\" references unknown category \"\"",
        ]
    );
    assert!(cfg.has_category(&"a".to_owned()));
    assert!(!cfg.has_category(&"A".to_owned()));
}
