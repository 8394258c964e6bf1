use unified_launcher::config::AppEntry;
use unified_launcher::launch::{
    choose_workdir, find_terminal, find_url_opener, log_header, opener_names, spawn_error,
    terminal_names, wrap_in_terminal,
};
use unified_launcher::shell::{shell_join, shell_quote};

fn words(list: &[&str]) -> Vec<String> {
    list.iter().map(|s| s.to_string()).collect()
}

fn entry(command: &[&str]) -> AppEntry {
    AppEntry {
        name: "Tool".to_owned(),
        description: String::new(),
        category: "x".to_owned(),
        section: None,
        command: words(command),
        url: None,
        workdir: None,
        preview: None,
        check_path: None,
        in_terminal: false,
        hold_terminal: false,
        clear_fontconfig: false,
        requires_browser: None,
        tags: Vec::new(),
    }
}

#[test]
fn quotes_for_the_shell() {
    assert_eq!(shell_quote("a b"), "'a b'");
    assert_eq!(shell_quote("it's"), "'it'\\''s'");
    assert_eq!(shell_quote(""), "''");
    assert_eq!(shell_join(&words(&["a", "b c"])), "'a' 'b c'");
}

#[test]
fn prefers_names_over_directories() {
    let dirs = vec![b"/usr/bin".to_vec(), b"/opt/".to_vec()];
    assert_eq!(opener_names(), ["xdg-open", "firefox", "google-chrome", "chromium-browser"]);
    let mut found = vec![vec![false; 2]; 4];
    assert_eq!(find_url_opener(&dirs, &found), None);
    found[1][0] = true;
    assert_eq!(find_url_opener(&dirs, &found), Some("/usr/bin/firefox".to_owned()));
    found[0][1] = true;
    assert_eq!(find_url_opener(&dirs, &found), Some("/opt/xdg-open".to_owned()));
}

#[test]
fn a_directory_that_is_not_text_is_shown_with_marks() {
    let dirs = vec![vec![b'/', 0xff]];
    let mut found = vec![vec![false]; 4];
    found[3][0] = true;
    assert_eq!(
        find_url_opener(&dirs, &found),
        Some("/\u{fffd}/chromium-browser".to_owned())
    );
}

#[test]
fn every_terminal_has_its_argument() {
    let dirs = vec![b"/bin".to_vec()];
    assert_eq!(terminal_names(), ["gnome-terminal", "konsole", "xfce4-terminal", "xterm"]);
    let args = ["--", "-e", "-x", "-e"];
    for n in 0..4 {
        let mut found = vec![vec![false]; 4];
        found[n][0] = true;
        let (program, given) = find_terminal(&dirs, &found).unwrap();
        assert_eq!(program, format!("/bin/{}", terminal_names()[n]));
        assert_eq!(given, words(&[args[n]]));
    }
    assert_eq!(find_terminal(&dirs, &vec![vec![false]; 4]), None);
}

#[test]
fn an_entry_without_command_cannot_start() {
    let mut a = entry(&[]);
    a.clear_fontconfig = true;
    let plan = a.launch(None, None);
    assert!(!plan.clear_fontconfig);
    assert_eq!(plan.start.unwrap_err(), "Tool: no command or url configured");
}

#[test]
fn a_page_without_opener_cannot_start() {
    let mut a = entry(&[]);
    a.url = Some("https://a".to_owned());
    a.clear_fontconfig = true;
    let plan = a.launch(None, None);
    assert!(plan.clear_fontconfig);
    assert_eq!(plan.start.unwrap_err(), "Tool: no browser opener (xdg-open/firefox) found");
}

#[test]
fn a_page_is_handed_to_the_opener() {
    let mut a = entry(&["ignored"]);
    a.url = Some("https://a".to_owned());
    let start = a.launch(Some("/bin/firefox".to_owned()), None).start.unwrap();
    assert_eq!(start.argv, words(&["/bin/firefox", "https://a"]));
    assert_eq!(start.workdir, "/");
}

#[test]
fn a_command_starts_beside_its_checked_path() {
    let a = entry(&["/bin/bash", "/opt/tools/run.sh"]);
    let start = a.launch(None, None).start.unwrap();
    assert_eq!(start.argv, words(&["/bin/bash", "/opt/tools/run.sh"]));
    assert_eq!(start.workdir, "/opt/tools");
    assert_eq!(a.checked_dir(), Some("/opt/tools".to_owned()));
    assert_eq!(entry(&["/run.sh"]).checked_dir(), Some("/".to_owned()));
    assert_eq!(entry(&["/"]).checked_dir(), None);
    assert_eq!(entry(&["run.sh"]).checked_dir(), None);
}

#[test]
fn a_relative_checked_path_has_a_directory() {
    let mut a = entry(&["tool"]);
    a.check_path = Some("run.sh".to_owned());
    assert_eq!(a.checked_dir(), Some(String::new()));
    a.check_path = Some("a/b".to_owned());
    assert_eq!(a.checked_dir(), Some("a".to_owned()));
}

#[test]
fn the_configured_directory_comes_first() {
    let mut a = entry(&["/opt/run.sh"]);
    a.workdir = Some("/data".to_owned());
    assert_eq!(a.launch(None, None).start.unwrap().workdir, "/data");
    assert_eq!(choose_workdir(&None, Some("/b".to_owned())), "/b");
    assert_eq!(choose_workdir(&None, None), "/");
}

#[test]
fn a_terminal_runs_the_command() {
    let mut a = entry(&["/opt/run.sh", "it's"]);
    a.in_terminal = true;
    let terminal = Some(("/bin/xterm".to_owned(), words(&["-e"])));
    let start = a.launch(None, terminal).start.unwrap();
    assert_eq!(start.argv, words(&["/bin/xterm", "-e", "/opt/run.sh", "it's"]));
    let direct = a.launch(None, None).start.unwrap();
    assert_eq!(direct.argv, words(&["/opt/run.sh", "it's"]));
}

#[test]
fn a_terminal_is_held_open() {
    let argv = words(&["run", "it's"]);
    let held = wrap_in_terminal(&"/bin/konsole".to_owned(), &words(&["-e"]), true, &argv);
    assert_eq!(
        held,
        words(&[
            "/bin/konsole",
            "-e",
            "/bin/bash",
            "-c",
            "'run' 'it'\\''s'; echo; read -r -p 'Press Enter to close...'",
        ])
    );
}

#[test]
fn the_log_begins_with_the_command() {
    assert_eq!(log_header(&words(&["a", "b c"])), "$ a b c\n");
    assert_eq!(spawn_error("/bin/a", "gone"), "Cannot launch /bin/a: gone");
}
