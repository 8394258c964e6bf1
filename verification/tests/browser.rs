use unified_launcher::browser::{
    cut_at, log_mentions_browser_lock, machine_holding_lock, mentions_lock, own_names, run_report,
    scan_found_processes, scan_report, BROWSER_SCAN_SCRIPT,
};

fn words(list: &[&str]) -> Vec<String> {
    list.iter().map(|s| s.to_string()).collect()
}

#[test]
fn the_script_has_its_place() {
    assert_eq!(
        BROWSER_SCAN_SCRIPT,
        "/SNS/VENUS/shared/software/bin/list_and_fix_running_browser.sh"
    );
}

#[test]
fn a_log_names_the_lock() {
    for text in ["already running", "is in use", "singleton", "parentlock", "profile directory"] {
        assert!(mentions_lock(&format!("x {text} y")));
    }
    assert!(!mentions_lock("Already Running"));
    assert!(log_mentions_browser_lock(&Some("Firefox is ALREADY Running".to_owned())));
    assert!(!log_mentions_browser_lock(&Some("fine".to_owned())));
    assert!(!log_mentions_browser_lock(&None));
}

#[test]
fn a_report_lists_machines_in_blocks() {
    assert!(scan_found_processes("Scanning\n  [venus1] 3 process(es):\n"));
    assert!(!scan_found_processes("venus1] 3 process(es):"));
    assert!(!scan_found_processes("[venus1] none\nprocess(es):"));
    assert!(!scan_found_processes(""));
}

#[test]
fn a_report_loses_its_hint() {
    let out = "[a] 1 process(es):\n\nRe-run with 'kill' to stop".to_owned();
    assert_eq!(scan_report(out, String::new()), "[a] 1 process(es):");
    assert_eq!(scan_report("all \n".to_owned(), "e".to_owned()), "all \n");
    assert_eq!(scan_report(" \n".to_owned(), "error\n".to_owned()), "error\n");
}

#[test]
fn a_run_is_reported() {
    let run = Ok((vec![b'a', 0xff], Vec::new()));
    assert_eq!(run_report(run), "a\u{fffd}");
    let failed = run_report(Err("gone".to_owned()));
    assert_eq!(failed, "Could not run the scan script: gone");
}

#[test]
fn cuts_at_the_first_mark() {
    assert_eq!(cut_at("a:b:c", ":"), "a");
    assert_eq!(cut_at("abc", ":"), "abc");
    assert_eq!(cut_at(":a", ":"), "");
}

#[test]
fn the_first_lock_held_elsewhere_counts() {
    let here = words(&["venus1", "10.0.0.1"]);
    let locks = words(&["10.0.0.1:+12", "venus2:+7", "venus3:+8"]);
    assert_eq!(machine_holding_lock(&locks, &here), Some("venus2".to_owned()));
    assert_eq!(machine_holding_lock(&words(&["venus1:+1", ":+2"]), &here), None);
    assert_eq!(machine_holding_lock(&Vec::new(), &here), None);
}

#[test]
fn this_machine_has_several_names() {
    let full = Some("venus1.ornl.gov".to_owned());
    let all = own_names("venus1".to_owned(), full, Some(" 10.0.0.1  fe80::1 ".to_owned()));
    let usual = ["venus1", "localhost", "127.0.0.1", "127.0.1.1"];
    assert_eq!(all[..4], usual);
    assert_eq!(all[4..], ["venus1.ornl.gov", "10.0.0.1", "fe80::1"]);
    assert_eq!(own_names("venus1".to_owned(), None, None), usual);
    assert_eq!(machine_holding_lock(&words(&["127.0.1.1:+3", "fe80:+1"]), &all).unwrap(), "fe80");
}
