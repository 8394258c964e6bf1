use unified_launcher::config::{AppEntry, Category, Config};
use unified_launcher::listing::{layout_rows, sidebar, title_of, Row};
use unified_launcher::panel::{held_notice, prompt_title, scan_notice, Tone};
use unified_launcher::recent::{RecentEntry, RecentFile};
use unified_launcher::state::{
    App, ChildPoll, Housekeeping, LaunchStep, AVAILABILITY_PERIOD, CONFIG_CHECK_PERIOD,
    FAILURE_WINDOW, LAUNCH_COOLDOWN,
};
use unified_launcher::unlock::{password_accepted, password_among};

const SECOND: u64 = 1_000_000_000;

fn words(list: &[&str]) -> Vec<String> {
    list.iter().map(|s| s.to_string()).collect()
}

fn entry(name: &str, category: &str) -> AppEntry {
    AppEntry {
        name: name.to_owned(),
        description: String::new(),
        category: category.to_owned(),
        section: None,
        command: words(&["tool"]),
        url: None,
        workdir: None,
        preview: None,
        check_path: None,
        in_terminal: false,
        hold_terminal: false,
        clear_fontconfig: false,
        requires_browser: None,
        tags: Vec::new(),
    }
}

fn category(id: &str, passwords: &[&str]) -> Category {
    Category { id: id.to_owned(), name: id.to_uppercase(), passwords: words(passwords) }
}

/// Three open entries, one of which stands twice, and a protected one.
fn config() -> Config {
    Config {
        title: "T".to_owned(),
        subtitle: "S".to_owned(),
        usage_db: None,
        categories: vec![category("a", &[]), category("b", &[]), category("c", &["Word"])],
        apps: vec![
            entry("One", "a"),
            entry("Two", "a"),
            entry("One", "b"),
            entry("Secret", "c"),
            entry("Three", "b"),
        ],
    }
}

fn start() -> App {
    App::new(RecentFile::default(), Ok(config()), &vec![true; 5])
}

#[test]
fn periods_are_in_nanoseconds() {
    assert_eq!(LAUNCH_COOLDOWN, 5 * SECOND);
    assert_eq!(FAILURE_WINDOW, 15 * SECOND);
    assert_eq!(CONFIG_CHECK_PERIOD, SECOND);
    assert_eq!(AVAILABILITY_PERIOD, 5 * SECOND);
}

#[test]
fn starts_with_the_search_bar() {
    let app = start();
    assert!(app.focus_search);
    assert_eq!(app.available, vec![true; 5]);
    assert!(app.config_warnings.is_empty());
    assert_eq!(app.title(), "T");
    assert_eq!(app.subtitle(), "S");
    assert_eq!(app.app_name(Some(3)), Some("Secret".to_owned()));
    assert_eq!(app.app_name(Some(5)), None);
    assert_eq!(app.app_name(None), None);
}

#[test]
fn starts_without_a_configuration() {
    let app = App::new(RecentFile::default(), Err("bad".to_owned()), &Vec::new());
    assert!(app.available.is_empty());
    assert_eq!(app.title(), "Neutron Imaging Launcher");
    assert_eq!(app.subtitle(), "Select the application you want to launch");
    assert_eq!(app.app_name(Some(0)), None);
}

#[test]
fn hides_locked_entries() {
    let mut app = start();
    let f = app.frame();
    assert_eq!(f.locked, words(&["c"]));
    assert_eq!(f.visible, vec![0, 1, 2, 4]);
    assert_eq!(f.display_order, vec![0, 1, 2, 4]);
    app.search = "secret".to_owned();
    assert!(app.frame().visible.is_empty());
    assert_eq!(app.enter_target(&app.frame()), None);
}

#[test]
fn the_search_narrows_the_list() {
    let mut app = start();
    app.search = "ONE".to_owned();
    let f = app.frame();
    assert_eq!(f.visible, vec![0, 2]);
    assert!(f.recent_rows.is_empty());
    app.active_category = Some("b".to_owned());
    assert_eq!(app.frame().visible, vec![2]);
}

#[test]
fn recently_used_entries_come_first_and_once() {
    let mut app = start();
    app.recent.record(&"One".to_owned(), 10);
    app.recent.record(&"Secret".to_owned(), 30);
    app.recent.record(&"Three".to_owned(), 20);
    app.recent.record(&"Gone".to_owned(), 40);
    let f = app.frame();
    assert_eq!(f.recent_rows, vec![4, 0]);
    assert_eq!(f.display_order, vec![4, 0, 1]);
    app.search = "o".to_owned();
    assert!(app.frame().recent_rows.is_empty());
}

#[test]
fn five_recent_entries_are_shown() {
    let mut cfg = config();
    cfg.apps = (0..7).map(|i| entry(&format!("E{i}"), "a")).collect();
    let mut recent = RecentFile::default();
    for i in 0..7 {
        let epoch = if i == 2 { 100 } else { 50 };
        recent.put(format!("E{i}"), RecentEntry { count: 1, last_epoch: epoch });
    }
    let app = App::new(recent, Ok(cfg), &vec![true; 7]);
    let f = app.frame();
    assert_eq!(f.recent_rows, vec![2, 0, 1, 3, 4]);
    assert_eq!(f.display_order, vec![2, 0, 1, 3, 4, 5, 6]);
}

#[test]
fn the_last_launch_comes_first() {
    let mut app = start();
    app.recent.record(&"Two".to_owned(), 5);
    app.launched(4, 0, None, 6);
    assert_eq!(app.frame().recent_rows, vec![4, 1]);
}

#[test]
fn headings_stand_where_category_and_section_change() {
    let mut cfg = config();
    cfg.apps[0].section = Some("S".to_owned());
    cfg.apps[1].section = Some("S".to_owned());
    cfg.apps[2].section = Some("S".to_owned());
    cfg.apps.push(entry("Lost", "zzz"));
    let app = App::new(RecentFile::default(), Ok(cfg), &vec![true; 6]);
    let rows = app.rows(&app.frame());
    assert_eq!(
        rows,
        vec![
            Row::Category("A".to_owned()),
            Row::Section("S".to_owned()),
            Row::App(0),
            Row::App(1),
            Row::Category("B".to_owned()),
            Row::Section("S".to_owned()),
            Row::App(2),
            Row::App(4),
            Row::Category("zzz".to_owned()),
            Row::App(5),
        ]
    );
}

#[test]
fn a_chosen_category_has_no_heading() {
    let mut app = start();
    app.active_category = Some("a".to_owned());
    assert_eq!(app.rows(&app.frame()), vec![Row::App(0), Row::App(1)]);
    let cfg = config();
    assert_eq!(title_of(&cfg.categories, &"b".to_owned()), "B");
    assert_eq!(title_of(&cfg.categories, &"q".to_owned()), "q");
    assert!(layout_rows(&cfg.apps, &cfg.categories, true, &Vec::new()).is_empty());
}

#[test]
fn the_sidebar_counts_entries() {
    let cfg = config();
    let active = Some("b".to_owned());
    let tabs = sidebar(&cfg.apps, &cfg.categories, &words(&["c"]), &active);
    let labels: Vec<&str> = tabs.iter().map(|t| t.label.as_str()).collect();
    assert_eq!(labels, vec!["All applications  (4)", "A  (2)", "B  (2)", "🔒 C"]);
    let chosen: Vec<bool> = tabs.iter().map(|t| t.active).collect();
    assert_eq!(chosen, vec![false, false, true, false]);
    assert_eq!(tabs[0].id, None);
    assert_eq!(tabs[3].id, Some("c".to_owned()));
}

#[test]
fn arrow_keys_move_the_choice() {
    let mut app = start();
    let f = app.frame();
    app.navigate(&f, false, false);
    assert_eq!(app.highlighted, None);
    app.navigate(&f, true, false);
    assert_eq!(app.highlighted, Some(0));
    assert!(app.scroll_to_highlight);
    app.navigate(&f, true, false);
    assert_eq!(app.highlighted, Some(0));
    app.navigate(&f, false, true);
    app.navigate(&f, false, true);
    assert_eq!(app.highlighted, Some(2));
    assert_eq!(app.selected, Some(2));
    app.navigate(&f, true, true);
    app.navigate(&f, false, true);
    assert_eq!(app.highlighted, Some(4));
    app.navigate(&f, true, false);
    assert_eq!(app.highlighted, Some(2));
}

#[test]
fn a_hidden_choice_starts_over() {
    let mut app = start();
    app.highlighted = Some(3);
    let f = app.frame();
    app.navigate(&f, false, true);
    assert_eq!(app.highlighted, Some(0));
}

#[test]
fn enter_launches_the_choice_or_the_first_result() {
    let mut app = start();
    assert_eq!(app.enter_target(&app.frame()), None);
    app.highlighted = Some(1);
    assert_eq!(app.enter_target(&app.frame()), Some(1));
    app.search = "three".to_owned();
    assert_eq!(app.enter_target(&app.frame()), Some(4));
}

#[test]
fn escape_clears_and_closes() {
    let mut app = start();
    app.focus_search = false;
    app.search = "x".to_owned();
    assert!(!app.escape());
    assert_eq!(app.search, "");
    assert!(app.focus_search);
    assert!(app.escape());
}

#[test]
fn hovering_previews() {
    let mut app = start();
    app.hover(2);
    assert_eq!(app.selected, Some(2));
    assert_eq!(app.highlighted, None);
}

#[test]
fn a_password_unlocks_for_the_session() {
    let mut app = start();
    let f = app.frame();
    assert_eq!(app.locked_prompt(&f), None);
    app.click_category(&f, Some("c".to_owned()));
    assert!(app.focus_password);
    let f = app.frame();
    assert_eq!(app.locked_prompt(&f), Some(2));
    assert!(f.visible.is_empty() && f.display_order.is_empty());
    assert_eq!(app.enter_target(&f), None);
    app.password_input = "wrong".to_owned();
    app.focus_password = false;
    app.submit_password(2);
    assert!(app.password_wrong && app.focus_password);
    assert_eq!(app.password_input, "");
    assert_eq!(app.status, None);
    app.password_input = " wORD\t".to_owned();
    app.submit_password(2);
    assert!(!app.password_wrong);
    assert_eq!(app.status, Some(Ok("C unlocked".to_owned())));
    assert_eq!(app.unlocked, words(&["c"]));
    let f = app.frame();
    assert_eq!(app.locked_prompt(&f), None);
    assert_eq!(f.visible, vec![3]);
    app.reload(Ok(config()), &vec![true; 5], false);
    assert_eq!(app.frame().visible, vec![3]);
    app.submit_password(2);
    assert_eq!(app.unlocked, words(&["c"]));
}

#[test]
fn passwords_ignore_case_and_space() {
    let list = words(&["Été", "two words"]);
    assert!(password_accepted(&list, "  éTÉ "));
    assert!(password_accepted(&list, "TWO WORDS"));
    assert!(!password_accepted(&list, "two"));
    assert!(password_accepted(&words(&["Été", "Word"]), "wORD\u{2003}"));
    assert!(!password_accepted(&words(&[""]), "  "));
    assert!(password_among(&words(&["a"]), &"a".to_owned()));
    assert!(!password_among(&words(&[""]), &String::new()));
}

#[test]
fn a_click_empties_the_prompt() {
    let mut app = start();
    app.password_input = "x".to_owned();
    app.password_wrong = true;
    let f = app.frame();
    app.click_category(&f, None);
    assert_eq!(app.active_category, None);
    assert_eq!(app.password_input, "");
    assert!(!app.password_wrong && !app.focus_password);
}

#[test]
fn an_entry_cools_down() {
    let mut app = start();
    assert_eq!(app.begin_launch(0, 10 * SECOND), LaunchStep::Start);
    assert!(app.cooling(0, 10 * SECOND));
    assert!(!app.cooling(1, 10 * SECOND));
    assert_eq!(app.begin_launch(0, 15 * SECOND - 1), LaunchStep::Refuse);
    assert_eq!(app.begin_launch(1, 15 * SECOND - 1), LaunchStep::Start);
    assert_eq!(app.begin_launch(0, 15 * SECOND), LaunchStep::Start);
}

#[test]
fn a_missing_entry_is_refused() {
    let mut app = start();
    app.available[0] = false;
    assert_eq!(app.begin_launch(0, 0), LaunchStep::Refuse);
    assert!(!app.browser_checked(0, 0, None));
    assert!(app.last_launch.is_empty());
}

fn with_page() -> App {
    let mut cfg = config();
    cfg.apps[1].url = Some("https://a".to_owned());
    App::new(RecentFile::default(), Ok(cfg), &vec![true; 5])
}

#[test]
fn a_browser_elsewhere_holds_the_launch() {
    let mut app = with_page();
    assert_eq!(app.begin_launch(1, 0), LaunchStep::CheckBrowser);
    assert!(!app.browser_checked(1, 0, Some("venus2".to_owned())));
    assert_eq!(app.held.as_ref().map(|h| (h.app, h.machine.as_str())), Some((1, "venus2")));
    assert!(app.last_launch.is_empty());
    assert_eq!(app.launch_anyway(SECOND), Some(1));
    assert!(app.held.is_none());
    assert!(app.cooling(1, SECOND));
    assert_eq!(app.launch_anyway(SECOND), None);
}

#[test]
fn a_held_launch_can_be_given_up() {
    let mut app = with_page();
    assert!(!app.browser_checked(1, 0, Some("venus2".to_owned())));
    app.cancel_held();
    assert!(app.held.is_none());
    assert!(app.browser_checked(1, 0, None));
    assert!(app.cooling(1, 0));
}

#[test]
fn a_launch_is_reported_watched_and_noted() {
    let mut app = with_page();
    app.launched(0, 7, Some(b"/log".to_vec()), 99);
    assert_eq!(app.status, Some(Ok("Launched: One".to_owned())));
    assert_eq!(app.pending.len(), 1);
    assert_eq!(app.pending[0].started, 7);
    assert!(!app.pending[0].browserish);
    let noted = app.recent.get(&"One".to_owned());
    assert_eq!(noted, Some(RecentEntry { count: 1, last_epoch: 99 }));
    app.launched(1, 8, None, 100);
    assert_eq!(app.status, Some(Ok("Opened: Two".to_owned())));
    assert!(app.pending[1].browserish);
    app.launch_failed("no".to_owned());
    assert_eq!(app.status, Some(Err("no".to_owned())));
}

#[test]
fn draws_faster_while_something_happens() {
    let mut app = start();
    assert!(!app.fast_repaint(0));
    app.begin_launch(0, 0);
    assert!(app.fast_repaint(5 * SECOND - 1));
    assert!(!app.fast_repaint(5 * SECOND));
    app.launched(0, 0, None, 1);
    assert!(app.fast_repaint(100 * SECOND));
}

#[test]
fn an_early_failure_is_told() {
    let mut app = start();
    app.launched(0, 0, Some(b"/l".to_vec()), 1);
    app.launched(1, 0, None, 1);
    app.launched(4, 0, None, 1);
    let polls = vec![
        ChildPoll::Exited { success: false, code: Some(3) },
        ChildPoll::Running,
        ChildPoll::Lost,
    ];
    let failure = app.poll_pending(15 * SECOND - 1, &polls).unwrap();
    assert_eq!(failure.name, "One");
    assert_eq!(failure.code, "3");
    assert_eq!(app.pending.len(), 1);
    assert_eq!(app.pending[0].name, "Two");
    assert!(!app.report_failure(&failure, &None, true));
    assert_eq!(app.status, Some(Err("One exited (code 3) — see /l".to_owned())));
}

#[test]
fn late_and_good_exits_are_silent() {
    let mut app = start();
    app.launched(0, 0, None, 1);
    app.launched(1, 0, None, 1);
    let polls = vec![
        ChildPoll::Exited { success: false, code: None },
        ChildPoll::Exited { success: true, code: Some(0) },
    ];
    assert!(app.poll_pending(15 * SECOND, &polls).is_none());
    assert!(app.pending.is_empty());
}

#[test]
fn the_last_failure_is_told() {
    let mut app = start();
    app.launched(0, 0, None, 1);
    app.launched(1, 0, None, 1);
    let killed = ChildPoll::Exited { success: false, code: None };
    let failure = app.poll_pending(SECOND, &vec![killed, killed]).unwrap();
    assert_eq!((failure.name.as_str(), failure.code.as_str()), ("Two", "killed by signal"));
    app.report_failure(&failure, &None, false);
    assert_eq!(app.status, Some(Err("Two exited (code killed by signal)".to_owned())));
}

#[test]
fn a_locked_browser_is_scanned_for() {
    let mut app = start();
    app.launched(0, 0, None, 1);
    let failed = ChildPoll::Exited { success: false, code: Some(1) };
    let failure = app.poll_pending(SECOND, &vec![failed]).unwrap();
    let log = Some("profile IS IN USE".to_owned());
    assert!(!app.report_failure(&failure, &log, false));
    assert!(app.report_failure(&failure, &log, true));
    assert_eq!(
        app.status,
        Some(Err(
            "One exited (code 1) — scanning the analysis machines for an already-running browser…"
                .to_owned()
        ))
    );
    assert!(!app.start_browser_scan("Two", true));
    assert!(!app.start_browser_fix("Two", true));
    app.poll_browser_scan(None);
    assert!(app.browser_scan.as_ref().unwrap().output.is_none());
    app.poll_browser_scan(Some("[venus2] 1 process(es):".to_owned()));
    let scan = app.browser_scan.as_ref().unwrap();
    assert!(scan.show_window);
    assert_eq!(scan.app_name, "One");
    assert_eq!(
        app.status,
        Some(Err("One: your browser is already running on another machine".to_owned()))
    );
    app.close_report();
    assert!(!app.browser_scan.as_ref().unwrap().show_window);
}

#[test]
fn a_scan_that_finds_nothing_stays_quiet() {
    let mut app = start();
    assert!(!app.start_browser_scan("One", false));
    assert!(app.start_browser_scan("One", true));
    app.poll_browser_scan(Some("nothing".to_owned()));
    assert!(!app.browser_scan.as_ref().unwrap().show_window);
    assert_eq!(
        app.status,
        Some(Ok(
            "No already-running Firefox/Chrome/Jupyter found on the analysis machines".to_owned()
        ))
    );
    app.status = None;
    app.poll_browser_scan(Some("late".to_owned()));
    assert_eq!(app.status, None);
}

#[test]
fn the_report_of_a_fix_is_shown() {
    let mut app = start();
    assert!(app.start_browser_fix("One", true));
    assert!(app.browser_scan.as_ref().unwrap().fix);
    app.poll_browser_scan(Some("killed 2".to_owned()));
    assert!(app.browser_scan.as_ref().unwrap().show_window);
    assert_eq!(app.status, Some(Ok("Browser fix finished".to_owned())));
}

#[test]
fn a_reload_follows_names() {
    let mut app = start();
    app.selected = Some(4);
    app.highlighted = Some(1);
    app.active_category = Some("b".to_owned());
    app.search = "x".to_owned();
    let mut cfg = config();
    cfg.apps.remove(1);
    app.reload(Ok(cfg), &vec![false; 4], true);
    assert_eq!(app.selected, Some(3));
    assert_eq!(app.highlighted, None);
    assert_eq!(app.active_category, Some("b".to_owned()));
    assert_eq!(app.search, "x");
    assert_eq!(app.available, vec![true; 4]);
    assert_eq!(app.status, Some(Ok("Configuration reloaded".to_owned())));
    let mut cfg = config();
    cfg.categories.remove(1);
    app.reload(Ok(cfg), &vec![true; 5], false);
    assert_eq!(app.active_category, None);
    assert_eq!(app.config_warnings.len(), 2);
    assert_eq!(
        app.warnings_line().unwrap(),
        "⚠ \"One\" references unknown category \"b\"; \"Three\" references unknown category \"b\""
    );
}

#[test]
fn a_reload_that_fails_forgets_the_choice() {
    let mut app = start();
    app.selected = Some(0);
    app.highlighted = Some(0);
    app.config_file_changed(Err("bad".to_owned()), &Vec::new());
    assert_eq!((app.selected, app.highlighted), (None, None));
    assert!(app.available.is_empty());
    assert_eq!(app.status, Some(Ok("Configuration reloaded (file changed)".to_owned())));
    assert_eq!(app.warnings_line(), None);
}

#[test]
fn a_held_launch_follows_its_name() {
    let mut app = with_page();
    assert!(!app.browser_checked(1, 0, Some("venus2".to_owned())));
    let mut cfg = config();
    cfg.apps.swap(1, 4);
    app.reload(Ok(cfg), &vec![true; 5], false);
    assert_eq!(app.held.as_ref().map(|h| (h.app, h.machine.as_str())), Some((4, "venus2")));
}

#[test]
fn the_file_is_looked_at_every_second() {
    let mut app = start();
    assert!(!app.config_check_due(SECOND - 1));
    assert!(app.config_check_due(SECOND));
    assert!(!app.config_check_due(2 * SECOND - 1));
    assert_eq!(app.config_checked(SECOND, true), Housekeeping::Reload);
    assert_eq!(app.config_checked(SECOND, false), Housekeeping::Nothing);
    assert_eq!(app.config_checked(5 * SECOND, false), Housekeeping::RefreshAvailability);
    assert_eq!(app.config_checked(6 * SECOND, false), Housekeeping::Nothing);
}

#[test]
fn availability_is_refreshed() {
    let mut cfg = config();
    cfg.apps[0].command = words(&["/opt/x"]);
    let mut app = App::new(RecentFile::default(), Ok(cfg), &vec![true; 5]);
    app.refresh_available(&vec![false; 5]);
    assert_eq!(app.available, vec![false, true, true, true, true]);
}

#[test]
fn the_button_tells_what_it_does() {
    let mut a = entry("A", "a");
    a.command = words(&["tool", "-x"]);
    let ready = a.launch_button(true, false);
    assert_eq!((ready.label.as_str(), ready.enabled), ("Launch", true));
    assert_eq!(ready.hover, "tool -x");
    let cooling = a.launch_button(true, true);
    assert_eq!((cooling.label.as_str(), cooling.enabled), ("Launching...", false));
    assert_eq!(cooling.disabled_hover, "Starting, please wait...");
    a.command = words(&["/bin/x", "-y"]);
    let missing = a.launch_button(false, false);
    assert!(!missing.enabled);
    assert_eq!(missing.disabled_hover, "Not found: /bin/x");
    a.url = Some("https://a".to_owned());
    let page = a.launch_button(true, false);
    assert_eq!((page.label.as_str(), page.hover.as_str()), ("Open", "https://a"));
    assert_eq!(a.command_line(), "https://a");
    assert_eq!(a.target(), "https://a");
}

#[test]
fn tags_stand_in_one_line() {
    let mut a = entry("A", "a");
    assert_eq!(a.tags_line(), None);
    a.tags = words(&["x", "y"]);
    assert_eq!(a.tags_line(), Some("Tags: x, y".to_owned()));
}

#[test]
fn the_status_bar_has_a_tone() {
    let mut app = start();
    let idle = app.status_message();
    assert_eq!((idle.text.as_str(), idle.tone), ("Ready", Tone::Idle));
    app.status = Some(Ok("good".to_owned()));
    assert_eq!(app.status_message().tone, Tone::Good);
    app.status = Some(Err("bad".to_owned()));
    assert_eq!(app.status_message().tone, Tone::Bad);
    assert_eq!(app.status_message().text, "bad");
}

#[test]
fn windows_tell_why_they_opened() {
    assert_eq!(prompt_title("C"), "C is protected");
    assert_eq!(
        scan_notice("A"),
        "A could not open the browser: your Firefox/Chrome profile is on shared storage and is \
         locked by a session on the machine(s) listed below."
    );
    assert_eq!(
        held_notice("A", "venus2"),
        "A opens a browser, but your browser profile is on shared storage and is in use on venus2."
    );
}

#[test]
fn the_keyboard_follows_the_screen() {
    let mut app = start();
    app.recent.record(&"Two".to_owned(), 10);
    let f = app.frame();
    let mut shown = f.recent_rows.clone();
    for row in app.rows(&f) {
        if let Row::App(i) = row {
            shown.push(i);
        }
    }
    assert_eq!(shown, f.display_order);
    assert_eq!(shown, vec![1, 0, 2, 4]);
}

#[test]
fn the_sidebar_counts_what_a_click_shows() {
    let mut app = start();
    let f = app.frame();
    let cfg = config();
    let tabs = sidebar(&cfg.apps, &cfg.categories, &f.locked, &None);
    for tab in tabs.into_iter().take(3) {
        let label = tab.label;
        app.click_category(&f, tab.id);
        let n = app.frame().visible.len();
        assert!(label.ends_with(&format!("  ({n})")));
    }
}

#[test]
fn word_order_does_not_count() {
    let mut app = start();
    let mut found = Vec::new();
    for search in ["th ree", "REE tH", "\tree  th"] {
        app.search = search.to_owned();
        found.push(app.frame().visible);
    }
    assert_eq!(found, vec![vec![4]; 3]);
}

#[test]
fn the_cooldown_follows_the_application() {
    let mut app = start();
    assert_eq!(app.begin_launch(1, 0), LaunchStep::Start);
    let mut cfg = config();
    cfg.apps.swap(1, 4);
    app.reload(Ok(cfg), &vec![true; 5], false);
    assert!(!app.cooling(1, 5 * SECOND - 1));
    assert_eq!(app.begin_launch(4, 5 * SECOND - 1), LaunchStep::Refuse);
    assert_eq!(app.begin_launch(4, 5 * SECOND), LaunchStep::Start);
}

#[test]
fn the_cooldown_survives_a_failed_load() {
    let mut app = start();
    app.begin_launch(4, SECOND);
    app.config_file_changed(Err("bad".to_owned()), &Vec::new());
    assert!(!app.cooling(4, SECOND));
    let mut cfg = config();
    cfg.apps.remove(0);
    app.config_file_changed(Ok(cfg), &vec![true; 4]);
    assert!(app.cooling(3, 6 * SECOND - 1));
    assert!(!app.cooling(3, 6 * SECOND));
    assert!(!app.cooling(0, SECOND));
}

#[test]
fn entries_of_one_application_cool_together() {
    let mut app = start();
    assert_eq!(app.begin_launch(2, 3), LaunchStep::Start);
    assert_eq!(app.begin_launch(0, 7), LaunchStep::Refuse);
    assert!(app.cooling(0, 7) && app.cooling(2, 7) && !app.cooling(1, 7));
    app.reload(Ok(config()), &vec![true; 5], false);
    assert!(app.cooling(0, 7) && app.cooling(2, 7) && !app.cooling(1, 7));
    assert_eq!(app.begin_launch(0, 3 + 5 * SECOND), LaunchStep::Start);
    assert_eq!(app.last_launch, vec![("One".to_owned(), 3 + 5 * SECOND)]);
}

#[test]
fn a_held_launch_is_dropped_where_its_entry_is_hidden() {
    let mut app = with_page();
    assert!(!app.browser_checked(1, 0, Some("venus2".to_owned())));
    let mut cfg = config();
    cfg.categories[0].passwords = words(&["word"]);
    app.reload(Ok(cfg), &vec![true; 5], false);
    assert!(app.held.is_none());
    assert!(!app.browser_checked(3, 0, Some("venus2".to_owned())));
    assert_eq!(app.launch_anyway(0), None);
    assert!(app.held.is_none());
}
