use selenite_lamp::{parse_count, trigger_state, CountFileConfig, CountWatcher, EmailFileWatcher};

fn binding(file: &str, mode: &str) -> CountFileConfig {
    CountFileConfig { mode: mode.to_string(), file: file.to_string() }
}

fn paths(items: &[&str]) -> Vec<String> {
    items.iter().map(|p| p.to_string()).collect()
}

#[test]
fn watcher_binds_each_file_to_its_mode() {
    let w = CountWatcher::new(vec![binding("/a/mail", "mail"), binding("/b/jobs", "busy")]);
    assert_eq!(w.mode_of(&"/a/mail".to_string()), Some("mail".to_string()));
    assert_eq!(w.mode_of(&"/b/jobs".to_string()), Some("busy".to_string()));
    assert_eq!(w.mode_of(&"/c/other".to_string()), None);
    let mut watched = w.watched_paths();
    watched.sort();
    assert_eq!(watched, paths(&["/a/mail", "/b/jobs"]));
}

#[test]
fn file_configured_twice_keeps_later_mode() {
    let w = EmailFileWatcher::new(vec![
        binding("/a/mail", "first"),
        binding("/b/jobs", "busy"),
        binding("/a/mail", "second"),
    ]);
    assert_eq!(w.mode_of(&"/a/mail".to_string()), Some("second".to_string()));
    assert_eq!(w.watched_paths().len(), 2);
}

#[test]
fn burst_of_events_evaluates_path_once() {
    let w = CountWatcher::new(vec![binding("/a/mail", "mail")]);
    let batch: Vec<Vec<String>> = (0..5).map(|_| paths(&["/a/mail"])).collect();
    assert_eq!(w.touched_paths(&batch), paths(&["/a/mail"]));
}

#[test]
fn unwatched_paths_are_ignored() {
    let w = CountWatcher::new(vec![binding("/a/mail", "mail"), binding("/a/jobs", "busy")]);
    let batch = vec![
        paths(&["/a/other", "/a/jobs"]),
        paths(&[]),
        paths(&["/a/mail.swp", "/a/jobs", "/a/mail"]),
    ];
    assert_eq!(w.touched_paths(&batch), paths(&["/a/jobs", "/a/mail"]));
    assert!(w.touched_paths(&vec![paths(&["/x"])]).is_empty());
    assert!(w.touched_paths(&Vec::new()).is_empty());
}

#[test]
fn count_parsing() {
    assert_eq!(parse_count("5"), 5);
    assert_eq!(parse_count("0"), 0);
    assert_eq!(parse_count("+12"), 12);
    assert_eq!(parse_count("abc"), 0);
    assert_eq!(parse_count(""), 0);
    assert_eq!(parse_count("+"), 0);
    assert_eq!(parse_count("-3"), 0);
    assert_eq!(parse_count("1 2"), 0);
    assert_eq!(parse_count("18446744073709551615"), u64::MAX);
    assert_eq!(parse_count("18446744073709551616"), 0);
}

#[test]
fn malformed_or_missing_counts_switch_off() {
    assert!(!trigger_state(Some("abc")));
    assert!(!trigger_state(Some("")));
    assert!(!trigger_state(None));
    assert!(!trigger_state(Some("0")));
    assert!(trigger_state(Some("5")));
}

#[test]
fn counts_are_trimmed_before_parsing() {
    assert!(trigger_state(Some("  7\n")));
    assert!(!trigger_state(Some("\t0 \n")));
    assert_eq!(parse_count(" 7"), 0);
}

#[test]
fn parent_directories_are_watched_once() {
    let w = CountWatcher::new(vec![
        binding("/a/mail", "mail"),
        binding("/a/jobs", "busy"),
        binding("/b/c/n", "busy"),
        binding("/", "root"),
    ]);
    let mut dirs = w.watch_dirs();
    dirs.sort();
    assert_eq!(dirs, paths(&["/", "/a", "/b/c"]));
}
