use nvage::paths::{file_name_of, is_markdown_path, join_path};
use nvage::text::decimal_exec;
use nvage::time::Timestamp;
use nvage::util::{age_candidates, git_candidates, locate_step, LocateStep};
use nvage::watcher::{changed_md_files, ChangeKind};

#[test]
fn paths() {
    assert_eq!(join_path("", "a.md"), "a.md");
    assert_eq!(join_path("/n", "a.md"), "/n/a.md");
    assert_eq!(join_path("/n", "/etc/a.md"), "/etc/a.md");
    assert_eq!(join_path("/n/", "a.md"), "/n/a.md");
    assert_eq!(file_name_of("/n/a.md"), Some("a.md".to_string()));
    assert_eq!(file_name_of("/n/a.md/"), Some("a.md".to_string()));
    assert_eq!(file_name_of("/n/./"), Some("n".to_string()));
    assert_eq!(file_name_of("/n/.."), None);
    assert_eq!(file_name_of("/"), None);
    assert!(is_markdown_path("/n/a.md"));
    assert!(is_markdown_path("..md"));
    assert!(!is_markdown_path("/n/.md"));
    assert!(!is_markdown_path("/n/a.md.age"));
    assert!(!is_markdown_path("/n/amd"));
}

#[test]
fn numbers_and_times() {
    assert_eq!(decimal_exec(0), "0");
    assert_eq!(decimal_exec(1234567), "1234567");
    assert_eq!(Timestamp::from_parts(59, 1_500_000_000), Some(Timestamp { secs: 59, nanos: 1_500_000_000 }));
    assert_eq!(Timestamp::from_parts(60, 1_500_000_000), None);
    assert_eq!(Timestamp::from_parts(-1, 1_500_000_000), Some(Timestamp { secs: -1, nanos: 1_500_000_000 }));
    assert_eq!(Timestamp::from_parts(i64::MAX, 0), None);
}

#[test]
fn locating_programs() {
    let git = git_candidates();
    assert_eq!(git.len(), 5);
    assert_eq!(git[4], "git");
    assert_eq!(age_candidates()[0], "/usr/bin/age");
    assert_eq!(locate_step(Some("/x/git"), &git, &vec![]), LocateStep::Use("/x/git".into()));
    assert_eq!(locate_step(Some(""), &git, &vec![]), LocateStep::Probe("/usr/bin/git".into()));
    assert_eq!(locate_step(None, &git, &vec![false]), LocateStep::Probe("/usr/local/bin/git".into()));
    assert_eq!(locate_step(None, &git, &vec![false, true]), LocateStep::Use("/usr/local/bin/git".into()));
    assert_eq!(locate_step(None, &git, &vec![false; 5]), LocateStep::Missing);
}

#[test]
fn watcher_events() {
    let paths = vec!["/n/a.md".to_string(), "/n/b.txt".to_string(), "/n/c.md".to_string()];
    assert_eq!(
        changed_md_files(ChangeKind::Modify, &paths),
        Some(vec!["/n/a.md".to_string(), "/n/c.md".to_string()])
    );
    assert_eq!(changed_md_files(ChangeKind::Other, &paths), None);
    assert_eq!(changed_md_files(ChangeKind::Create, &vec!["/n/x".to_string()]), None);
}
