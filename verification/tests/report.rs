use nvage::report::{
    parse_direction, reindex_after, should_check_remote, status_report, sync_report,
    validation_report, SyncDirection,
};
use nvage::sync::SyncStatus;

#[test]
fn directions() {
    assert_eq!(parse_direction("push"), Ok(SyncDirection::Push));
    assert_eq!(parse_direction("pull"), Ok(SyncDirection::Pull));
    assert_eq!(parse_direction("full"), Ok(SyncDirection::Full));
    assert_eq!(
        parse_direction("sideways"),
        Err("Invalid sync direction. Use 'push', 'pull', or 'full'.".to_string())
    );
    assert!(!reindex_after(SyncDirection::Push));
    assert!(reindex_after(SyncDirection::Pull));
    assert!(reindex_after(SyncDirection::Full));
}

#[test]
fn sync_reports() {
    let r = sync_report(SyncDirection::Push, 3, 0, 0);
    assert_eq!((r.status.as_str(), r.message.as_str()), ("idle", "Pushed 3 notes"));
    let r = sync_report(SyncDirection::Pull, 0, 12, 2);
    assert_eq!(
        (r.status.as_str(), r.message.as_str()),
        ("conflict", "Pulled 12 notes, 2 conflicts detected")
    );
    let r = sync_report(SyncDirection::Pull, 0, 1, 0);
    assert_eq!((r.status.as_str(), r.message.as_str()), ("idle", "Pulled 1 notes"));
    let r = sync_report(SyncDirection::Full, 10, 0, 1);
    assert_eq!(
        (r.status.as_str(), r.message.as_str()),
        ("conflict", "Pushed 10 notes, pulled 0 notes")
    );
}

#[test]
fn status_reports() {
    let r = status_report(false, Some(SyncStatus::Idle));
    assert_eq!((r.status.as_str(), r.message.as_str()), ("not_configured", "No sync key configured"));
    let r = status_report(true, None);
    assert_eq!((r.status.as_str(), r.message.as_str()), ("not_configured", "Sync not configured"));
    let r = status_report(true, Some(SyncStatus::Idle));
    assert_eq!((r.status.as_str(), r.message.as_str()), ("idle", "Ready to sync"));
    let r = status_report(true, Some(SyncStatus::Error("boom".into())));
    assert_eq!((r.status.as_str(), r.message.as_str()), ("error", "boom"));
    let r = status_report(true, Some(SyncStatus::Conflict(vec!["a".into(), "b".into()])));
    assert_eq!((r.status.as_str(), r.message.as_str()), ("conflict", "2 conflicts detected"));
    let r = status_report(true, Some(SyncStatus::Syncing));
    assert_eq!(r.status, "syncing");
    let r = status_report(true, Some(SyncStatus::NotConfigured));
    assert_eq!(r.message, "Sync provider not configured");
}

#[test]
fn validation() {
    assert!(!should_check_remote(false, "url"));
    assert!(!should_check_remote(true, ""));
    assert!(should_check_remote(true, "url"));
    let r = validation_report(true, true, Some(true));
    assert!(r.errors.is_empty());
    assert!(r.remote_reachable);
    let r = validation_report(false, false, Some(false));
    assert_eq!(
        r.errors,
        vec![
            "Git is not installed. Install Git to use sync.".to_string(),
            "No encryption key found. Generate or import a key first.".to_string(),
            "Cannot reach remote repo. Check the URL and your access.".to_string(),
        ]
    );
    let r = validation_report(true, false, None);
    assert_eq!(r.errors.len(), 1);
    assert!(!r.remote_reachable);
}
