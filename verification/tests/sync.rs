use nvage::crypto::{decrypt, generate_key, parse_secret_key};
use nvage::note::{extract_title, Note};
use nvage::sync::{
    age_file_id, age_file_name, changed_ids_from_diff, conflict_path, head_of, local_note_ids,
    note_path, note_payload, note_plaintext, nothing_to_commit, pull_destination, push_count,
    read_pulled_note, stage_args, PullTally, commit_args, local_copy_of, pull_scope, push_files,
    LocalCopy, PullDestination, PullScope,
    remote_note_ids, select_changed, stale_remote_ids, sync_outcome, GitSyncProvider,
    SyncError, SyncProvider, SyncResult, SyncStatus,
};
use nvage::time::Timestamp;

const ID: u128 = 0x67e5_5044_10b1_426f_9247_bb68_0e5f_e0c8;
const ID_TEXT: &str = "67e55044-10b1-426f-9247-bb680e5fe0c8";

fn note(id: u128, content: &str, modified: i64) -> Note {
    Note {
        id,
        title: extract_title(content),
        content: content.to_string(),
        created: Timestamp { secs: 1774779300, nanos: 0 },
        modified: Timestamp { secs: modified, nanos: 0 },
        path: String::new(),
    }
}

fn strings(v: &[&str]) -> Vec<String> {
    v.iter().map(|s| s.to_string()).collect()
}

#[test]
fn provider_configuration() {
    let p = GitSyncProvider::new("git@host:notes.git".into(), "main".into(), "/tmp/repo".into());
    assert_eq!(p.remote_url, "git@host:notes.git");
    assert_eq!(p.branch, "main");
    assert_eq!(p.repo_path, "/tmp/repo");
    assert!(p.is_configured());
    assert_eq!(p.status(), SyncStatus::Idle);
    let q = GitSyncProvider::new(String::new(), "main".into(), "/tmp/repo".into());
    assert!(!q.is_configured());
    assert_eq!(q.status(), SyncStatus::NotConfigured);
}

#[test]
fn provider_public_key_comes_from_key_file() {
    let (public, secret) = generate_key().unwrap();
    assert_eq!(GitSyncProvider::public_key(&format!("{}\n", secret)).unwrap(), public);
    assert!(GitSyncProvider::public_key("nonsense").is_err());
}

#[test]
fn remote_files_are_named_by_id() {
    assert_eq!(age_file_name(ID), format!("{}.md.age", ID_TEXT));
    assert_eq!(age_file_id("abc.md.age"), Some("abc".to_string()));
    assert_eq!(age_file_id("abc.md.age.md.age"), Some("abc".to_string()));
    assert_eq!(age_file_id(".hidden.md.age"), None);
    assert_eq!(age_file_id("abc.md"), None);
}

#[test]
fn remote_ids_are_collected_once() {
    let names = strings(&["b.md.age", "README", ".git", "a.md.age", "b.md.age", ".x.md.age"]);
    assert_eq!(remote_note_ids(&names), strings(&["b", "a"]));
}

#[test]
fn stale_ids_are_those_without_local_note() {
    let remote = strings(&["a", "b", "c"]);
    let local = strings(&["b"]);
    assert_eq!(stale_remote_ids(&remote, &local), strings(&["a", "c"]));
    let notes = vec![note(ID, "# x", 1)];
    assert_eq!(local_note_ids(&notes), strings(&[ID_TEXT]));
}

#[test]
fn only_changed_notes_are_pushed() {
    let t = |s: i64| Timestamp { secs: s, nanos: 0 };
    let notes = vec![note(1, "# new", 1), note(2, "# edited", 1), note(3, "# same", 1)];
    let stamps = vec![None, Some((t(20), t(10))), Some((t(10), t(10)))];
    let changed = select_changed(notes, &stamps);
    let titles: Vec<&str> = changed.iter().map(|n| n.title.as_str()).collect();
    assert_eq!(titles, vec!["new", "edited"]);
}

#[test]
fn pushed_payload_decrypts_to_note_text() {
    let (public, secret) = generate_key().unwrap();
    let n = note(ID, "# Secret title\nsecret body", 5);
    let payload = note_payload(&n, &public).unwrap();
    let text = String::from_utf8_lossy(&payload);
    assert!(!text.contains("Secret title"));
    let identity = parse_secret_key(&secret).unwrap();
    let plain = decrypt(&identity, &payload).unwrap();
    assert_eq!(plain, note_plaintext(&n));
    let (pulled, stem) = read_pulled_note(&plain);
    assert_eq!(pulled.id, ID);
    assert_eq!(pulled.created, n.created);
    assert_eq!(pulled.content, n.content);
    assert_eq!(pulled.title, "Secret title");
    assert_eq!(stem, "secret-title");
}

#[test]
fn payload_with_bad_key_names_the_note() {
    match note_payload(&note(ID, "x", 1), "bad") {
        Err(SyncError::EncryptNote { id, reason }) => {
            assert_eq!(id, ID_TEXT);
            assert!(reason.starts_with("Invalid public key: "));
        }
        other => panic!("unexpected {:?}", other.is_ok()),
    }
}

#[test]
fn git_output_is_read() {
    assert!(nothing_to_commit(b"  \n"));
    assert!(!nothing_to_commit(b"M  a.md.age\n"));
    assert_eq!(head_of(b"0123abcd\n"), "0123abcd");
    let diff = b"a.md.age\nREADME.md\nsub/b.md.age\r\nc.md\n";
    assert_eq!(changed_ids_from_diff(diff), strings(&["a", "b"]));
}

#[test]
fn pulled_note_paths() {
    assert_eq!(note_path("/notes", "todo"), "/notes/todo.md");
    // 2024-01-02T03:04:05Z
    let now = Timestamp { secs: 1704164645, nanos: 0 };
    assert_eq!(conflict_path("/notes", "todo", &now, None), "/notes/todo.conflict-2024-01-02.md");
    assert_eq!(
        conflict_path("/notes/", "todo", &now, Some(12)),
        "/notes/todo.conflict-2024-01-02-12.md"
    );
}

#[test]
fn sync_outcome_reports_conflicts() {
    let r = sync_outcome(2, 3, vec![]);
    assert_eq!(r.status, SyncStatus::Idle);
    assert_eq!((r.notes_pushed, r.notes_pulled), (2, 3));
    let r = sync_outcome(0, 1, strings(&["/n/a.conflict-2024-01-02.md"]));
    assert_eq!(r.status, SyncStatus::Conflict(strings(&["/n/a.conflict-2024-01-02.md"])));
    assert_eq!(r.conflicts, strings(&["/n/a.conflict-2024-01-02.md"]));
}

struct Scripted {
    pushed: usize,
    conflicts: Vec<String>,
}

impl SyncProvider for Scripted {
    fn is_configured(&self) -> bool {
        true
    }
    fn status(&self) -> SyncStatus {
        SyncStatus::Idle
    }
    fn push(&self, _: &str, _: &str) -> Result<usize, SyncError> {
        Ok(self.pushed)
    }
    fn pull(&self, _: &str, _: &str) -> Result<(usize, Vec<String>), SyncError> {
        Ok((4, self.conflicts.clone()))
    }
}

#[test]
fn full_sync_pushes_then_pulls() {
    let p = Scripted { pushed: 1, conflicts: vec![] };
    let r: SyncResult = p.sync("/n", "/k").unwrap();
    assert_eq!((r.notes_pushed, r.notes_pulled), (1, 4));
    assert_eq!(r.status, SyncStatus::Idle);
    let q = Scripted { pushed: 0, conflicts: strings(&["c"]) };
    assert_eq!(q.sync("/n", "/k").unwrap().status, SyncStatus::Conflict(strings(&["c"])));
}

fn dest(path: &str, conflict: bool, fresh: bool) -> PullDestination {
    PullDestination { path: path.to_string(), conflict, fresh }
}

#[test]
fn pulled_notes_go_to_free_names() {
    let now = Timestamp { secs: 1704164645, nanos: 0 };
    let absent = LocalCopy::Absent;
    assert_eq!(
        pull_destination("/notes", "todo", &absent, &now, &vec![]),
        dest("/notes/todo.md", false, true)
    );
    assert_eq!(
        pull_destination("/notes", "todo", &absent, &now, &vec![true, true]),
        dest("/notes/todo-2.md", false, true)
    );
    let unchanged = LocalCopy::Unchanged("/notes/old-name.md".to_string());
    assert_eq!(
        pull_destination("/notes", "todo", &unchanged, &now, &vec![true]),
        dest("/notes/old-name.md", false, false)
    );
    let changed = LocalCopy::Changed;
    assert_eq!(
        pull_destination("/notes", "todo", &changed, &now, &vec![]),
        dest("/notes/todo.conflict-2024-01-02.md", true, true)
    );
    assert_eq!(
        pull_destination("/notes", "todo", &changed, &now, &vec![true, true]),
        dest("/notes/todo.conflict-2024-01-02-2.md", true, true)
    );
    assert_eq!(
        pull_destination("/notes", "todo", &changed, &now, &vec![true, false, true]),
        dest("/notes/todo.conflict-2024-01-02-1.md", true, true)
    );
}

#[test]
fn local_copies_are_found_by_id() {
    let ids = strings(&["a", "b", "b"]);
    let paths = strings(&["/n/a.md", "/n/b.md", "/n/b2.md"]);
    let changed = vec![true, false, true];
    assert!(matches!(local_copy_of(&ids, &paths, &changed, &"a".to_string()), LocalCopy::Changed));
    match local_copy_of(&ids, &paths, &changed, &"b".to_string()) {
        LocalCopy::Unchanged(p) => assert_eq!(p, "/n/b.md"),
        other => panic!("unexpected {:?}", other),
    }
    assert!(matches!(local_copy_of(&ids, &paths, &changed, &"c".to_string()), LocalCopy::Absent));
}

#[test]
fn fresh_clones_pull_everything() {
    let h = Some("abc".to_string());
    assert_eq!(pull_scope(true, &h, &h), PullScope::All);
    assert_eq!(pull_scope(false, &None, &h), PullScope::All);
    assert_eq!(pull_scope(false, &h, &h), PullScope::Nothing);
    assert_eq!(pull_scope(false, &h, &Some("def".to_string())), PullScope::Diff);
    assert_eq!(pull_scope(false, &h, &None), PullScope::Nothing);
}

#[test]
fn pulls_are_counted() {
    let mut t = PullTally::new();
    t.record("/notes/a.md".to_string(), false);
    t.record("/notes/b.conflict-2024-01-02.md".to_string(), true);
    assert_eq!(t.pulled, 2);
    assert_eq!(t.conflicts, strings(&["/notes/b.conflict-2024-01-02.md"]));
}

#[test]
fn pushes_are_counted_and_staged() {
    assert_eq!(push_count(3, 2, false), 5);
    assert_eq!(push_count(3, 2, true), 0);
    assert_eq!(stage_args(), strings(&["add", "-A", "--", "*.md.age"]));
    assert_eq!(commit_args(), strings(&["commit", "-m", "Update notes"]));
}

#[test]
fn payload_is_an_age_file_for_the_key() {
    let (public, secret) = generate_key().unwrap();
    let n = note(ID, "# Hi\nthere", 5);
    let payload = note_payload(&n, &public).unwrap();
    assert!(payload.starts_with(b"age-encryption.org/v1\n"));
    let key = parse_secret_key(&secret).unwrap();
    assert_eq!(decrypt(&key, &payload).unwrap(), n.serialize().into_bytes());
}

#[test]
fn a_push_writes_one_encrypted_file_per_note() {
    let (public, secret) = generate_key().unwrap();
    let notes = vec![note(ID, "# One\nbody", 5), note(ID + 1, "# Two", 6)];
    let files = push_files(&notes, &public).unwrap();
    assert_eq!(files.len(), 2);
    assert_eq!(files[0].0, format!("{}.md.age", ID_TEXT));
    let key = parse_secret_key(&secret).unwrap();
    for (n, (_, bytes)) in notes.iter().zip(files.iter()) {
        assert!(bytes.starts_with(b"age-encryption.org/v1\n"));
        assert_eq!(decrypt(&key, bytes).unwrap(), n.serialize().into_bytes());
    }
    assert!(push_files(&notes, "age1bad").is_err());
    assert!(push_files(&vec![], "age1bad").unwrap().is_empty());
}
