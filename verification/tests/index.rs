use nvage::index::{
    id_note_path, make_preview, note_has_id, note_record, search_plan, search_result,
    should_reindex, SearchPlan,
};
use nvage::note::Note;
use nvage::time::Timestamp;

#[test]
fn previews_show_the_line_after_the_title() {
    assert_eq!(make_preview("# Title\n\n---\nSecond line\nthird"), "Second line");
    assert_eq!(make_preview("# Only a title\n   \n"), "");
    assert_eq!(make_preview(""), "");
    let long = format!("# T\n{}", "é".repeat(120));
    assert_eq!(make_preview(&long), "é".repeat(100));
}

#[test]
fn a_lone_carriage_return_ends_no_line() {
    assert_eq!(make_preview("# T\nabc\r"), "abc\r");
    assert_eq!(make_preview("# T\r\nabc\r\nmore"), "abc");
    assert_eq!(make_preview("# T\na\rb\n"), "a\rb");
}

#[test]
fn short_queries_browse() {
    assert_eq!(search_plan(""), SearchPlan::Recent);
    assert_eq!(search_plan("   "), SearchPlan::Recent);
    assert_eq!(search_plan(" ab "), SearchPlan::Recent);
    assert_eq!(search_plan("é"), SearchPlan::Recent);
    // two characters, four bytes
    assert_eq!(search_plan("éé"), SearchPlan::Matching("%éé%".to_string()));
}

#[test]
fn longer_queries_match_as_typed() {
    assert_eq!(search_plan("abc"), SearchPlan::Matching("%abc%".to_string()));
    assert_eq!(search_plan(" don't "), SearchPlan::Matching("% don't %".to_string()));
}

#[test]
fn results_and_records() {
    let r = search_result("id".into(), "T".into(), "# T\nline", "2024".into());
    assert_eq!(r.preview, "line");
    let n = Note {
        id: 1,
        title: "T".into(),
        content: "# T".into(),
        created: Timestamp { secs: 1704164645, nanos: 0 },
        modified: Timestamp { secs: 1704164645, nanos: 500_000_000 },
        path: "/n/t.md".into(),
    };
    let rec = note_record(&n);
    assert_eq!(rec.id, "00000000-0000-0000-0000-000000000001");
    assert_eq!(rec.created, "2024-01-02T03:04:05+00:00");
    assert_eq!(rec.modified, "2024-01-02T03:04:05.500+00:00");
    assert!(note_has_id(&n, "00000000-0000-0000-0000-000000000001"));
    assert!(!note_has_id(&n, "1"));
}

#[test]
fn changed_files() {
    assert_eq!(id_note_path("/n", "abc"), "/n/abc.md");
    assert_eq!(id_note_path("/n", "/x"), "/x.md");
    assert!(should_reindex(true, "/n/a.md"));
    assert!(!should_reindex(false, "/n/a.md"));
    assert!(!should_reindex(true, "/n/a.txt"));
}
