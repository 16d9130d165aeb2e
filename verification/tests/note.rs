use nvage::note::{
    build_frontmatter, deserialize_content, extract_title, new_note, note_file_name,
    note_from_file, parse_frontmatter, prepare_update, serialize_note, slugify, sort_by_recency,
    to_summary, Note,
};
use nvage::time::Timestamp;

const ID: u128 = 0x67e5_5044_10b1_426f_9247_bb68_0e5f_e0c8;
const ID_TEXT: &str = "67e55044-10b1-426f-9247-bb680e5fe0c8";
// 2026-03-29T10:15:00Z
const CREATED: i64 = 1774779300;

fn note(content: &str, modified: i64) -> Note {
    Note {
        id: ID,
        title: extract_title(content),
        content: content.to_string(),
        created: Timestamp { secs: CREATED, nanos: 250 },
        modified: Timestamp { secs: modified, nanos: 0 },
        path: format!("/notes/{}.md", modified),
    }
}

#[test]
fn frontmatter_is_written_with_id_and_whole_second() {
    let text = build_frontmatter(ID, Timestamp { secs: CREATED, nanos: 999 });
    assert_eq!(text, format!("---\nid: {}\ncreated: 2026-03-29T10:15:00Z\n---\n", ID_TEXT));
}

#[test]
fn serialized_note_reads_back() {
    let n = note("# Shopping\n- eggs\n---\nnot front matter", 10);
    let text = serialize_note(&n);
    assert_eq!(text, n.serialize());
    let (id, created, body) = parse_frontmatter(&text);
    assert_eq!(id, Some(ID));
    assert_eq!(created, Some(Timestamp { secs: CREATED, nanos: 0 }));
    assert_eq!(body, n.content);
}

#[test]
fn frontmatter_missing_or_unclosed_leaves_content() {
    assert_eq!(parse_frontmatter("# Hello"), (None, None, "# Hello"));
    let unclosed = "---\nid: 67e55044-10b1-426f-9247-bb680e5fe0c8\nbody";
    assert_eq!(parse_frontmatter(unclosed), (None, None, unclosed));
}

#[test]
fn frontmatter_tolerates_spacing_and_bad_values() {
    let text = "---\n id :  67E55044-10B1-426F-9247-BB680E5FE0C8 \ncreated: yesterday\nother: x\n---\nbody";
    let (id, created, body) = parse_frontmatter(text);
    assert_eq!(id, Some(ID));
    assert_eq!(created, None);
    assert_eq!(body, "body");
}

#[test]
fn frontmatter_later_line_wins_and_offsets_convert() {
    let text = "---\nid: nope\ncreated: 2026-03-29T12:15:00+02:00\n---\n";
    let (id, created, body) = parse_frontmatter(text);
    assert_eq!(id, None);
    assert_eq!(created, Some(Timestamp { secs: CREATED, nanos: 0 }));
    assert_eq!(body, "");
}

#[test]
fn titles() {
    assert_eq!(extract_title("# My Great Idea\nbody"), "My Great Idea");
    assert_eq!(extract_title("  plain first line  \nmore"), "plain first line");
    assert_eq!(extract_title("#   spaced   \r\nx"), "spaced");
    assert_eq!(extract_title(""), "Untitled");
    assert_eq!(extract_title("   \nsecond"), "Untitled");
    assert_eq!(extract_title("#hashtag"), "#hashtag");
}

#[test]
fn slugs() {
    assert_eq!(slugify("My Test String!!!1!1"), "my-test-string-1-1");
    assert_eq!(slugify("You & Me"), "you-me");
    let fallback = slugify("!!!");
    assert!(fallback.starts_with("note-"));
    assert_eq!(fallback.len(), 5 + 36);
    assert_eq!(note_file_name("Shopping List"), "shopping-list.md");
}

#[test]
fn summary_preview_skips_rules_and_blanks() {
    let long = "x".repeat(150);
    let n = note(&format!("\n---\n   \n{}\nsecond", long), 5);
    let s = to_summary(&n);
    assert_eq!(s.id, ID);
    assert_eq!(s.title, n.title);
    assert_eq!(s.preview, "x".repeat(100));
    assert_eq!(s.modified, n.modified);
    assert_eq!(to_summary(&note("", 1)).preview, "");
}

#[test]
fn content_without_frontmatter_gets_fresh_identity() {
    let n = deserialize_content("# Title\ntext");
    assert_eq!(n.title, "Title");
    assert_eq!(n.content, "# Title\ntext");
    assert_eq!(n.path, "");
    let m = deserialize_content("# Title\ntext");
    assert_ne!(n.id, m.id);
}

#[test]
fn content_with_frontmatter_keeps_identity() {
    let text = serialize_note(&note("# Kept\nbody", 7));
    let n = deserialize_content(&text);
    assert_eq!(n.id, ID);
    assert_eq!(n.created, Timestamp { secs: CREATED, nanos: 0 });
    assert_eq!(n.content, "# Kept\nbody");
    assert_eq!(n.title, "Kept");
}

#[test]
fn file_notes_keep_path_and_modified_time() {
    let text = serialize_note(&note("# A\n", 7));
    let t = Timestamp { secs: 1704164645, nanos: 5 };
    let n = note_from_file(&text, "/notes/a.md", Some(t));
    assert_eq!(n.path, "/notes/a.md");
    assert_eq!(n.modified, t);
    assert_eq!(n.id, ID);
}

#[test]
fn new_notes_go_under_their_slug() {
    let n = new_note("/notes", "Hello World", "# Hello World\n");
    assert_eq!(n.path, "/notes/hello-world.md");
    assert_eq!(n.title, "Hello World");
    assert_eq!(n.created, n.modified);
    let m = new_note("/notes/", "Hello World", "");
    assert_eq!(m.path, "/notes/hello-world.md");
    // A version 4 UUID, with the RFC 4122 variant.
    assert_eq!((n.id >> 76) & 0xf, 4);
    assert_eq!((n.id >> 62) & 3, 2);
    assert_eq!(uuid::Uuid::from_u128(m.id).get_version_num(), 4);
}

#[test]
fn updates_retitle_and_move() {
    let mut n = note("# New Name\nbody", 3);
    n.title = "Old".to_string();
    let path = prepare_update(&mut n, "/notes");
    assert_eq!(n.title, "New Name");
    assert_eq!(path, "/notes/new-name.md");
    assert_eq!(n.path, "/notes/3.md");
    assert!(n.modified.secs > 3);
}

#[test]
fn notes_sort_newest_first_and_stably() {
    let notes = vec![note("# a", 10), note("# b", 30), note("# c", 10), note("# d", 20)];
    let sorted = sort_by_recency(notes);
    let titles: Vec<&str> = sorted.iter().map(|n| n.title.as_str()).collect();
    assert_eq!(titles, vec!["b", "d", "a", "c"]);
}
