//! The search index's rules: what a search asks for, what a result shows,
//! and how notes are recorded in the index.
use vstd::prelude::*;
use vstd::utf8::encode_utf8;
use crate::ids::{uuid_text, uuid_to_string};
use crate::note::{
    is_preview_line, lemma_preview_none, lemma_preview_second, lemma_preview_single, preview_lines,
    preview_lines_exec, Note,
};
use crate::paths::{has_md_extension, is_markdown_path, join, join_path};
use crate::text::{
    chars_of, lines, sub_chars, utf8_len_at_least, take_chars, take_chars_exec, trim, trim_bounds,
};
use crate::time::{format_rfc3339, rfc3339_text};

verus! {

/// One search hit, as the note list shows it.
#[derive(Debug, Clone)]
pub struct SearchResult {
    pub id: String,
    pub title: String,
    /// The line after the title, cut to 100 characters; empty when the
    /// note has no such line.
    pub preview: String,
    pub modified: String,
}

/// The preview shown for a note in search results: its second preview
/// line (the first being, most likely, its title), cut to 100 characters.
pub open spec fn result_preview(c: Seq<char>) -> Seq<char> {
    let ps = preview_lines(lines(c));
    if ps.len() <= 1 {
        Seq::<char>::empty()
    } else {
        take_chars(ps[1], 100)
    }
}

/// The search preview never shows the first line that can be shown (the
/// title): with no line that can be shown (not blank, not starting with
/// `---`), or only one, it is empty; otherwise it is the first 100
/// characters of the second such line — whether or not the first line is a
/// `#` heading.
pub proof fn law_search_preview(c: Seq<char>)
    ensures
        (forall|k: int| 0 <= k < lines(c).len() ==> !is_preview_line(#[trigger] lines(c)[k]))
            ==> result_preview(c).len() == 0,
        forall|i: int|
            0 <= i < lines(c).len() && is_preview_line(#[trigger] lines(c)[i]) && (forall|k: int|
                0 <= k < lines(c).len() && k != i ==> !is_preview_line(lines(c)[k]))
                ==> result_preview(c).len() == 0,
        forall|i: int, j: int|
            0 <= i < j < lines(c).len() && is_preview_line(#[trigger] lines(c)[i])
                && is_preview_line(#[trigger] lines(c)[j]) && (forall|k: int|
                0 <= k < j && k != i ==> !is_preview_line(lines(c)[k])) ==> result_preview(c)
                == take_chars(lines(c)[j], 100),
{
    let ls = lines(c);
    lemma_preview_none(ls);
    assert forall|i: int|
        0 <= i < ls.len() && is_preview_line(#[trigger] ls[i]) && (forall|k: int|
            0 <= k < ls.len() && k != i ==> !is_preview_line(ls[k])) implies result_preview(c).len()
        == 0 by {
        lemma_preview_single(ls, i);
    }
    assert forall|i: int, j: int|
        0 <= i < j < ls.len() && is_preview_line(#[trigger] ls[i]) && is_preview_line(
            #[trigger] ls[j],
        ) && (forall|k: int| 0 <= k < j && k != i ==> !is_preview_line(ls[k])) implies result_preview(
        c,
    ) == take_chars(ls[j], 100) by {
        lemma_preview_second(ls, i, j);
    }
}

/// The search-result preview of a note's content.
pub fn make_preview(content: &str) -> (p: String)
    ensures
        p@ == result_preview(content@),
{
    let ps = preview_lines_exec(content);
    if ps.len() <= 1 {
        return String::new();
    }
    take_chars_exec(&ps[1], 100)
}

/// A search result from an index row.
pub fn search_result(id: String, title: String, content: &str, modified: String) -> (r:
    SearchResult)
    ensures
        r.id == id,
        r.title == title,
        r.preview@ == result_preview(content@),
        r.modified == modified,
{
    SearchResult { id, title, preview: make_preview(content), modified }
}

/// What a search asks the index for.
#[derive(Debug, PartialEq, Eq)]
pub enum SearchPlan {
    /// Every note, most recently modified first.
    Recent,
    /// Notes whose title or content is `LIKE` the pattern, most recently
    /// modified first, at most 100 of them.
    Matching(String),
}

/// Queries that only browse: blank, or shorter than three bytes once
/// trimmed.
pub open spec fn is_browse_query(q: Seq<char>) -> bool {
    trim(q).len() == 0 || encode_utf8(trim(q)).len() < 3
}

/// The `LIKE` pattern for a query: the query between `%` wildcards. The
/// pattern is bound as a parameter, so the query's text is matched as it
/// is typed.
pub open spec fn like_pattern(q: Seq<char>) -> Seq<char> {
    "%"@ + q + "%"@
}

/// What to look up for a query typed into the search box.
pub fn search_plan(query: &str) -> (p: SearchPlan)
    ensures
        is_browse_query(query@) ==> p == SearchPlan::Recent,
        !is_browse_query(query@) ==> (p matches SearchPlan::Matching(pat) && pat@ == like_pattern(
            query@,
        )),
{
    let v = chars_of(query);
    let (lo, hi) = trim_bounds(&v);
    if lo == hi {
        return SearchPlan::Recent;
    }
    let trimmed = sub_chars(&v, lo, hi);
    if !utf8_len_at_least(&trimmed, 3) {
        return SearchPlan::Recent;
    }
    let mut pat = String::from_str("%");
    pat.append(query);
    pat.append("%");
    SearchPlan::Matching(pat)
}

/// A note's fields as text, as the index stores them and the interface
/// receives them.
#[derive(Debug)]
pub struct NoteRecord {
    pub id: String,
    pub title: String,
    pub content: String,
    pub created: String,
    pub modified: String,
}

/// The text fields of a note: its id in hyphenated form, its times in
/// RFC 3339.
pub fn note_record(note: &Note) -> (r: NoteRecord)
    requires
        note.wf(),
    ensures
        r.id@ == uuid_text(note.id),
        r.title@ == note.title@,
        r.content@ == note.content@,
        r.created@ == rfc3339_text(note.created.secs, note.created.nanos),
        r.modified@ == rfc3339_text(note.modified.secs, note.modified.nanos),
{
    NoteRecord {
        id: uuid_to_string(note.id),
        title: note.title.clone(),
        content: note.content.clone(),
        created: format_rfc3339(&note.created),
        modified: format_rfc3339(&note.modified),
    }
}

/// Where a note whose file is named after its id would be.
pub fn id_note_path(notes_folder: &str, id: &str) -> (p: String)
    ensures
        p@ == join(notes_folder@, id@ + ".md"@),
{
    let mut name = String::from_str(id);
    name.append(".md");
    join_path(notes_folder, name.as_str())
}

/// Whether a note has the given id text.
pub fn note_has_id(note: &Note, id: &str) -> (b: bool)
    ensures
        b == (uuid_text(note.id) == id@),
{
    let own = uuid_to_string(note.id);
    let a = chars_of(own.as_str());
    let b = chars_of(id);
    crate::note::chars_eq(&a, &b)
}

/// A changed file is re-indexed when it still exists and is a Markdown
/// file; otherwise it is dropped from the index.
pub fn should_reindex(exists: bool, path: &str) -> (b: bool)
    ensures
        b == (exists && has_md_extension(path@)),
{
    exists && is_markdown_path(path)
}

} // verus!
