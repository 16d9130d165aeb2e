//! Notes: plain Markdown text with a small front matter block that carries
//! the note's stable identity and creation time.
//!
//! ```text
//! ---
//! id: a3f7b2c1-9e4d-4b8a-b6f2-1c3d5e7f9a0b
//! created: 2026-03-29T10:15:00Z
//! ---
//! # Title
//! body...
//! ```
use vstd::prelude::*;
use crate::ids::{
    is_uuid_char, is_v4_uuid, lemma_uuid_text_chars, new_random_id, uuid_parse, uuid_parse_str, uuid_text,
    uuid_to_string,
};
use crate::text::{
    lemma_pieces_no_sep, lemma_trim_idempotent, lemma_trim_subrange, lemma_trim_ends, take_chars, take_chars_exec, trim_bounds, chars_of, find, find_exec, find_from, is_white_space, lemma_find_from_first,
    lemma_find_from_sound, lemma_pieces_concat, lemma_pieces_single,
    lemma_trim_no_white_space, lines, pieces, lines_exec, matches_at, no_white_space,
    rows, split_once, split_once_exec, starts_with, starts_with_exec, string_of,
    strip_cr, sub_chars, trim, trim_chars,
};
use crate::paths::{join, join_path};
use crate::time::{
    format_rfc3339_secs, is_rfc3339_char, now, parse_rfc3339, rfc3339_parse, rfc3339_secs_text,
    Timestamp,
};

verus! {

/// A note as the library holds it.
#[derive(Debug)]
pub struct Note {
    /// Stable identity (a UUID), kept in the front matter.
    pub id: u128,
    /// Derived from the first line of the content.
    pub title: String,
    /// The Markdown text after the front matter.
    pub content: String,
    pub created: Timestamp,
    pub modified: Timestamp,
    /// Where the note's file is (or will be) stored.
    pub path: String,
}

impl Note {
    /// Both of its times can be written by `chrono`.
    pub open spec fn wf(&self) -> bool {
        self.created.valid() && self.modified.valid()
    }

    /// The note's full file content: front matter, then the content.
    pub fn serialize(&self) -> (s: String)
        requires
            self.wf(),
        ensures
            s@ == note_text(self.id, self.created, self.content@),
            self.created.in_four_digit_years() ==> frontmatter_of(s@) == (
                Some(self.id),
                Some(self.created.whole_second()),
                self.content@,
            ),
    {
        serialize_note(self)
    }
}

/// What the note list shows for a note.
#[derive(Debug)]
pub struct NoteSummary {
    pub id: u128,
    pub title: String,
    /// The first non-blank, non-rule line, cut to 100 characters.
    pub preview: String,
    pub modified: Timestamp,
}

// ---------------------------------------------------------------------------
// Front matter
// ---------------------------------------------------------------------------

/// The front matter block written for a note.
pub open spec fn frontmatter_text(id: u128, created: Timestamp) -> Seq<char> {
    "---\nid: "@ + uuid_text(id) + "\ncreated: "@ + rfc3339_secs_text(created.secs, created.nanos)
        + "\n---\n"@
}

/// A note's file content.
pub open spec fn note_text(id: u128, created: Timestamp, content: Seq<char>) -> Seq<char> {
    frontmatter_text(id, created) + content
}

/// The front matter block and the body, when `c` opens with `"---\n"` and
/// the block is closed by a `"\n---\n"`.
pub open spec fn frontmatter_split(c: Seq<char>) -> Option<(Seq<char>, Seq<char>)> {
    if starts_with(c, "---\n"@) {
        let rest = c.skip(4);
        match find(rest, "\n---\n"@) {
            Some(e) => Some((rest.take(e), rest.skip(e + 5))),
            None => None,
        }
    } else {
        None
    }
}

/// What one front matter line contributes: a `key: value` line whose key is
/// `id` or `created` sets that field, if its value parses.
pub open spec fn apply_field(line: Seq<char>, acc: (Option<u128>, Option<Timestamp>)) -> (
    Option<u128>,
    Option<Timestamp>,
) {
    match split_once(line, ": "@) {
        Some((key, value)) => if trim(key) == "id"@ {
            match uuid_parse(trim(value)) {
                Some(u) => (Some(u), acc.1),
                None => acc,
            }
        } else if trim(key) == "created"@ {
            match rfc3339_parse(trim(value)) {
                Some((s, n)) => (acc.0, Some(Timestamp { secs: s, nanos: n })),
                None => acc,
            }
        } else {
            acc
        },
        None => acc,
    }
}

/// The fields set by a sequence of front matter lines; a later line wins.
pub open spec fn fields_of(ls: Seq<Seq<char>>) -> (Option<u128>, Option<Timestamp>)
    decreases ls.len(),
{
    if ls.len() == 0 {
        (None, None)
    } else {
        apply_field(ls.last(), fields_of(ls.drop_last()))
    }
}

/// The id, creation time and body that `parse_frontmatter` finds in `c`;
/// without a front matter block the body is all of `c`.
pub open spec fn frontmatter_of(c: Seq<char>) -> (Option<u128>, Option<Timestamp>, Seq<char>) {
    match frontmatter_split(c) {
        Some((fm, body)) => {
            let f = fields_of(lines(fm));
            (f.0, f.1, body)
        },
        None => (None, None, c),
    }
}

/// Whatever the names give for the UUID and time texts, the front matter
/// written for a note is read back field by field, with the note's content
/// as the body.
pub proof fn lemma_frontmatter_structure(id: u128, created: Timestamp, body: Seq<char>)
    requires
        forall|i: int|
            0 <= i < rfc3339_secs_text(created.secs, created.nanos).len() ==> is_rfc3339_char(
                #[trigger] rfc3339_secs_text(created.secs, created.nanos)[i],
            ),
    ensures
        frontmatter_of(note_text(id, created, body)) == (
            uuid_parse(uuid_text(id)),
            match rfc3339_parse(rfc3339_secs_text(created.secs, created.nanos)) {
                Some((s, n)) => Some(Timestamp { secs: s, nanos: n }),
                None => None,
            },
            body,
        ),
{
    reveal_strlit("---\nid: ");
    reveal_strlit("\ncreated: ");
    reveal_strlit("\n---\n");
    reveal_strlit("---\n");
    reveal_strlit("id: ");
    reveal_strlit("created: ");
    reveal_strlit(": ");
    reveal_strlit("id");
    reveal_strlit("created");
    let u = uuid_text(id);
    let t = rfc3339_secs_text(created.secs, created.nanos);
    lemma_uuid_text_chars(id);
    let c = note_text(id, created, body);
    let a = "id: "@ + u;
    let b = "created: "@ + t;
    let fm = a + seq!['\n'] + b;
    let close = "\n---\n"@;
    let rest = fm + close + body;
    assert(c =~= "---\n"@ + rest);
    assert(c.take(4) =~= "---\n"@);
    assert(c.skip(4) =~= rest);
    // the block closes right after the time
    assert(rest.subrange(fm.len() as int, fm.len() as int + 5) =~= close);
    assert forall|j: int| 0 <= j < fm.len() implies !matches_at(rest, close, j) by {
        if matches_at(rest, close, j) {
            assert(rest.subrange(j, j + 5)[0] == close[0]);
            assert(rest.subrange(j, j + 5)[1] == close[1]);
            assert(rest[j] == '\n');
            assert(rest[j + 1] == '-');
            if j < 4 {
                assert(rest[j] == "id: "@[j]);
            } else if j < 40 {
                assert(rest[j] == u[j - 4]);
                assert(is_uuid_char(u[j - 4]));
            } else if j == 40 {
                assert(rest[j + 1] == 'c');
            } else if j < 50 {
                assert(rest[j] == "created: "@[j - 41]);
            } else {
                assert(rest[j] == t[j - 50]);
                assert(is_rfc3339_char(t[j - 50]));
            }
        }
    }
    lemma_find_from_first(rest, close, 0, fm.len() as int);
    assert(rest.take(fm.len() as int) =~= fm);
    assert(rest.skip(fm.len() as int + 5) =~= body);
    assert(frontmatter_split(c) == Some((fm, body)));
    // the block has two lines
    assert forall|j: int| 0 <= j < a.len() implies a[j] != '\n' by {
        if j >= 4 {
            assert(a[j] == u[j - 4]);
            assert(is_uuid_char(u[j - 4]));
        }
    }
    assert forall|j: int| 0 <= j < b.len() implies b[j] != '\n' by {
        if j >= 9 {
            assert(b[j] == t[j - 9]);
            assert(is_rfc3339_char(t[j - 9]));
        }
    }
    lemma_pieces_concat(a, b, '\n');
    lemma_pieces_single(a, '\n');
    lemma_pieces_single(b, '\n');
    assert(pieces(fm, '\n') =~= seq![a, b]);
    assert(a.last() == u[35]);
    assert(is_uuid_char(u[35]));
    assert(strip_cr(a) == a);
    assert(seq![a, b].drop_last() =~= seq![a]);
    assert(lines(fm) =~= seq![a, b]);
    assert(seq![a].drop_last() =~= Seq::<Seq<char>>::empty());
    // `id: <uuid>`
    let sep = ": "@;
    assert(a.subrange(2, 4) =~= sep);
    assert(!matches_at(a, sep, 0)) by {
        if matches_at(a, sep, 0) {
            assert(a.subrange(0, 2)[0] == sep[0]);
        }
    }
    assert(!matches_at(a, sep, 1)) by {
        if matches_at(a, sep, 1) {
            assert(a.subrange(1, 3)[0] == sep[0]);
        }
    }
    lemma_find_from_first(a, sep, 0, 2);
    assert(a.take(2) =~= "id"@);
    assert(a.skip(4) =~= u);
    assert(no_white_space("id"@));
    lemma_trim_no_white_space("id"@);
    assert(no_white_space(u)) by {
        assert forall|i: int| 0 <= i < u.len() implies !is_white_space(#[trigger] u[i]) by {
            assert(is_uuid_char(u[i]));
        }
    }
    lemma_trim_no_white_space(u);
    // `created: <time>`
    assert(b.subrange(7, 9) =~= sep);
    assert forall|j: int| 0 <= j < 7 implies !matches_at(b, sep, j) by {
        if matches_at(b, sep, j) {
            assert(b.subrange(j, j + 2)[0] == sep[0]);
            assert(b[j] == "created"@[j]);
        }
    }
    lemma_find_from_first(b, sep, 0, 7);
    assert(b.take(7) =~= "created"@);
    assert(b.skip(9) =~= t);
    assert(no_white_space("created"@));
    lemma_trim_no_white_space("created"@);
    assert(no_white_space(t)) by {
        assert forall|i: int| 0 <= i < t.len() implies !is_white_space(#[trigger] t[i]) by {
            assert(is_rfc3339_char(t[i]));
        }
    }
    lemma_trim_no_white_space(t);
    assert("created"@ != "id"@) by {
        assert("created"@.len() != "id"@.len());
    }
    assert(split_once(a, sep) == Some(("id"@, u)));
    assert(split_once(b, sep) == Some(("created"@, t)));
    let first = apply_field(a, (None, None));
    assert(first == (uuid_parse(u), None::<Timestamp>));
    assert(fields_of(seq![a]) == apply_field(a, fields_of(Seq::<Seq<char>>::empty())));
    assert(fields_of(seq![a]) == first);
    assert(fields_of(seq![a, b]) == apply_field(b, fields_of(seq![a])));
}

/// Which text is the body depends only on where the block opens and
/// closes, never on what its lines say: text that does not open with
/// `---\n`, or has no closing `\n---\n` after that, is all body and gives
/// no fields; otherwise the body is exactly the text after the first
/// closing `\n---\n`.
pub proof fn law_frontmatter_body(c: Seq<char>)
    ensures
        !starts_with(c, "---\n"@) ==> frontmatter_of(c) == (None::<u128>, None::<Timestamp>, c),
        starts_with(c, "---\n"@) && find(c.skip(4), "\n---\n"@) is None ==> frontmatter_of(c) == (
            None::<u128>,
            None::<Timestamp>,
            c,
        ),
        starts_with(c, "---\n"@) && find(c.skip(4), "\n---\n"@) is Some ==> frontmatter_of(c).2
            == c.skip(4 + find(c.skip(4), "\n---\n"@)->0 + 5),
{
    if starts_with(c, "---\n"@) && find(c.skip(4), "\n---\n"@) is Some {
        reveal_strlit("---\n");
        reveal_strlit("\n---\n");
        let rest = c.skip(4);
        lemma_find_from_sound(rest, "\n---\n"@, 0);
        let e = find(rest, "\n---\n"@)->0;
        assert(rest.skip(e + 5) =~= c.skip(4 + e + 5));
    }
}

/// A block `b` closed by `\n---\n` (with no earlier closer) and followed by
/// any text `t` leaves exactly `t` as the body, whatever keys the block
/// holds.
pub proof fn law_block_then_body(b: Seq<char>, t: Seq<char>)
    requires
        forall|j: int| 0 <= j < b.len() ==> !matches_at(b + "\n---\n"@, "\n---\n"@, j),
    ensures
        frontmatter_of("---\n"@ + b + "\n---\n"@ + t).2 == t,
{
    reveal_strlit("---\n");
    reveal_strlit("\n---\n");
    let open = "---\n"@;
    let close = "\n---\n"@;
    let c = open + b + close + t;
    let rest = b + close + t;
    assert(c.take(4) =~= open);
    assert(c.skip(4) =~= rest);
    assert(rest.subrange(b.len() as int, b.len() as int + 5) =~= close);
    assert forall|j: int| 0 <= j < b.len() implies !matches_at(rest, close, j) by {
        assert(!matches_at(b + close, close, j));
        assert(rest.subrange(j, j + 5) =~= (b + close).subrange(j, j + 5));
    }
    lemma_find_from_first(rest, close, 0, b.len() as int);
    assert(rest.skip(b.len() as int + 5) =~= t);
}

// ---------------------------------------------------------------------------
// Executable front matter handling
// ---------------------------------------------------------------------------

/// Whether two character sequences are equal.
pub fn chars_eq(a: &Vec<char>, b: &Vec<char>) -> (r: bool)
    ensures
        r == (a@ == b@),
{
    if a.len() != b.len() {
        return false;
    }
    let mut i: usize = 0;
    while i < a.len()
        invariant
            a.len() == b.len(),
            i <= a.len(),
            forall|j: int| 0 <= j < i ==> a@[j] == b@[j],
        decreases a.len() - i,
    {
        if a[i] != b[i] {
            return false;
        }
        i = i + 1;
    }
    assert(a@ =~= b@);
    true
}

/// Reads the id and creation time from a note's front matter and returns
/// them with the body that follows it. Unparseable values are skipped; a
/// missing or unclosed block leaves the whole text as the body.
pub fn parse_frontmatter<'a>(content: &'a str) -> (r: (Option<u128>, Option<Timestamp>, &'a str))
    ensures
        (r.0, r.1, r.2@) == frontmatter_of(content@),
        r.1 matches Some(t) ==> t.valid(),
{
    let v = chars_of(content);
    let open = chars_of("---\n");
    proof {
        reveal_strlit("---\n");
    }
    if !starts_with_exec(&v, &open) {
        return (None, None, content);
    }
    let rest = sub_chars(&v, 4, v.len());
    assert(rest@ =~= content@.skip(4));
    let close = chars_of("\n---\n");
    proof {
        reveal_strlit("\n---\n");
    }
    let end = match find_exec(&rest, &close) {
        Some(e) => e,
        None => {
            return (None, None, content);
        },
    };
    proof {
        lemma_find_from_sound(rest@, close@, 0);
        assert(find_from(rest@, close@, 0) == Some(end as int));
    }
    let fm = sub_chars(&rest, 0, end);
    assert(fm@ =~= rest@.take(end as int));
    let body = content.substring_char(4 + end + 5, v.len());
    assert(body@ =~= rest@.skip(end + 5));
    let ls = lines_exec(&fm);
    let sep = chars_of(": ");
    let id_key = chars_of("id");
    let created_key = chars_of("created");
    let mut id: Option<u128> = None;
    let mut created: Option<Timestamp> = None;
    let mut k: usize = 0;
    while k < ls.len()
        invariant
            k <= ls.len(),
            rows(ls@) == lines(fm@),
            sep@ == ": "@,
            id_key@ == "id"@,
            created_key@ == "created"@,
            (id, created) == fields_of(lines(fm@).take(k as int)),
            created matches Some(t) ==> t.valid(),
        decreases ls.len() - k,
    {
        let ghost before = (id, created);
        let ghost line = rows(ls@)[k as int];
        assert(ls[k as int]@ == line);
        assert(lines(fm@).take(k + 1).drop_last() =~= lines(fm@).take(k as int));
        assert(lines(fm@).take(k + 1).last() == line);
        match split_once_exec(&ls[k], &sep) {
            Some(pair) => {
                let key = trim_chars(&pair.0);
                let value = trim_chars(&pair.1);
                if chars_eq(&key, &id_key) {
                    let text = string_of(&value, 0, value.len());
                    assert(value@.subrange(0, value@.len() as int) =~= value@);
                    match uuid_parse_str(text.as_str()) {
                        Some(u) => {
                            id = Some(u);
                        },
                        None => {},
                    }
                } else if chars_eq(&key, &created_key) {
                    let text = string_of(&value, 0, value.len());
                    assert(value@.subrange(0, value@.len() as int) =~= value@);
                    match parse_rfc3339(text.as_str()) {
                        Some(t) => {
                            created = Some(t);
                        },
                        None => {},
                    }
                }
            },
            None => {},
        }
        assert((id, created) == apply_field(line, before));
        k = k + 1;
    }
    assert(lines(fm@).take(ls.len() as int) =~= lines(fm@));
    (id, created, body)
}

/// The front matter block for a note (`build_frontmatter`).
pub fn build_frontmatter(id: u128, created: Timestamp) -> (s: String)
    requires
        created.valid(),
    ensures
        s@ == frontmatter_text(id, created),
        uuid_parse(uuid_text(id)) == Some(id),
        forall|i: int|
            0 <= i < rfc3339_secs_text(created.secs, created.nanos).len() ==> is_rfc3339_char(
                #[trigger] rfc3339_secs_text(created.secs, created.nanos)[i],
            ),
        created.in_four_digit_years() ==> rfc3339_parse(
            rfc3339_secs_text(created.secs, created.nanos),
        ) == Some((created.secs, 0u32)),
{
    let mut s = String::from_str("---\nid: ");
    let u = uuid_to_string(id);
    s.append(u.as_str());
    s.append("\ncreated: ");
    let t = format_rfc3339_secs(&created);
    s.append(t.as_str());
    s.append("\n---\n");
    s
}

/// A note's full file content: its front matter, then its content. The
/// front matter reads back as the note's id and (whole-second) creation
/// time, with the content as the body.
pub fn serialize_note(note: &Note) -> (s: String)
    requires
        note.wf(),
    ensures
        s@ == note_text(note.id, note.created, note.content@),
        note.created.in_four_digit_years() ==> frontmatter_of(s@) == (
            Some(note.id),
            Some(note.created.whole_second()),
            note.content@,
        ),
{
    let mut s = build_frontmatter(note.id, note.created);
    s.append(note.content.as_str());
    proof {
        lemma_frontmatter_structure(note.id, note.created, note.content@);
    }
    s
}

// ---------------------------------------------------------------------------
// Titles and previews
// ---------------------------------------------------------------------------

/// The first line of `c`, or the empty line.
pub open spec fn first_line(c: Seq<char>) -> Seq<char> {
    if lines(c).len() > 0 {
        lines(c)[0]
    } else {
        Seq::<char>::empty()
    }
}

/// A note's title: its first line, trimmed, without a leading `"# "`
/// heading mark; `"Untitled"` when that line is blank.
pub open spec fn title_of(c: Seq<char>) -> Seq<char> {
    let l = trim(first_line(c));
    if starts_with(l, "# "@) {
        trim(l.skip(2))
    } else if l.len() > 0 {
        l
    } else {
        "Untitled"@
    }
}

/// Lines that can be shown as a preview: not blank, and not starting with
/// `---`.
pub open spec fn is_preview_line(l: Seq<char>) -> bool {
    !starts_with(l, "---"@) && trim(l).len() > 0
}

/// The lines of `ls` that can be shown as a preview, in order.
pub open spec fn preview_lines(ls: Seq<Seq<char>>) -> Seq<Seq<char>>
    decreases ls.len(),
{
    if ls.len() == 0 {
        Seq::<Seq<char>>::empty()
    } else if is_preview_line(ls.last()) {
        preview_lines(ls.drop_last()).push(ls.last())
    } else {
        preview_lines(ls.drop_last())
    }
}

/// There are no preview lines exactly when no line can be shown.
pub proof fn lemma_preview_none(ls: Seq<Seq<char>>)
    ensures
        preview_lines(ls).len() == 0 <==> forall|k: int|
            0 <= k < ls.len() ==> !is_preview_line(#[trigger] ls[k]),
    decreases ls.len(),
{
    if ls.len() > 0 {
        let d = ls.drop_last();
        let m = ls.len() - 1;
        lemma_preview_none(d);
        assert(ls.last() == ls[m]);
        if preview_lines(ls).len() == 0 {
            assert forall|k: int| 0 <= k < ls.len() implies !is_preview_line(#[trigger] ls[k]) by {
                if k < m {
                    assert(d[k] == ls[k]);
                }
            }
        }
        if forall|k: int| 0 <= k < ls.len() ==> !is_preview_line(#[trigger] ls[k]) {
            assert(!is_preview_line(ls[m]));
            assert forall|k: int| 0 <= k < d.len() implies !is_preview_line(#[trigger] d[k]) by {
                assert(d[k] == ls[k]);
            }
        }
    }
}

/// When `ls[i]` is the only line that can be shown, it is the only
/// preview line.
pub proof fn lemma_preview_single(ls: Seq<Seq<char>>, i: int)
    requires
        0 <= i < ls.len(),
        is_preview_line(ls[i]),
        forall|k: int| 0 <= k < ls.len() && k != i ==> !is_preview_line(#[trigger] ls[k]),
    ensures
        preview_lines(ls).len() == 1,
        preview_lines(ls)[0] == ls[i],
    decreases ls.len(),
{
    let d = ls.drop_last();
    let m = ls.len() - 1;
    assert(ls.last() == ls[m]);
    if i == m {
        assert forall|k: int| 0 <= k < d.len() implies !is_preview_line(#[trigger] d[k]) by {
            assert(d[k] == ls[k]);
        }
        lemma_preview_none(d);
    } else {
        assert(!is_preview_line(ls[m]));
        assert(d[i] == ls[i]);
        assert forall|k: int| 0 <= k < d.len() && k != i implies !is_preview_line(#[trigger] d[k]) by {
            assert(d[k] == ls[k]);
        }
        lemma_preview_single(d, i);
    }
}

/// Two lines that can be shown make at least two preview lines.
pub proof fn lemma_preview_pair(ls: Seq<Seq<char>>, i: int, j: int)
    requires
        0 <= i < j < ls.len(),
        is_preview_line(ls[i]),
        is_preview_line(ls[j]),
    ensures
        preview_lines(ls).len() >= 2,
    decreases ls.len(),
{
    let d = ls.drop_last();
    let m = ls.len() - 1;
    assert(ls.last() == ls[m]);
    assert(d[i] == ls[i]);
    if j < m {
        assert(d[j] == ls[j]);
        lemma_preview_pair(d, i, j);
    } else {
        lemma_preview_none(d);
        assert(is_preview_line(d[i]));
    }
}

/// When `ls[i]` and `ls[j]` (`i < j`) are the only lines up to `ls[j]`
/// that can be shown, `ls[j]` is the second preview line.
pub proof fn lemma_preview_second(ls: Seq<Seq<char>>, i: int, j: int)
    requires
        0 <= i < j < ls.len(),
        is_preview_line(ls[i]),
        is_preview_line(ls[j]),
        forall|k: int| 0 <= k < j && k != i ==> !is_preview_line(#[trigger] ls[k]),
    ensures
        preview_lines(ls).len() >= 2,
        preview_lines(ls)[1] == ls[j],
    decreases ls.len(),
{
    let d = ls.drop_last();
    let m = ls.len() - 1;
    assert(ls.last() == ls[m]);
    assert(d[i] == ls[i]);
    if j < m {
        assert(d[j] == ls[j]);
        assert forall|k: int| 0 <= k < j && k != i implies !is_preview_line(#[trigger] d[k]) by {
            assert(d[k] == ls[k]);
        }
        lemma_preview_second(d, i, j);
        lemma_preview_pair(ls, i, j);
    } else {
        assert forall|k: int| 0 <= k < d.len() && k != i implies !is_preview_line(#[trigger] d[k]) by {
            assert(d[k] == ls[k]);
        }
        lemma_preview_single(d, i);
    }
}

/// The summary preview of a note's content: its first preview line, cut to
/// 100 characters.
pub open spec fn summary_preview(c: Seq<char>) -> Seq<char> {
    let ps = preview_lines(lines(c));
    if ps.len() > 0 {
        take_chars(ps[0], 100)
    } else {
        Seq::<char>::empty()
    }
}

/// The title is never empty.
pub proof fn lemma_title_not_empty(c: Seq<char>)
    ensures
        title_of(c).len() > 0,
{
    reveal_strlit("# ");
    reveal_strlit("Untitled");
    let l = trim(first_line(c));
    lemma_trim_ends(first_line(c));
    if starts_with(l, "# "@) {
        assert(l.take(2) =~= "# "@);
        assert(l.take(2)[1] == ' ');
        assert(l[1] == ' ');
        assert(l.len() > 2) by {
            if l.len() == 2 {
                assert(l.last() == l[1]);
            }
        }
        let rest = l.skip(2);
        assert(rest[rest.len() - 1] == l.last());
        lemma_trim_ends(rest);
    }
}

/// A note's title is never empty, is already trimmed, holds no line break,
/// and is either `Untitled` or a part of the content's first line.
pub proof fn lemma_title_shape(c: Seq<char>)
    ensures
        title_of(c).len() > 0,
        trim(title_of(c)) == title_of(c),
        forall|i: int| 0 <= i < title_of(c).len() ==> #[trigger] title_of(c)[i] != '\n',
        title_of(c) == "Untitled"@ || exists|lo: int, hi: int|
            0 <= lo <= hi <= first_line(c).len() && title_of(c) == #[trigger] first_line(
                c,
            ).subrange(lo, hi),
{
    reveal_strlit("# ");
    reveal_strlit("Untitled");
    lemma_title_not_empty(c);
    let f = first_line(c);
    // The first line holds no line break.
    let segs = pieces(c, '\n');
    lemma_pieces_no_sep(c, '\n');
    assert forall|i: int| 0 <= i < f.len() implies #[trigger] f[i] != '\n' by {
        if lines(c).len() > 0 {
            if segs.len() > 1 {
                assert(lines(c)[0] == strip_cr(segs[0]));
                assert(f[i] == segs[0][i]);
            } else {
                assert(f == segs[0]);
            }
        }
    }
    let (k1, m1) = lemma_trim_subrange(f);
    let l = trim(f);
    lemma_trim_idempotent(f);
    if starts_with(l, "# "@) {
        let rest = l.skip(2);
        let (k2, m2) = lemma_trim_subrange(rest);
        lemma_trim_idempotent(rest);
        assert(title_of(c) == rest.subrange(k2, m2));
        assert(rest.subrange(k2, m2) =~= f.subrange(k1 + 2 + k2, k1 + 2 + m2));
        assert forall|i: int| 0 <= i < title_of(c).len() implies #[trigger] title_of(c)[i] != '\n' by {
            assert(title_of(c)[i] == f[k1 + 2 + k2 + i]);
        }
    } else if l.len() > 0 {
        assert(title_of(c) == f.subrange(k1, m1));
        assert forall|i: int| 0 <= i < title_of(c).len() implies #[trigger] title_of(c)[i] != '\n' by {
            assert(title_of(c)[i] == f[k1 + i]);
        }
    } else {
        let u = "Untitled"@;
        assert(no_white_space(u));
        lemma_trim_no_white_space(u);
    }
}

/// Whether a line can be shown as a preview.
pub fn is_preview_line_exec(l: &Vec<char>) -> (b: bool)
    ensures
        b == is_preview_line(l@),
{
    let rule = chars_of("---");
    let (lo, hi) = trim_bounds(l);
    !starts_with_exec(l, &rule) && lo < hi
}

/// The preview lines of a text.
pub fn preview_lines_exec(content: &str) -> (r: Vec<Vec<char>>)
    ensures
        rows(r@) == preview_lines(lines(content@)),
{
    let v = chars_of(content);
    let ls = lines_exec(&v);
    let mut out: Vec<Vec<char>> = Vec::new();
    let mut k: usize = 0;
    while k < ls.len()
        invariant
            k <= ls.len(),
            rows(ls@) == lines(content@),
            rows(out@) == preview_lines(lines(content@).take(k as int)),
        decreases ls.len() - k,
    {
        let ghost taken = lines(content@).take(k + 1);
        assert(taken.drop_last() =~= lines(content@).take(k as int));
        assert(taken.last() == ls[k as int]@);
        if is_preview_line_exec(&ls[k]) {
            let line = sub_chars(&ls[k], 0, ls[k].len());
            assert(line@ =~= ls[k as int]@);
            let ghost before = out@;
            out.push(line);
            assert(rows(out@) =~= rows(before).push(line@));
        }
        k = k + 1;
    }
    assert(lines(content@).take(ls.len() as int) =~= lines(content@));
    out
}

/// A note's title, from the first line of its content.
pub fn extract_title(content: &str) -> (t: String)
    ensures
        t@ == title_of(content@),
        t@.len() > 0,
{
    proof {
        lemma_title_not_empty(content@);
    }
    let v = chars_of(content);
    let ls = lines_exec(&v);
    let first = if ls.len() > 0 {
        sub_chars(&ls[0], 0, ls[0].len())
    } else {
        Vec::new()
    };
    assert(first@ =~= first_line(content@));
    let l = trim_chars(&first);
    let mark = chars_of("# ");
    proof {
        reveal_strlit("# ");
    }
    if starts_with_exec(&l, &mark) {
        let rest = sub_chars(&l, 2, l.len());
        assert(rest@ =~= l@.skip(2));
        let (lo, hi) = trim_bounds(&rest);
        string_of(&rest, lo, hi)
    } else if l.len() > 0 {
        string_of(&l, 0, l.len())
    } else {
        String::from_str("Untitled")
    }
}

/// The summary shown in the note list.
pub fn to_summary(note: &Note) -> (s: NoteSummary)
    ensures
        s.id == note.id,
        s.title@ == note.title@,
        s.preview@ == summary_preview(note.content@),
        s.modified == note.modified,
{
    let ps = preview_lines_exec(note.content.as_str());
    let preview = if ps.len() > 0 {
        take_chars_exec(&ps[0], 100)
    } else {
        String::new()
    };
    NoteSummary { id: note.id, title: note.title.clone(), preview, modified: note.modified }
}

// ---------------------------------------------------------------------------
// File names
// ---------------------------------------------------------------------------

/// What `slug::slugify` returns for a text.
pub uninterp spec fn slug_text(title: Seq<char>) -> Seq<char>;

/// A character of a slug.
pub open spec fn is_slug_char(c: char) -> bool {
    ('a' <= c && c <= 'z') || ('0' <= c && c <= '9') || c == '-'
}

/// The shape `slug::slugify` documents for its result: only `a-z`, `0-9`
/// and `-`, no `-` at either end and never two in a row.
pub open spec fn is_slug(s: Seq<char>) -> bool {
    &&& forall|i: int| 0 <= i < s.len() ==> is_slug_char(#[trigger] s[i])
    &&& s.len() > 0 ==> s[0] != '-' && s.last() != '-'
    &&& forall|i: int| 0 <= i < s.len() - 1 ==> !(#[trigger] s[i] == '-' && s[i + 1] == '-')
}

/// `slug::slugify`: named by `slug_text`, with the shape its documentation
/// promises.
#[verifier::external_body]
fn slug_of(title: &str) -> (s: String)
    ensures
        s@ == slug_text(title@),
        is_slug(s@),
{
    slug::slugify(title)
}

/// A file-name stem for a title: its slug, or `note-<random uuid>` when the
/// slug is empty. Either way it is made of `a-z`, `0-9` and `-` only.
pub fn slugify(title: &str) -> (s: String)
    ensures
        slug_text(title@).len() > 0 ==> s@ == slug_text(title@),
        slug_text(title@).len() == 0 ==> exists|id: u128|
            is_v4_uuid(id) && s@ == "note-"@ + #[trigger] uuid_text(id),
        s@.len() > 0,
        forall|i: int| 0 <= i < s@.len() ==> is_slug_char(#[trigger] s@[i]),
{
    let s = slug_of(title);
    if s.as_str().unicode_len() == 0 {
        let id = new_random_id();
        let mut r = String::from_str("note-");
        let u = uuid_to_string(id);
        r.append(u.as_str());
        proof {
            reveal_strlit("note-");
            lemma_uuid_text_chars(id);
            assert forall|i: int| 0 <= i < r@.len() implies is_slug_char(#[trigger] r@[i]) by {
                if i >= 5 {
                    assert(r@[i] == uuid_text(id)[i - 5]);
                    assert(is_uuid_char(uuid_text(id)[i - 5]));
                }
            }
        }
        r
    } else {
        s
    }
}

/// The file name a note with this title is stored under: `<slug>.md`.
pub fn note_file_name(title: &str) -> (s: String)
    ensures
        exists|stem: Seq<char>|
            {
                &&& s@ == stem + ".md"@
                &&& stem.len() > 0
                &&& forall|i: int| 0 <= i < stem.len() ==> is_slug_char(#[trigger] stem[i])
                &&& (slug_text(title@).len() > 0 ==> stem == slug_text(title@))
            },
{
    let mut s = slugify(title);
    let ghost stem = s@;
    s.append(".md");
    s
}

/// `name` is a file name made for a note titled `title`: a non-empty stem of
/// slug characters (the title's slug, when it has one) and `.md`.
pub open spec fn is_note_file_name(title: Seq<char>, name: Seq<char>) -> bool {
    exists|stem: Seq<char>|
        {
            &&& name == stem + ".md"@
            &&& stem.len() > 0
            &&& forall|i: int| 0 <= i < stem.len() ==> is_slug_char(#[trigger] stem[i])
            &&& (slug_text(title).len() > 0 ==> stem == slug_text(title))
        }
}

// ---------------------------------------------------------------------------
// Reading and creating notes
// ---------------------------------------------------------------------------

/// A note read from raw file text (as decrypted during sync). Missing or
/// unreadable front matter fields get a fresh random id and the current
/// time; the note is modified now and has no path yet.
pub fn deserialize_content(content: &str) -> (n: Note)
    ensures
        n.wf(),
        frontmatter_of(content@).0 matches Some(id) ==> n.id == id,
        frontmatter_of(content@).0 is None ==> is_v4_uuid(n.id),
        frontmatter_of(content@).1 matches Some(c) ==> n.created == c,
        frontmatter_of(content@).1 is None ==> n.created.is_clock_reading(),
        n.modified.is_clock_reading(),
        n.content@ == frontmatter_of(content@).2,
        n.title@ == title_of(frontmatter_of(content@).2),
        n.path@ == Seq::<char>::empty(),
{
    let (id, created, body) = parse_frontmatter(content);
    let id = match id {
        Some(i) => i,
        None => new_random_id(),
    };
    let created = match created {
        Some(c) => c,
        None => now(),
    };
    let title = extract_title(body);
    let modified = now();
    Note { id, title, content: body.to_owned(), created, modified, path: String::new() }
}

/// A note read from the file at `path` whose text is `content` and whose
/// modification time is `modified` (the current time when unknown).
pub fn note_from_file(content: &str, path: &str, modified: Option<Timestamp>) -> (n: Note)
    requires
        modified matches Some(t) ==> t.valid(),
    ensures
        n.wf(),
        frontmatter_of(content@).0 matches Some(id) ==> n.id == id,
        frontmatter_of(content@).0 is None ==> is_v4_uuid(n.id),
        frontmatter_of(content@).1 matches Some(c) ==> n.created == c,
        frontmatter_of(content@).1 is None ==> n.created.is_clock_reading(),
        n.content@ == frontmatter_of(content@).2,
        n.title@ == title_of(frontmatter_of(content@).2),
        modified matches Some(t) ==> n.modified == t,
        modified is None ==> n.modified.is_clock_reading(),
        n.path@ == path@,
{
    let (id, created, body) = parse_frontmatter(content);
    let id = match id {
        Some(i) => i,
        None => new_random_id(),
    };
    let created = match created {
        Some(c) => c,
        None => now(),
    };
    let title = extract_title(body);
    let modified = match modified {
        Some(t) => t,
        None => now(),
    };
    Note { id, title, content: body.to_owned(), created, modified, path: path.to_owned() }
}

/// A new note in `folder` with the given title and content: a fresh random
/// id, created and modified now, stored under a name made from the title.
pub fn new_note(folder: &str, title: &str, content: &str) -> (n: Note)
    ensures
        n.wf(),
        n.title@ == title@,
        n.content@ == content@,
        n.created == n.modified,
        n.created.is_clock_reading(),
        is_v4_uuid(n.id),
        exists|name: Seq<char>| is_note_file_name(title@, name) && n.path@ == join(folder@, name),
{
    let id = new_random_id();
    let t = now();
    let name = note_file_name(title);
    let path = join_path(folder, name.as_str());
    Note {
        id,
        title: title.to_owned(),
        content: content.to_owned(),
        created: t,
        modified: t,
        path,
    }
}

/// Prepares a note for saving after its content changed: it is modified
/// now and retitled from its content. Returns the path it is to be saved
/// under, in the directory `dir` of its current file.
pub fn prepare_update(note: &mut Note, dir: &str) -> (path: String)
    requires
        old(note).wf(),
    ensures
        final(note).wf(),
        final(note).id == old(note).id,
        final(note).content == old(note).content,
        final(note).created == old(note).created,
        final(note).path == old(note).path,
        final(note).modified.is_clock_reading(),
        final(note).title@ == title_of(old(note).content@),
        exists|name: Seq<char>|
            is_note_file_name(final(note).title@, name) && path@ == join(dir@, name),
{
    note.modified = now();
    note.title = extract_title(note.content.as_str());
    let name = note_file_name(note.title.as_str());
    join_path(dir, name.as_str())
}

// ---------------------------------------------------------------------------
// Ordering notes by recency
// ---------------------------------------------------------------------------

/// The position of the first note in `s` modified before `t`.
pub open spec fn first_older(s: Seq<Note>, t: Timestamp) -> nat
    decreases s.len(),
{
    if s.len() == 0 {
        0
    } else if t.later_than(s[0].modified) {
        0
    } else {
        1 + first_older(s.drop_first(), t)
    }
}

/// `s` sorted most recently modified first, notes modified at the same time
/// keeping their order (a stable sort, as `sort_by` is).
pub open spec fn recency_order(s: Seq<Note>) -> Seq<Note>
    decreases s.len(),
{
    if s.len() == 0 {
        s
    } else {
        let sorted = recency_order(s.drop_last());
        sorted.insert(first_older(sorted, s.last().modified) as int, s.last())
    }
}

/// No note is modified after a note before it.
pub open spec fn newest_first(s: Seq<Note>) -> bool {
    forall|i: int, j: int|
        0 <= i < j < s.len() ==> !(#[trigger] s[j].modified).later_than(#[trigger] s[i].modified)
}

/// `first_older` is the first index whose note is older than `t`.
pub proof fn lemma_first_older(s: Seq<Note>, t: Timestamp, i: int)
    requires
        0 <= i <= s.len(),
        forall|j: int| 0 <= j < i ==> !t.later_than(#[trigger] s[j].modified),
        i < s.len() ==> t.later_than(s[i].modified),
    ensures
        first_older(s, t) == i,
    decreases s.len(),
{
    if i > 0 {
        assert forall|j: int| 0 <= j < i - 1 implies !t.later_than(
            #[trigger] s.drop_first()[j].modified,
        ) by {
            assert(s.drop_first()[j] == s[j + 1]);
        }
        if i < s.len() {
            assert(s.drop_first()[i - 1] == s[i]);
        }
        lemma_first_older(s.drop_first(), t, i - 1);
    }
}

/// `first_older` lies within the sequence, after the notes not older than
/// `t` and before the older ones.
pub proof fn lemma_first_older_bounds(s: Seq<Note>, t: Timestamp)
    ensures
        first_older(s, t) <= s.len(),
        forall|j: int| 0 <= j < first_older(s, t) ==> !t.later_than(#[trigger] s[j].modified),
        first_older(s, t) < s.len() ==> t.later_than(s[first_older(s, t) as int].modified),
    decreases s.len(),
{
    if s.len() > 0 && !t.later_than(s[0].modified) {
        lemma_first_older_bounds(s.drop_first(), t);
        assert forall|j: int| 0 <= j < first_older(s, t) implies !t.later_than(
            #[trigger] s[j].modified,
        ) by {
            if j > 0 {
                assert(s[j] == s.drop_first()[j - 1]);
            }
        }
        if first_older(s, t) < s.len() {
            assert(s[first_older(s, t) as int] == s.drop_first()[first_older(s, t) - 1]);
        }
    }
}

/// Recency order is newest first and holds the same notes.
pub proof fn lemma_recency_order(s: Seq<Note>)
    ensures
        newest_first(recency_order(s)),
        recency_order(s).to_multiset() == s.to_multiset(),
    decreases s.len(),
{
    broadcast use vstd::seq_lib::group_to_multiset_ensures, vstd::multiset::group_multiset_axioms;
    if s.len() > 0 {
        lemma_recency_order(s.drop_last());
        let sorted = recency_order(s.drop_last());
        let x = s.last();
        let t = x.modified;
        let p = first_older(sorted, t) as int;
        lemma_first_older_bounds(sorted, t);
        let r = sorted.insert(p, x);
        assert(r == recency_order(s));
        assert forall|i: int, j: int| 0 <= i < j < r.len() implies !(
        #[trigger] r[j].modified).later_than(#[trigger] r[i].modified) by {
            if j < p {
                assert(r[i] == sorted[i] && r[j] == sorted[j]);
            } else if j == p {
                assert(r[j] == x);
                assert(r[i] == sorted[i]);
            } else if i == p {
                assert(r[i] == x);
                assert(r[j] == sorted[j - 1]);
                if j - 1 > p {
                    assert(!sorted[j - 1].modified.later_than(sorted[p].modified));
                }
            } else if i < p {
                assert(r[i] == sorted[i]);
                assert(r[j] == sorted[j - 1]);
            } else {
                assert(r[i] == sorted[i - 1]);
                assert(r[j] == sorted[j - 1]);
            }
        }
        assert(r.remove(p) =~= sorted);
        assert(r.to_multiset().remove(x) =~= sorted.to_multiset());
        assert(r.contains(x)) by {
            assert(r[p] == x);
        }
        assert(r.to_multiset().count(x) > 0);
        assert(r.to_multiset() =~= sorted.to_multiset().insert(x));
        assert(s.drop_last().push(x) =~= s);
    }
}

/// Notes ordered most recently modified first; notes modified at the same
/// time keep their order.
pub fn sort_by_recency(notes: Vec<Note>) -> (r: Vec<Note>)
    ensures
        r@ == recency_order(notes@),
        newest_first(r@),
        r@.to_multiset() == notes@.to_multiset(),
{
    proof {
        lemma_recency_order(notes@);
    }
    let ghost all = notes@;
    assert(all.len() == notes.len());
    let mut input = notes;
    let mut out: Vec<Note> = Vec::new();
    let mut k: usize = 0;
    while input.len() > 0
        invariant
            k + input@.len() == all.len(),
            all.len() <= usize::MAX,
            input@ == all.skip(k as int),
            out@ == recency_order(all.take(k as int)),
        decreases input.len(),
    {
        let x = input.remove(0);
        assert(all.take(k + 1).drop_last() =~= all.take(k as int));
        assert(all.take(k + 1).last() == x);
        assert(input@ =~= all.skip(k + 1));
        let mut i: usize = 0;
        while i < out.len() && !x.modified.is_later_than(&out[i].modified)
            invariant
                i <= out.len(),
                forall|j: int| 0 <= j < i ==> !x.modified.later_than(#[trigger] out@[j].modified),
            decreases out.len() - i,
        {
            i = i + 1;
        }
        proof {
            lemma_first_older(out@, x.modified, i as int);
        }
        out.insert(i, x);
        k = k + 1;
    }
    assert(all.take(k as int) =~= all);
    out
}

} // verus!
