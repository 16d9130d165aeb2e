//! Unix path text, as `std::path::Path` reads it: joining a directory and a
//! file name, the final component, and the `.md` extension.
use vstd::prelude::*;
use crate::text::{
    chars_of, ends_with, ends_with_exec, lemma_pieces_no_sep, pieces, pieces_exec, push_chars,
    rows,
};

verus! {

/// `dir.join(name)` (`PathBuf::push`): an absolute `name` (one starting
/// with `/`) replaces `dir`; otherwise a `/` goes between them unless `dir`
/// is empty or already ends with one.
pub open spec fn join(dir: Seq<char>, name: Seq<char>) -> Seq<char> {
    if name.len() > 0 && name[0] == '/' {
        name
    } else if dir.len() == 0 {
        name
    } else if dir.last() == '/' {
        dir + name
    } else {
        dir + seq!['/'] + name
    }
}

/// The last component of a list of `/`-separated pieces that names
/// something: empty pieces and `.` pieces are not components of their own.
pub open spec fn last_named(ps: Seq<Seq<char>>) -> Option<Seq<char>>
    decreases ps.len(),
{
    if ps.len() == 0 {
        None
    } else if ps.last().len() == 0 || ps.last() == seq!['.'] {
        last_named(ps.drop_last())
    } else {
        Some(ps.last())
    }
}

/// `Path::file_name`: the final component, unless the path ends in `..`,
/// is a root, or has no components.
pub open spec fn file_name(path: Seq<char>) -> Option<Seq<char>> {
    match last_named(pieces(path, '/')) {
        Some(f) => if f == seq!['.', '.'] {
            None
        } else {
            Some(f)
        },
        None => None,
    }
}

/// `path.extension() == Some("md")`: the file name ends with `.md` and has
/// something before that dot.
pub open spec fn has_md_extension(path: Seq<char>) -> bool {
    match file_name(path) {
        Some(f) => f.len() > 3 && ends_with(f, seq!['.', 'm', 'd']),
        None => false,
    }
}

/// `dir.join(name)`.
pub fn join_path(dir: &str, name: &str) -> (p: String)
    ensures
        p@ == join(dir@, name@),
{
    let n = chars_of(name);
    if n.len() > 0 && n[0] == '/' {
        return name.to_owned();
    }
    let d = chars_of(dir);
    let mut p = String::new();
    push_chars(&mut p, &d, 0, d.len());
    assert(d@.subrange(0, d@.len() as int) =~= d@);
    if d.len() > 0 && d[d.len() - 1] != '/' {
        crate::text::push_char(&mut p, '/');
    }
    p.append(name);
    p
}

/// `Path::file_name` of a path's text.
pub fn file_name_of(path: &str) -> (r: Option<String>)
    ensures
        r matches Some(f) ==> file_name(path@) == Some(f@),
        r is None ==> file_name(path@) is None,
{
    let v = chars_of(path);
    let ps = pieces_exec(&v, '/');
    proof {
        lemma_pieces_no_sep(v@, '/');
    }
    let mut k = ps.len();
    assert(rows(ps@).take(k as int) =~= rows(ps@));
    while k > 0
        invariant
            k <= ps.len(),
            rows(ps@) == pieces(path@, '/'),
            last_named(pieces(path@, '/')) == last_named(rows(ps@).take(k as int)),
        decreases k,
    {
        let piece = &ps[k - 1];
        assert(rows(ps@).take(k as int).drop_last() =~= rows(ps@).take(k - 1));
        assert(rows(ps@).take(k as int).last() == piece@);
        let dot = piece.len() == 1 && piece[0] == '.';
        assert(dot == (piece@ == seq!['.'])) by {
            if piece@.len() == 1 {
                if piece[0] == '.' {
                    assert(piece@ =~= seq!['.']);
                }
            }
        }
        if piece.len() == 0 || dot {
            k = k - 1;
        } else {
            let dots = piece.len() == 2 && piece[0] == '.' && piece[1] == '.';
            assert(dots == (piece@ == seq!['.', '.'])) by {
                if piece@.len() == 2 && piece[0] == '.' && piece[1] == '.' {
                    assert(piece@ =~= seq!['.', '.']);
                }
            }
            if dots {
                return None;
            }
            let mut f = String::new();
            push_chars(&mut f, piece, 0, piece.len());
            assert(piece@.subrange(0, piece@.len() as int) =~= piece@);
            return Some(f);
        }
    }
    assert(rows(ps@).take(0) =~= Seq::<Seq<char>>::empty());
    None
}

/// Whether a path names a Markdown file (`extension() == Some("md")`).
pub fn is_markdown_path(path: &str) -> (b: bool)
    ensures
        b == has_md_extension(path@),
{
    match file_name_of(path) {
        Some(f) => {
            let fv = chars_of(f.as_str());
            let ext = vec!['.', 'm', 'd'];
            assert(ext@ =~= seq!['.', 'm', 'd']);
            fv.len() > 3 && ends_with_exec(&fv, &ext)
        },
        None => false,
    }
}

} // verus!
