//! Which file-system events concern notes.
use vstd::prelude::*;
use crate::paths::{has_md_extension, is_markdown_path};
use crate::text::texts;

verus! {

/// The kind of a file-system event.
#[derive(Debug, Clone, Copy, PartialEq, Eq, Structural)]
pub enum ChangeKind {
    Create,
    Modify,
    Remove,
    /// Access and other events that do not change files.
    Other,
}

/// The Markdown files among `paths`, in order.
pub open spec fn markdown_paths(paths: Seq<Seq<char>>) -> Seq<Seq<char>> {
    paths.filter(|p: Seq<char>| has_md_extension(p))
}

/// The Markdown files an event changed: `None` unless the event creates,
/// modifies or removes files and at least one of them is Markdown.
pub fn changed_md_files(kind: ChangeKind, paths: &Vec<String>) -> (r: Option<Vec<String>>)
    ensures
        kind == ChangeKind::Other ==> r is None,
        kind != ChangeKind::Other ==> (r is None <==> markdown_paths(texts(paths@)).len() == 0),
        r matches Some(v) ==> texts(v@) == markdown_paths(texts(paths@)),
{
    if kind == ChangeKind::Other {
        return None;
    }
    let ghost all = texts(paths@);
    let mut out: Vec<String> = Vec::new();
    let mut k: usize = 0;
    while k < paths.len()
        invariant
            k <= paths.len(),
            all == texts(paths@),
            texts(out@) == markdown_paths(all.take(k as int)),
        decreases paths.len() - k,
    {
        let ghost before = out@;
        assert(all.take(k + 1).drop_last() =~= all.take(k as int));
        assert(all.take(k + 1).last() == paths[k as int]@);
        reveal_with_fuel(Seq::filter, 1);
        if is_markdown_path(paths[k].as_str()) {
            out.push(paths[k].clone());
            assert(texts(out@) =~= texts(before).push(paths[k as int]@));
        }
        k = k + 1;
    }
    assert(all.take(paths.len() as int) =~= all);
    if out.len() == 0 {
        None
    } else {
        Some(out)
    }
}

} // verus!
