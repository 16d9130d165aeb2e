//! Encrypted sync: the provider abstraction, and the decisions the Git
//! provider makes around its `git` and file-system work — which notes to
//! push, which remote files are stale, which pulled files to decrypt, and
//! where a conflicting copy goes.
use vstd::prelude::*;
use vstd::utf8::encode_utf8;
use crate::crypto::{
    age_decrypt, encrypt, identity_parse_error, is_age_v1_file, is_low_order_recipient,
    load_secret_key, public_key, public_of_secret, recipient_parse_error, CryptoError,
};
use crate::ids::{is_v4_uuid, uuid_text, uuid_to_string};
use crate::note::{
    deserialize_content, frontmatter_of, is_note_file_name, note_file_name, note_text,
    serialize_note, slug_text, title_of, Note,
};
use crate::paths::{file_name, file_name_of, join, join_path, last_named};
use crate::text::{
    chars_of, contains_text, decimal, decimal_exec, ends_with, ends_with_exec, lines, lines_exec,
    lemma_last_piece_suffix, lemma_pieces_no_sep, pieces, rows, string_of, sub_chars, texts, trim, trim_bounds,
    utf8_lossy, utf8_lossy_text,
};
use crate::time::{format_ymd, ymd_text, Timestamp};

verus! {

// ---------------------------------------------------------------------------
// Status and results
// ---------------------------------------------------------------------------

/// Status of a sync provider.
#[derive(Debug, Clone, PartialEq)]
pub enum SyncStatus {
    /// No sync configured.
    NotConfigured,
    /// Idle, no sync in progress.
    Idle,
    /// A sync is running.
    Syncing,
    /// The last sync failed with this error.
    Error(String),
    /// The last sync found conflicts at these paths.
    Conflict(Vec<String>),
}

/// Result of a full sync cycle.
#[derive(Debug, Clone)]
pub struct SyncResult {
    pub status: SyncStatus,
    pub notes_pushed: usize,
    pub notes_pulled: usize,
    pub conflicts: Vec<String>,
}

/// What can go wrong during sync.
#[derive(Debug)]
pub enum SyncError {
    /// A key or encryption problem.
    Crypto(CryptoError),
    /// Encrypting one note for the remote failed.
    EncryptNote { id: String, reason: String },
    /// Decrypting one pulled note failed.
    DecryptNote { id: String, reason: String },
    /// A `git` command or file operation failed.
    Io(String),
}

/// The result of a sync cycle that pushed `pushed` notes, pulled `pulled`
/// notes and found `conflicts`.
pub fn sync_outcome(pushed: usize, pulled: usize, conflicts: Vec<String>) -> (r: SyncResult)
    ensures
        r.notes_pushed == pushed,
        r.notes_pulled == pulled,
        r.conflicts == conflicts,
        conflicts@.len() == 0 <==> r.status is Idle,
        conflicts@.len() > 0 ==> (r.status matches SyncStatus::Conflict(c) && c@ == conflicts@),
{
    let status = if conflicts.len() == 0 {
        SyncStatus::Idle
    } else {
        SyncStatus::Conflict(copy_strings(&conflicts))
    };
    SyncResult { status, notes_pushed: pushed, notes_pulled: pulled, conflicts }
}

/// A copy of a list of strings.
pub fn copy_strings(v: &Vec<String>) -> (r: Vec<String>)
    ensures
        r@ == v@,
{
    let mut r: Vec<String> = Vec::new();
    let mut i: usize = 0;
    while i < v.len()
        invariant
            i <= v.len(),
            r@ == v@.take(i as int),
        decreases v.len() - i,
    {
        r.push(v[i].clone());
        assert(v@.take(i + 1) =~= v@.take(i as int).push(v@[i as int]));
        i = i + 1;
    }
    assert(v@.take(v.len() as int) =~= v@);
    r
}

/// A sync provider: pushes encrypted notes to a remote and pulls them back.
pub trait SyncProvider {
    /// Whether the provider is configured.
    fn is_configured(&self) -> bool;

    /// The provider's current status.
    fn status(&self) -> SyncStatus;

    /// Pushes local changes to the remote; returns how many notes were pushed.
    fn push(&self, notes_folder: &str, key_path: &str) -> Result<usize, SyncError>;

    /// Pulls remote changes into the notes folder; returns how many notes
    /// were pulled and the paths of the conflict copies it wrote.
    fn pull(&self, notes_folder: &str, key_path: &str) -> Result<(usize, Vec<String>), SyncError>;

    /// A full sync cycle: push, then pull, with the same folder and key.
    /// The counts and the conflict list are what push and pull returned;
    /// the status is idle unless the pull reported conflicts. A failure is
    /// the push's error, or, after a push that succeeded, the pull's.
    fn sync(&self, notes_folder: &str, key_path: &str) -> (r: Result<SyncResult, SyncError>)
        ensures
            r matches Ok(res) ==> call_ensures(
                Self::push,
                (self, notes_folder, key_path),
                Ok(res.notes_pushed),
            ),
            r matches Ok(res) ==> call_ensures(
                Self::pull,
                (self, notes_folder, key_path),
                Ok((res.notes_pulled, res.conflicts)),
            ),
            r matches Ok(res) ==> (res.conflicts@.len() == 0 <==> res.status is Idle),
            r matches Ok(res) ==> (res.conflicts@.len() > 0 ==> (res.status matches SyncStatus::Conflict(
                c,
            ) && c@ == res.conflicts@)),
            r matches Err(e) ==> call_ensures(Self::push, (self, notes_folder, key_path), Err(e))
                || exists|n: usize|
                call_ensures(Self::push, (self, notes_folder, key_path), Ok(n)) && call_ensures(
                    Self::pull,
                    (self, notes_folder, key_path),
                    Err(e),
                ),
    {
        let notes_pushed = match self.push(notes_folder, key_path) {
            Ok(n) => n,
            Err(e) => {
                return Err(e);
            },
        };
        let (notes_pulled, conflicts) = match self.pull(notes_folder, key_path) {
            Ok(p) => p,
            Err(e) => {
                return Err(e);
            },
        };
        Ok(sync_outcome(notes_pushed, notes_pulled, conflicts))
    }
}

// ---------------------------------------------------------------------------
// The Git provider's configuration
// ---------------------------------------------------------------------------

/// Sync through a Git repository, driven by the `git` command.
///
/// Push: encrypt each changed note to `<uuid>.md.age` in the repository,
/// remove the files of notes that no longer exist, stage, commit, push.
/// Pull: fetch and pull, then decrypt the changed `.md.age` files into the
/// notes folder, keeping a conflict copy where the note also exists locally.
#[derive(Debug)]
pub struct GitSyncProvider {
    pub remote_url: String,
    pub branch: String,
    pub repo_path: String,
}

impl GitSyncProvider {
    /// A provider for the given remote, branch and local repository.
    pub fn new(remote_url: String, branch: String, repo_path: String) -> (p: Self)
        ensures
            p.remote_url == remote_url,
            p.branch == branch,
            p.repo_path == repo_path,
    {
        GitSyncProvider { remote_url, branch, repo_path }
    }

    /// Configured when it has a remote.
    pub fn is_configured(&self) -> (b: bool)
        ensures
            b == (self.remote_url@.len() > 0),
    {
        self.remote_url.as_str().unicode_len() > 0
    }

    /// Not configured without a remote, idle otherwise.
    pub fn status(&self) -> (s: SyncStatus)
        ensures
            s == (if self.remote_url@.len() > 0 {
                SyncStatus::Idle
            } else {
                SyncStatus::NotConfigured
            }),
    {
        if !self.is_configured() {
            return SyncStatus::NotConfigured;
        }
        SyncStatus::Idle
    }

    /// The public key for the secret key file whose text is
    /// `key_file_content`.
    pub fn public_key(key_file_content: &str) -> (r: Result<String, CryptoError>)
        ensures
            r is Ok <==> identity_parse_error(trim(key_file_content@)) is None,
            r matches Ok(k) ==> k@ == public_of_secret(trim(key_file_content@))
                && recipient_parse_error(k@) is None && !is_low_order_recipient(k@),
            r matches Err(e) ==> (e matches CryptoError::InvalidSecretKey(m) && identity_parse_error(
                trim(key_file_content@),
            ) == Some(m@)),
    {
        match load_secret_key(key_file_content) {
            Ok(key) => Ok(public_key(&key)),
            Err(e) => Err(e),
        }
    }
}

// ---------------------------------------------------------------------------
// Remote file names
// ---------------------------------------------------------------------------

/// `s` with `p` removed from its end as many times as it occurs there
/// (`str::trim_end_matches`).
pub open spec fn strip_suffixes(s: Seq<char>, p: Seq<char>) -> Seq<char>
    decreases s.len(),
{
    if p.len() > 0 && ends_with(s, p) {
        strip_suffixes(s.take(s.len() - p.len()), p)
    } else {
        s
    }
}

/// A file in the sync repository that holds an encrypted note:
/// `<id>.md.age`, not hidden.
pub open spec fn is_age_file_name(f: Seq<char>) -> bool {
    ends_with(f, ".md.age"@) && !(f.len() > 0 && f[0] == '.')
}

/// The note id an encrypted note's file name stands for.
pub open spec fn age_file_note_id(f: Seq<char>) -> Seq<char> {
    strip_suffixes(f, ".md.age"@)
}

/// The remote file name of a note: its UUID and `.md.age`, so that titles
/// never reach the remote.
pub open spec fn age_file_name_text(id: u128) -> Seq<char> {
    uuid_text(id) + ".md.age"@
}

/// `str::trim_end_matches(p)`.
pub fn strip_suffixes_exec(s: &Vec<char>, p: &Vec<char>) -> (r: Vec<char>)
    ensures
        r@ == strip_suffixes(s@, p@),
{
    let mut end = s.len();
    if p.len() == 0 {
        return sub_chars(s, 0, end);
    }
    assert(s@.take(end as int) =~= s@);
    loop
        invariant
            p@.len() > 0,
            end <= s.len(),
            strip_suffixes(s@, p@) == strip_suffixes(s@.take(end as int), p@),
        decreases end,
    {
        let head = sub_chars(s, 0, end);
        if !ends_with_exec(&head, p) {
            return head;
        }
        assert(s@.take(end as int).take(end - p@.len()) =~= s@.take(end - p@.len()));
        end = end - p.len();
    }
}

/// The remote file name of a note: `<uuid>.md.age`.
pub fn age_file_name(id: u128) -> (s: String)
    ensures
        s@ == age_file_name_text(id),
{
    let mut s = uuid_to_string(id);
    s.append(".md.age");
    s
}

/// The note id of a repository file, when it holds an encrypted note.
pub fn age_file_id(name: &str) -> (r: Option<String>)
    ensures
        r is Some <==> is_age_file_name(name@),
        r matches Some(id) ==> id@ == age_file_note_id(name@),
{
    let v = chars_of(name);
    let ext = chars_of(".md.age");
    if !ends_with_exec(&v, &ext) || (v.len() > 0 && v[0] == '.') {
        return None;
    }
    let id = strip_suffixes_exec(&v, &ext);
    Some(string_of(&id, 0, id.len()))
}

/// The set of note ids in the repository's file names, without repeats.
pub open spec fn remote_ids_contain(names: Seq<Seq<char>>, x: Seq<char>) -> bool {
    exists|k: int| 0 <= k < names.len() && is_age_file_name(names[k]) && age_file_note_id(names[k]) == x
}

/// The note ids of the encrypted notes among a repository's file names,
/// each once.
pub fn remote_note_ids(file_names: &Vec<String>) -> (ids: Vec<String>)
    ensures
        texts(ids@).no_duplicates(),
        forall|x: Seq<char>| texts(ids@).contains(x) <==> remote_ids_contain(texts(file_names@), x),
{
    let ghost names = texts(file_names@);
    let mut ids: Vec<String> = Vec::new();
    let mut k: usize = 0;
    while k < file_names.len()
        invariant
            k <= file_names.len(),
            names == texts(file_names@),
            texts(ids@).no_duplicates(),
            forall|x: Seq<char>| texts(ids@).contains(x) <==> remote_ids_contain(names.take(k as int), x),
        decreases file_names.len() - k,
    {
        assert(names[k as int] == file_names[k as int]@);
        let found = age_file_id(file_names[k].as_str());
        let ghost before = ids@;
        let ghost fid: Option<Seq<char>> = match &found {
            Some(i) => Some(i@),
            None => None,
        };
        match found {
            Some(id) => {
                if !contains_text(&ids, &id) {
                    ids.push(id);
                    assert(texts(ids@) =~= texts(before).push(fid->0));
                    assert forall|a: int, b: int|
                        0 <= a < b < texts(ids@).len() implies texts(ids@)[a] != texts(ids@)[b] by {
                        if b == texts(before).len() {
                            assert(texts(before).contains(texts(before)[a]));
                        } else {
                            assert(texts(before)[a] != texts(before)[b]);
                        }
                    }
                }
            },
            None => {},
        }
        let ghost prefix = names.take(k + 1);
        assert(prefix[k as int] == names[k as int]);
        assert forall|m: int| 0 <= m < k implies prefix[m] == #[trigger] names.take(k as int)[m] by {}
        assert forall|x: Seq<char>|
            texts(ids@).contains(x) <==> remote_ids_contain(prefix, x) by {
            if texts(ids@).contains(x) {
                let j = choose|j: int| 0 <= j < texts(ids@).len() && texts(ids@)[j] == x;
                if j < before.len() {
                    assert(texts(before)[j] == x);
                    assert(texts(before).contains(x));
                    assert(remote_ids_contain(names.take(k as int), x));
                    let m = choose|m: int|
                        0 <= m < names.take(k as int).len() && is_age_file_name(
                            names.take(k as int)[m],
                        ) && age_file_note_id(names.take(k as int)[m]) == x;
                    assert(prefix[m] == names.take(k as int)[m]);
                    assert(0 <= m < prefix.len() && is_age_file_name(prefix[m]) && age_file_note_id(
                        prefix[m],
                    ) == x);
                } else {
                    assert(x == fid->0);
                    assert(0 <= k < prefix.len() && is_age_file_name(prefix[k as int])
                        && age_file_note_id(prefix[k as int]) == x);
                }
            }
            if remote_ids_contain(prefix, x) {
                let m = choose|m: int|
                    0 <= m < prefix.len() && is_age_file_name(prefix[m]) && age_file_note_id(
                        prefix[m],
                    ) == x;
                if m < k {
                    assert(names.take(k as int)[m] == prefix[m]);
                    assert(remote_ids_contain(names.take(k as int), x));
                    assert(texts(before).contains(x));
                    let j = choose|j: int| 0 <= j < texts(before).len() && texts(before)[j] == x;
                    assert(texts(ids@)[j] == x);
                } else {
                    assert(fid == Some(x));
                    if texts(before).contains(x) {
                        let j = choose|j: int| 0 <= j < texts(before).len() && texts(before)[j] == x;
                        assert(texts(ids@)[j] == x);
                    } else {
                        assert(texts(ids@)[before.len() as int] == x);
                    }
                }
            }
        }
        k = k + 1;
    }
    assert(names.take(file_names.len() as int) =~= names);
    ids
}

/// The remote ids that are not among the local ones, in order: their files
/// belong to notes deleted locally.
pub fn stale_remote_ids(remote: &Vec<String>, local: &Vec<String>) -> (r: Vec<String>)
    ensures
        texts(r@) == texts(remote@).filter(|x: Seq<char>| !texts(local@).contains(x)),
{
    let ghost keep = |x: Seq<char>| !texts(local@).contains(x);
    let mut r: Vec<String> = Vec::new();
    let mut k: usize = 0;
    while k < remote.len()
        invariant
            k <= remote.len(),
            keep == (|x: Seq<char>| !texts(local@).contains(x)),
            texts(r@) == texts(remote@).take(k as int).filter(keep),
        decreases remote.len() - k,
    {
        let ghost before = r@;
        assert(texts(remote@).take(k + 1).drop_last() =~= texts(remote@).take(k as int));
        assert(texts(remote@).take(k + 1).last() == remote[k as int]@);
        reveal_with_fuel(Seq::filter, 1);
        if !contains_text(local, &remote[k]) {
            r.push(remote[k].clone());
            assert(texts(r@) =~= texts(before).push(remote[k as int]@));
        }
        k = k + 1;
    }
    assert(texts(remote@).take(remote.len() as int) =~= texts(remote@));
    r
}

/// The ids of notes, as the text their remote files are named by.
pub fn local_note_ids(notes: &Vec<Note>) -> (ids: Vec<String>)
    ensures
        ids@.len() == notes@.len(),
        forall|i: int| 0 <= i < notes@.len() ==> #[trigger] ids@[i]@ == uuid_text(notes@[i].id),
{
    let mut ids: Vec<String> = Vec::new();
    let mut k: usize = 0;
    while k < notes.len()
        invariant
            k <= notes.len(),
            ids@.len() == k,
            forall|i: int| 0 <= i < k ==> #[trigger] ids@[i]@ == uuid_text(notes@[i].id),
        decreases notes.len() - k,
    {
        ids.push(uuid_to_string(notes[k].id));
        k = k + 1;
    }
    ids
}

// ---------------------------------------------------------------------------
// Push
// ---------------------------------------------------------------------------

/// A note needs pushing when its remote file is missing (`None`), or when
/// its local file was modified after the remote one (`Some((local, remote))`).
pub open spec fn needs_push(stamp: Option<(Timestamp, Timestamp)>) -> bool {
    match stamp {
        None => true,
        Some((local, remote)) => local.later_than(remote),
    }
}

/// The notes, in order, whose modification times call for a push.
pub open spec fn changed_among(notes: Seq<Note>, stamps: Seq<Option<(Timestamp, Timestamp)>>) -> Seq<
    Note,
>
    decreases notes.len(),
{
    if notes.len() == 0 {
        Seq::<Note>::empty()
    } else {
        let prev = changed_among(notes.drop_last(), stamps.drop_last());
        if needs_push(stamps.last()) {
            prev.push(notes.last())
        } else {
            prev
        }
    }
}

/// Adding one more note to the list adds it to the notes pushed exactly
/// when it has no remote file yet or its local file was modified strictly
/// after its remote file (by second, then by nanosecond); nothing is
/// pushed from an empty list.
pub proof fn law_changed_notes(
    notes: Seq<Note>,
    stamps: Seq<Option<(Timestamp, Timestamp)>>,
    n: Note,
    stamp: Option<(Timestamp, Timestamp)>,
)
    ensures
        changed_among(Seq::<Note>::empty(), Seq::<Option<(Timestamp, Timestamp)>>::empty())
            == Seq::<Note>::empty(),
        changed_among(notes.push(n), stamps.push(stamp)) == changed_among(notes, stamps) + (
        match stamp {
            None => seq![n],
            Some((local, remote)) => if local.secs > remote.secs || (local.secs == remote.secs
                && local.nanos > remote.nanos) {
                seq![n]
            } else {
                Seq::<Note>::empty()
            },
        }),
{
    assert(notes.push(n).drop_last() =~= notes);
    assert(stamps.push(stamp).drop_last() =~= stamps);
    let prev = changed_among(notes, stamps);
    assert(prev.push(n) =~= prev + seq![n]);
    assert(prev =~= prev + Seq::<Note>::empty());
}

/// The remote file exists and was modified no earlier than the local one.
pub open spec fn remote_up_to_date(stamp: Option<(Timestamp, Timestamp)>) -> bool {
    match stamp {
        Some((local, remote)) => remote.secs > local.secs || (remote.secs == local.secs
            && remote.nanos >= local.nanos),
        None => false,
    }
}

/// A note whose remote file is at least as recent as its local file is
/// never pushed: when every note has such a remote file, nothing is; and
/// when no note has one (each lacks a remote file or was modified after
/// it), every note is, in order.
pub proof fn law_unchanged_notes_stay(notes: Seq<Note>, stamps: Seq<Option<(Timestamp, Timestamp)>>)
    requires
        notes.len() == stamps.len(),
    ensures
        (forall|i: int| 0 <= i < stamps.len() ==> remote_up_to_date(#[trigger] stamps[i]))
            ==> changed_among(notes, stamps).len() == 0,
        (forall|i: int| 0 <= i < stamps.len() ==> !remote_up_to_date(#[trigger] stamps[i]))
            ==> changed_among(notes, stamps) == notes,
    decreases notes.len(),
{
    if notes.len() > 0 {
        law_unchanged_notes_stay(notes.drop_last(), stamps.drop_last());
        law_changed_notes(notes.drop_last(), stamps.drop_last(), notes.last(), stamps.last());
        assert(notes.drop_last().push(notes.last()) =~= notes);
        assert(stamps.drop_last().push(stamps.last()) =~= stamps);
        let k = stamps.len() - 1;
        assert(stamps.last() == stamps[k]);
        assert forall|i: int| 0 <= i < stamps.drop_last().len() implies #[trigger] stamps.drop_last()[i]
            == stamps[i] by {}
        if forall|i: int| 0 <= i < stamps.len() ==> remote_up_to_date(#[trigger] stamps[i]) {
            assert(remote_up_to_date(stamps[k]));
            assert forall|i: int| 0 <= i < stamps.drop_last().len() implies remote_up_to_date(
                #[trigger] stamps.drop_last()[i],
            ) by {
                assert(remote_up_to_date(stamps[i]));
            }
        }
        if forall|i: int| 0 <= i < stamps.len() ==> !remote_up_to_date(#[trigger] stamps[i]) {
            assert(!remote_up_to_date(stamps[k]));
            assert forall|i: int| 0 <= i < stamps.drop_last().len() implies !remote_up_to_date(
                #[trigger] stamps.drop_last()[i],
            ) by {
                assert(!remote_up_to_date(stamps[i]));
            }
            assert(notes.drop_last() + seq![notes.last()] =~= notes);
        }
    }
}

/// Whether a note with these file times needs pushing.
pub fn needs_push_exec(stamp: &Option<(Timestamp, Timestamp)>) -> (b: bool)
    ensures
        b == needs_push(*stamp),
{
    match stamp {
        None => true,
        Some((local, remote)) => local.is_later_than(remote),
    }
}

/// The notes that changed since they were last pushed; `stamps[i]` gives
/// the modification times of the local and remote files of `notes[i]`, or
/// `None` when the note has no remote file yet.
pub fn select_changed(notes: Vec<Note>, stamps: &Vec<Option<(Timestamp, Timestamp)>>) -> (r: Vec<
    Note,
>)
    requires
        stamps@.len() == notes@.len(),
    ensures
        r@ == changed_among(notes@, stamps@),
{
    let ghost all = notes@;
    assert(all.len() == notes.len());
    let mut input = notes;
    let mut out: Vec<Note> = Vec::new();
    let mut k: usize = 0;
    while input.len() > 0
        invariant
            k + input@.len() == all.len(),
            all.len() <= usize::MAX,
            stamps@.len() == all.len(),
            input@ == all.skip(k as int),
            out@ == changed_among(all.take(k as int), stamps@.take(k as int)),
        decreases input.len(),
    {
        let x = input.remove(0);
        assert(all.take(k + 1).drop_last() =~= all.take(k as int));
        assert(stamps@.take(k + 1).drop_last() =~= stamps@.take(k as int));
        assert(all.take(k + 1).last() == x);
        assert(stamps@.take(k + 1).last() == stamps@[k as int]);
        assert(input@ =~= all.skip(k + 1));
        if needs_push_exec(&stamps[k]) {
            out.push(x);
        }
        k = k + 1;
    }
    assert(all.take(k as int) =~= all);
    assert(stamps@.take(k as int) =~= stamps@);
    out
}

/// The bytes a note is encrypted from: its file content, in UTF-8.
pub fn note_plaintext(note: &Note) -> (b: Vec<u8>)
    requires
        note.wf(),
    ensures
        b@ == encode_utf8(note_text(note.id, note.created, note.content@)),
        note.created.in_four_digit_years() ==> frontmatter_of(
            note_text(note.id, note.created, note.content@),
        ) == (Some(note.id), Some(note.created.whole_second()), note.content@),
{
    let s = serialize_note(note);
    s.as_str().as_bytes_vec()
}

/// A note encrypted for the remote, to the public key given as text: an age
/// file that every secret key with that public key decrypts to the note's
/// file content. It fails exactly when the public key does not parse, with
/// an error naming the note.
pub fn note_payload(note: &Note, public_key: &str) -> (r: Result<Vec<u8>, SyncError>)
    requires
        note.wf(),
        !is_low_order_recipient(public_key@),
    ensures
        recipient_parse_error(public_key@) is Some <==> r is Err,
        r matches Err(e) ==> (e matches SyncError::EncryptNote { id, reason } && id@ == uuid_text(
            note.id,
        ) && (recipient_parse_error(public_key@) matches Some(m) && reason@
            == "Invalid public key: "@ + m)),
        r matches Ok(c) ==> is_age_v1_file(c@) && forall|sk: Seq<char>|
            identity_parse_error(sk) is None && public_of_secret(sk) == public_key@
                ==> #[trigger] age_decrypt(sk, c@) == Some(
                encode_utf8(note_text(note.id, note.created, note.content@)),
            ),
        note.created.in_four_digit_years() ==> frontmatter_of(
            note_text(note.id, note.created, note.content@),
        ) == (Some(note.id), Some(note.created.whole_second()), note.content@),
{
    let plaintext = note_plaintext(note);
    match encrypt(public_key, plaintext.as_slice()) {
        Ok(c) => Ok(c),
        Err(e) => Err(SyncError::EncryptNote { id: uuid_to_string(note.id), reason: e.message() }),
    }
}

/// The file `file` written for `note` by a push: named `<id>.md.age`, never
/// by the title, and holding an age file that every secret key with the
/// public key `public_key` decrypts to the note's file content, never the
/// plaintext itself.
pub open spec fn is_pushed_file(note: Note, public_key: Seq<char>, file: (String, Vec<u8>)) -> bool {
    &&& file.0@ == age_file_name_text(note.id)
    &&& is_age_v1_file(file.1@)
    &&& forall|sk: Seq<char>|
        identity_parse_error(sk) is None && public_of_secret(sk) == public_key ==> #[trigger] age_decrypt(
            sk,
            file.1@,
        ) == Some(encode_utf8(note_text(note.id, note.created, note.content@)))
    &&& note.created.in_four_digit_years() ==> frontmatter_of(
        note_text(note.id, note.created, note.content@),
    ) == (Some(note.id), Some(note.created.whole_second()), note.content@)
}

/// A note that a push wrote decrypts, with any secret key of the public key
/// it was encrypted to, to the UTF-8 text of a note file whose front matter
/// gives the note's id and creation time (to the second) and whose body is
/// its content; `read_pulled_note` reads such text back as exactly that.
pub proof fn law_pushed_note_reads_back(
    note: Note,
    public_key: Seq<char>,
    file: (String, Vec<u8>),
    sk: Seq<char>,
)
    requires
        is_pushed_file(note, public_key, file),
        identity_parse_error(sk) is None,
        public_of_secret(sk) == public_key,
        note.created.in_four_digit_years(),
    ensures
        exists|t: Seq<char>|
            {
                &&& age_decrypt(sk, file.1@) == Some(#[trigger] encode_utf8(t))
                &&& frontmatter_of(t) == (
                    Some(note.id),
                    Some(note.created.whole_second()),
                    note.content@,
                )
            },
{
    let t = note_text(note.id, note.created, note.content@);
    assert(age_decrypt(sk, file.1@) == Some(encode_utf8(t)));
}

/// What a push writes into the repository for the notes that changed: one
/// file per note, in order, each `<id>.md.age` holding the note encrypted to
/// `public_key`. It fails exactly when there is a note to encrypt and the
/// public key does not parse.
pub fn push_files(changed: &Vec<Note>, public_key: &str) -> (r: Result<Vec<(String, Vec<u8>)>, SyncError>)
    requires
        forall|i: int| 0 <= i < changed@.len() ==> #[trigger] changed@[i].wf(),
        !is_low_order_recipient(public_key@),
    ensures
        changed@.len() > 0 ==> (recipient_parse_error(public_key@) is Some <==> r is Err),
        changed@.len() == 0 ==> r is Ok,
        r matches Ok(files) ==> files@.len() == changed@.len() && forall|i: int|
            0 <= i < files@.len() ==> is_pushed_file(changed@[i], public_key@, #[trigger] files@[i]),
{
    let mut files: Vec<(String, Vec<u8>)> = Vec::new();
    let mut k: usize = 0;
    while k < changed.len()
        invariant
            k <= changed@.len(),
            forall|i: int| 0 <= i < changed@.len() ==> #[trigger] changed@[i].wf(),
            !is_low_order_recipient(public_key@),
            k > 0 ==> recipient_parse_error(public_key@) is None,
            files@.len() == k,
            forall|i: int|
                0 <= i < k ==> is_pushed_file(changed@[i], public_key@, #[trigger] files@[i]),
        decreases changed.len() - k,
    {
        let note = &changed[k];
        let payload = match note_payload(note, public_key) {
            Ok(c) => c,
            Err(e) => {
                return Err(e);
            },
        };
        let name = age_file_name(note.id);
        let ghost before = files@;
        files.push((name, payload));
        assert forall|i: int| 0 <= i < k + 1 implies is_pushed_file(
            changed@[i],
            public_key@,
            #[trigger] files@[i],
        ) by {
            if i < k {
                assert(files@[i] == before[i]);
            }
        }
        k = k + 1;
    }
    Ok(files)
}

/// Whether `git status --porcelain` printed nothing, so there is nothing to
/// commit.
pub fn nothing_to_commit(status_stdout: &[u8]) -> (b: bool)
    ensures
        b == (trim(utf8_lossy_text(status_stdout@)).len() == 0),
{
    let text = utf8_lossy(status_stdout);
    let v = chars_of(text.as_str());
    let (lo, hi) = trim_bounds(&v);
    lo == hi
}

// ---------------------------------------------------------------------------
// Pull
// ---------------------------------------------------------------------------

/// The commit a `git rev-parse HEAD` output names.
pub fn head_of(rev_parse_stdout: &[u8]) -> (s: String)
    ensures
        s@ == trim(utf8_lossy_text(rev_parse_stdout@)),
{
    let text = utf8_lossy(rev_parse_stdout);
    let v = chars_of(text.as_str());
    let (lo, hi) = trim_bounds(&v);
    string_of(&v, lo, hi)
}

/// The note id a line of `git diff --name-only` names, when it is an
/// encrypted note's path: its file stem without `.md`.
pub open spec fn diff_line_note_id(l: Seq<char>) -> Option<Seq<char>> {
    if ends_with(l, ".md.age"@) {
        match file_name(l) {
            Some(f) => Some(strip_suffixes(f.take(f.len() - 4), ".md"@)),
            None => None,
        }
    } else {
        None
    }
}

/// The note ids named by the lines of a diff, in order.
pub open spec fn diff_note_ids(ls: Seq<Seq<char>>) -> Seq<Seq<char>>
    decreases ls.len(),
{
    if ls.len() == 0 {
        Seq::<Seq<char>>::empty()
    } else {
        let prev = diff_note_ids(ls.drop_last());
        match diff_line_note_id(ls.last()) {
            Some(id) => prev.push(id),
            None => prev,
        }
    }
}

/// The ids of the encrypted notes a pull changed, from the output of
/// `git diff --name-only <before> <after>`.
pub fn changed_ids_from_diff(diff_stdout: &[u8]) -> (ids: Vec<String>)
    ensures
        texts(ids@) == diff_note_ids(lines(utf8_lossy_text(diff_stdout@))),
{
    let text = utf8_lossy(diff_stdout);
    let v = chars_of(text.as_str());
    let ls = lines_exec(&v);
    let ext = chars_of(".md.age");
    let md = chars_of(".md");
    proof {
        reveal_strlit(".md.age");
    }
    let ghost all = lines(utf8_lossy_text(diff_stdout@));
    let mut ids: Vec<String> = Vec::new();
    let mut k: usize = 0;
    while k < ls.len()
        invariant
            k <= ls.len(),
            rows(ls@) == all,
            ext@ == ".md.age"@,
            md@ == ".md"@,
            ".md.age"@.len() == 7,
            texts(ids@) == diff_note_ids(all.take(k as int)),
        decreases ls.len() - k,
    {
        let ghost before = ids@;
        assert(all.take(k + 1).drop_last() =~= all.take(k as int));
        assert(all.take(k + 1).last() == ls[k as int]@);
        if ends_with_exec(&ls[k], &ext) {
            let line = string_of(&ls[k], 0, ls[k].len());
            assert(ls[k as int]@.subrange(0, ls[k as int]@.len() as int) =~= ls[k as int]@);
            match file_name_of(line.as_str()) {
                Some(f) => {
                    let fv = chars_of(f.as_str());
                    if fv.len() >= 4 {
                        let stem = sub_chars(&fv, 0, fv.len() - 4);
                        let id = strip_suffixes_exec(&stem, &md);
                        ids.push(string_of(&id, 0, id.len()));
                        assert(id@.subrange(0, id@.len() as int) =~= id@);
                        assert(texts(ids@) =~= texts(before).push(id@));
                    } else {
                        proof {
                            lemma_age_file_name_long(line@);
                        }
                    }
                },
                None => {},
            }
        }
        k = k + 1;
    }
    assert(all.take(ls.len() as int) =~= all);
    ids
}

/// The file name of a path ending in `.md.age` is at least that long.
proof fn lemma_age_file_name_long(p: Seq<char>)
    requires
        ends_with(p, ".md.age"@),
        ".md.age"@.len() == 7,
    ensures
        file_name(p) matches Some(f) ==> f.len() >= 4,
{
    reveal_strlit(".md.age");
    let ps = pieces(p, '/');
    lemma_pieces_no_sep(p, '/');
    // The last piece is the end of `p` after its last '/', which holds `.md.age`.
    let k = p.len() - 7;
    assert(p.skip(k) =~= ".md.age"@);
    assert forall|j: int| k <= j < p.len() implies p[j] != '/' by {
        assert(p[j] == p.skip(k)[j - k]);
    }
    lemma_last_piece_suffix(p, '/', 7);
    assert(ps.last().len() >= 7);
    assert(ps.last() != seq!['.']) by {
        assert(ps.last().len() != 1);
    }
    assert(last_named(ps) == Some(ps.last()));
}

/// The text a pulled note was encrypted from, read as a note: its front
/// matter gives its id and creation time (fresh ones where missing), and
/// `stem` is the file-name stem for its title. Text pushed by
/// `note_plaintext` reads back as the pushed note's id, creation time and
/// content.
pub fn read_pulled_note(plaintext: &[u8]) -> (r: (Note, String))
    ensures
        r.0.wf(),
        frontmatter_of(utf8_lossy_text(plaintext@)).0 matches Some(id) ==> r.0.id == id,
        frontmatter_of(utf8_lossy_text(plaintext@)).0 is None ==> is_v4_uuid(r.0.id),
        frontmatter_of(utf8_lossy_text(plaintext@)).1 matches Some(c) ==> r.0.created == c,
        frontmatter_of(utf8_lossy_text(plaintext@)).1 is None ==> r.0.created.is_clock_reading(),
        r.0.modified.is_clock_reading(),
        r.0.content@ == frontmatter_of(utf8_lossy_text(plaintext@)).2,
        r.0.title@ == title_of(frontmatter_of(utf8_lossy_text(plaintext@)).2),
        is_note_file_name(r.0.title@, r.1@ + ".md"@),
        slug_text(r.0.title@).len() > 0 ==> r.1@ == slug_text(r.0.title@),
        slug_text(r.0.title@).len() == 0 ==> exists|id: u128|
            is_v4_uuid(id) && r.1@ == "note-"@ + #[trigger] uuid_text(id),
        forall|t: Seq<char>| #[trigger] encode_utf8(t) == plaintext@ ==> utf8_lossy_text(plaintext@) == t,
{
    let text = utf8_lossy(plaintext);
    proof {
        assert forall|t: Seq<char>| #[trigger] encode_utf8(t) == plaintext@ implies utf8_lossy_text(
            plaintext@,
        ) == t by {
            vstd::utf8::encode_utf8_valid_utf8(t);
            vstd::utf8::encode_utf8_decode_utf8(t);
        }
    }
    let note = deserialize_content(text.as_str());
    let stem = crate::note::slugify(note.title.as_str());
    proof {
        reveal_strlit(".md");
        let name = stem@ + ".md"@;
        assert(name.take(name.len() - 3) =~= stem@);
        assert(name =~= stem@ + ".md"@);
    }
    (note, stem)
}

/// Where a note with this file-name stem is written in the notes folder.
pub fn note_path(notes_folder: &str, stem: &str) -> (p: String)
    ensures
        p@ == join(notes_folder@, stem@ + ".md"@),
{
    let mut name = String::from_str(stem);
    name.append(".md");
    join_path(notes_folder, name.as_str())
}

/// The name of a conflict copy: `<stem>.conflict-<date>.md`, or with
/// `-<counter>` after the date when that name is taken.
pub open spec fn conflict_file_name_text(stem: Seq<char>, date: Seq<char>, counter: Option<usize>) -> Seq<
    char,
> {
    stem + ".conflict-"@ + date + match counter {
        Some(c) => "-"@ + decimal(c as nat),
        None => Seq::<char>::empty(),
    } + ".md"@
}

/// Where the conflict copy of a pulled note goes, dated by `now`.
pub fn conflict_path(notes_folder: &str, stem: &str, now: &Timestamp, counter: Option<usize>) -> (p:
    String)
    requires
        now.valid(),
    ensures
        p@ == join(
            notes_folder@,
            conflict_file_name_text(stem@, ymd_text(now.secs, now.nanos), counter),
        ),
{
    let mut name = String::from_str(stem);
    name.append(".conflict-");
    let date = format_ymd(now);
    name.append(date.as_str());
    match counter {
        Some(c) => {
            name.append("-");
            let digits = decimal_exec(c);
            name.append(digits.as_str());
        },
        None => {},
    }
    name.append(".md");
    join_path(notes_folder, name.as_str())
}

/// Nothing is pushed when no note changed and no stale file was removed.
pub fn nothing_to_push(changed: usize, removed: usize) -> (b: bool)
    ensures
        b == (changed == 0 && removed == 0),
{
    changed == 0 && removed == 0
}

/// The number of notes a push reports: none when `git status` showed
/// nothing to commit, else the changed notes written and the stale files
/// removed.
pub fn push_count(changed: usize, removed: usize, nothing_committed: bool) -> (n: usize)
    requires
        changed + removed <= usize::MAX,
    ensures
        n == (if nothing_committed {
            0
        } else {
            changed + removed
        }),
{
    if nothing_committed {
        0
    } else {
        changed + removed
    }
}

/// The arguments of the `git` command that stages a push: every change
/// (deletions too) under the pathspec `*.md.age`, and nothing else, so
/// neither keys nor plaintext notes are ever committed.
pub open spec fn stage_arg_texts() -> Seq<Seq<char>> {
    seq!["add"@, "-A"@, "--"@, "*.md.age"@]
}

/// The arguments of the `git` command that commits a push: a fixed message
/// that reveals nothing of the notes.
pub open spec fn commit_arg_texts() -> Seq<Seq<char>> {
    seq!["commit"@, "-m"@, "Update notes"@]
}

/// The arguments of the `git` command that commits a push.
pub fn commit_args() -> (v: Vec<String>)
    ensures
        texts(v@) == commit_arg_texts(),
{
    let v = vec![String::from_str("commit"), String::from_str("-m"), String::from_str("Update notes")];
    assert(texts(v@) =~= commit_arg_texts());
    v
}

/// The arguments of the `git` command that stages a push.
pub fn stage_args() -> (v: Vec<String>)
    ensures
        texts(v@) == stage_arg_texts(),
{
    let v = vec![
        String::from_str("add"),
        String::from_str("-A"),
        String::from_str("--"),
        String::from_str("*.md.age"),
    ];
    assert(texts(v@) =~= stage_arg_texts());
    v
}

/// Which encrypted notes a pull looks at.
#[derive(Debug, PartialEq, Eq)]
pub enum PullScope {
    /// The repository was just cloned, or its commit before the pull could
    /// not be read: every encrypted note in the repository.
    All,
    /// The commit moved: the notes `git diff --name-only <before> <after>`
    /// names.
    Diff,
    /// Nothing changed (or the new commit could not be read).
    Nothing,
}

/// The scope of a pull, from whether the repository was just cloned (a
/// fresh device, which pulls every note) and the commits before and after
/// the pull.
pub fn pull_scope(just_cloned: bool, head_before: &Option<String>, head_after: &Option<String>) -> (s:
    PullScope)
    ensures
        just_cloned || head_before is None ==> s == PullScope::All,
        !just_cloned ==> (head_before matches Some(b) ==> match head_after {
            Some(a) => if a@ != b@ {
                s == PullScope::Diff
            } else {
                s == PullScope::Nothing
            },
            None => s == PullScope::Nothing,
        }),
{
    if just_cloned {
        return PullScope::All;
    }
    match head_before {
        None => PullScope::All,
        Some(b) => match head_after {
            Some(a) => if *a != *b {
                PullScope::Diff
            } else {
                PullScope::Nothing
            },
            None => PullScope::Nothing,
        },
    }
}

/// The note id of a repository file a pull decrypts: an encrypted note
/// whose id is among the changed ones.
pub fn entry_to_pull(file_name: &str, changed_ids: &Vec<String>) -> (r: Option<String>)
    ensures
        r is Some <==> is_age_file_name(file_name@) && texts(changed_ids@).contains(
            age_file_note_id(file_name@),
        ),
        r matches Some(id) ==> id@ == age_file_note_id(file_name@),
{
    match age_file_id(file_name) {
        Some(id) => if contains_text(changed_ids, &id) {
            Some(id)
        } else {
            None
        },
        None => None,
    }
}

/// The conflict counter of slot `j`: slot 0 is the name without a counter,
/// slot `j > 0` the name with counter `j`.
pub open spec fn slot_counter(j: int) -> Option<usize> {
    if j == 0 {
        None
    } else {
        Some(j as usize)
    }
}

/// `j` is the first slot not known to be taken: every slot before it is
/// taken, and it is free or not yet looked at.
pub open spec fn first_free_slot(taken: Seq<bool>, j: int) -> bool {
    &&& 0 <= j <= taken.len()
    &&& forall|i: int| 0 <= i < j ==> #[trigger] taken[i]
    &&& j < taken.len() ==> !taken[j]
}

/// The name of slot `j` for a note stored under `stem`: `<stem>.md`, then
/// `<stem>-1.md`, `<stem>-2.md`, …
pub open spec fn free_name_text(stem: Seq<char>, j: int) -> Seq<char> {
    if j == 0 {
        stem + ".md"@
    } else {
        stem + "-"@ + decimal(j as nat) + ".md"@
    }
}

/// The local side of a pulled note.
#[derive(Debug)]
pub enum LocalCopy {
    /// No local note has its id.
    Absent,
    /// A local note with its id, not modified since the last sync, stored
    /// at this path.
    Unchanged(String),
    /// A local note with its id, modified since the last sync.
    Changed,
}

/// The local side of the note with id `id`: the first of the local notes
/// (`ids[i]`, stored at `paths[i]`, modified since the last sync when
/// `changed[i]`) that has it.
pub fn local_copy_of(ids: &Vec<String>, paths: &Vec<String>, changed: &Vec<bool>, id: &String) -> (r:
    LocalCopy)
    requires
        paths@.len() == ids@.len(),
        changed@.len() == ids@.len(),
    ensures
        r is Absent <==> !texts(ids@).contains(id@),
        !(r is Absent) ==> exists|i: int|
            {
                &&& 0 <= i < ids@.len()
                &&& #[trigger] ids@[i]@ == id@
                &&& forall|j: int| 0 <= j < i ==> ids@[j]@ != id@
                &&& (if changed@[i] {
                    r is Changed
                } else {
                    r matches LocalCopy::Unchanged(p) && p@ == paths@[i]@
                })
            },
{
    let mut i: usize = 0;
    while i < ids.len()
        invariant
            i <= ids@.len(),
            paths@.len() == ids@.len(),
            changed@.len() == ids@.len(),
            forall|j: int| 0 <= j < i ==> ids@[j]@ != id@,
        decreases ids.len() - i,
    {
        if ids[i] == *id {
            assert(texts(ids@)[i as int] == id@);
            if changed[i] {
                return LocalCopy::Changed;
            } else {
                return LocalCopy::Unchanged(paths[i].clone());
            }
        }
        i = i + 1;
    }
    assert forall|j: int| 0 <= j < texts(ids@).len() implies texts(ids@)[j] != id@ by {
        assert(texts(ids@)[j] == ids@[j]@);
    }
    LocalCopy::Absent
}

/// Where a pulled note is written.
#[derive(Debug, PartialEq, Eq)]
pub struct PullDestination {
    pub path: String,
    /// It is a conflict copy.
    pub conflict: bool,
    /// The path must not be taken by a file already: when it is, the slot
    /// is marked taken and the next one asked for.
    pub fresh: bool,
}

/// Where a pulled note is written. A local note of that id not modified
/// since the last sync takes the incoming version in its own file. A local
/// note modified since then is kept, and the incoming version becomes a
/// conflict copy dated by `now`: the first of
/// `<stem>.conflict-<date>.md`, `<stem>.conflict-<date>-1.md`, … whose slot
/// is not taken. Without a local note of that id, the note goes to the
/// first of `<stem>.md`, `<stem>-1.md`, … whose slot is not taken, so no
/// other note's file is overwritten. `taken[j]` tells whether the file of
/// slot `j` was found to exist; when every slot looked at is taken, the
/// next slot is returned, to be looked at in turn.
pub fn pull_destination(
    notes_folder: &str,
    stem: &str,
    local: &LocalCopy,
    now: &Timestamp,
    taken: &Vec<bool>,
) -> (r: PullDestination)
    requires
        now.valid(),
    ensures
        local matches LocalCopy::Unchanged(p) ==> r.path@ == p@ && !r.conflict && !r.fresh,
        local is Absent ==> !r.conflict && r.fresh && exists|j: int|
            first_free_slot(taken@, j) && r.path@ == join(
                notes_folder@,
                #[trigger] free_name_text(stem@, j),
            ),
        local is Changed ==> r.conflict && r.fresh && exists|j: int|
            first_free_slot(taken@, j) && r.path@ == join(
                notes_folder@,
                conflict_file_name_text(stem@, ymd_text(now.secs, now.nanos), #[trigger] slot_counter(j)),
            ),
{
    if let LocalCopy::Unchanged(p) = local {
        return PullDestination { path: p.clone(), conflict: false, fresh: false };
    }
    let mut j: usize = 0;
    while j < taken.len() && taken[j]
        invariant
            j <= taken.len(),
            forall|i: int| 0 <= i < j ==> #[trigger] taken@[i],
        decreases taken.len() - j,
    {
        j = j + 1;
    }
    match local {
        LocalCopy::Changed => {
            let counter = if j == 0 {
                None
            } else {
                Some(j)
            };
            assert(counter == slot_counter(j as int));
            PullDestination {
                path: conflict_path(notes_folder, stem, now, counter),
                conflict: true,
                fresh: true,
            }
        },
        _ => {
            let mut name = String::from_str(stem);
            if j > 0 {
                name.append("-");
                let digits = decimal_exec(j);
                name.append(digits.as_str());
            }
            name.append(".md");
            assert(name@ == free_name_text(stem@, j as int));
            PullDestination { path: join_path(notes_folder, name.as_str()), conflict: false, fresh: true }
        },
    }
}

/// What a pull has done so far: how many notes it wrote, and the paths of
/// the conflict copies among them.
#[derive(Debug)]
pub struct PullTally {
    pub pulled: usize,
    pub conflicts: Vec<String>,
}

impl PullTally {
    /// Nothing pulled yet.
    pub fn new() -> (t: Self)
        ensures
            t.pulled == 0,
            t.conflicts@.len() == 0,
    {
        PullTally { pulled: 0, conflicts: Vec::new() }
    }

    /// One more note written, at `dest`; a conflict copy is listed.
    pub fn record(&mut self, dest: String, conflict: bool)
        requires
            old(self).pulled < usize::MAX,
        ensures
            final(self).pulled == old(self).pulled + 1,
            final(self).conflicts@ == (if conflict {
                old(self).conflicts@.push(dest)
            } else {
                old(self).conflicts@
            }),
    {
        self.pulled = self.pulled + 1;
        if conflict {
            self.conflicts.push(dest);
        }
    }
}

} // verus!
