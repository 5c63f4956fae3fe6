//! The removal of stored files that nothing refers to.
use vstd::hash_set::StringHashSet;
use vstd::prelude::*;
use vstd::utf8::*;

use crate::lists;
use crate::media_manager::files;
use crate::reply::{Reply, INTERNAL_SERVER_ERROR};
use crate::structs::{MediaMissingFile, NamedId};
use crate::text;

verus! {

/// The most objects that are deleted at once.
pub const DELETION_BATCH: usize = 1000;

/// What an object in the store is, going by its key.
#[derive(Clone, Copy, Debug, PartialEq, Eq, Structural)]
pub enum KeyVerdict {
    /// The key is not a directory and a hash.
    Malformed,
    /// The directory does not fit the hash.
    Mismatched,
    /// It is a file that the database knows.
    Known,
    /// It is a file that the database does not know.
    Orphan,
}

/// What the object of a key is, given the hashes that the database knows. The key is the name of a
/// directory, a slash, and a hash; the directory is named by the first two bytes of the hash.
pub open spec fn key_verdict(key: Seq<char>, known: Set<Seq<char>>) -> KeyVerdict {
    match text::find_from(key, "/"@, 0) {
        None => KeyVerdict::Malformed,
        Some(i) => {
            let directory = key.take(i);
            let hash = key.skip(i + 1);
            if directory.len() == 0 || hash.len() == 0 {
                KeyVerdict::Malformed
            } else if encode_utf8(directory).len() != 2 || !directory.is_prefix_of(hash) {
                KeyVerdict::Mismatched
            } else if known.contains(hash) {
                KeyVerdict::Known
            } else {
                KeyVerdict::Orphan
            }
        },
    }
}

/// What the object of a key is.
pub fn judge_key(key: &str, known: &StringHashSet) -> (r: KeyVerdict)
    ensures
        r == key_verdict(key@, known@),
{
    let chars = text::chars_of(key);
    let slash = text::chars_of("/");
    let total = chars.len();
    proof {
        reveal_strlit("/");
    }
    match text::find(&chars, &slash, 0) {
        None => KeyVerdict::Malformed,
        Some(i) => {
            let directory = text::text_of(&chars, 0, i);
            let hash = text::text_of(&chars, i + 1, total);
            if i == 0 || i + 1 == total {
                return KeyVerdict::Malformed;
            }
            if directory.as_str().as_bytes().len() != 2 || !text::begins_with(
                hash.as_str(),
                directory.as_str(),
            ) {
                return KeyVerdict::Mismatched;
            }
            if known.contains(hash.as_str()) {
                KeyVerdict::Known
            } else {
                KeyVerdict::Orphan
            }
        },
    }
}

/// The key under which the file of a hash is stored is never taken for anything but that file,
/// unless the first two bytes of the hash hold a slash.
pub proof fn law_stored_keys_are_understood(hash: Seq<char>, known: Set<Seq<char>>)
    requires
        files::has_prefix(hash),
        !files::hash_prefix(hash).contains('/'),
    ensures
        key_verdict(files::object_key(hash), known) == if known.contains(hash) {
            KeyVerdict::Known
        } else {
            KeyVerdict::Orphan
        },
{
    files::lemma_hash_prefix(hash);
    text::lemma_find_separator(files::hash_prefix(hash), '/', hash);
    assert("/"@ =~= seq!['/']) by {
        reveal_strlit("/");
    }
}

/// The texts of those of the keys that are there.
pub open spec fn keys_given(keys: Seq<Option<String>>) -> Seq<Seq<char>> {
    keys.filter_map(
        |k: Option<String>|
            match k {
                Some(t) => Some(t@),
                None => None,
            },
    )
}

/// A page of the store: the keys of its objects, as far as they have one, and what the store says of
/// further pages.
#[derive(Debug, PartialEq)]
pub struct StorePage {
    pub keys: Vec<Option<String>>,
    pub is_truncated: Option<bool>,
    pub token: Option<String>,
}

/// The search for objects in the store that the database does not know.
pub struct OrphanScan {
    pub known: StringHashSet,
    pub orphans: Vec<String>,
}

impl OrphanScan {
    /// A search that has seen nothing yet, given the hashes that the database knows.
    pub fn new(hashes: &Vec<String>) -> (r: Self)
        ensures
            r.known@ == text::texts(hashes@).to_set(),
            r.orphans@.len() == 0,
    {
        OrphanScan { known: text::set_of(hashes), orphans: Vec::new() }
    }

    /// Whether there is anything to search for. Where the database knows no hash at all, nothing
    /// is deleted.
    pub fn is_worthwhile(&self, dry_run: bool) -> (r: bool)
        ensures
            r == (dry_run || !self.known@.is_empty()),
    {
        dry_run || !self.known.is_empty()
    }

    /// Takes a page of the store: the keys of its objects, as far as they have one.
    pub fn scan_page(&mut self, keys: &Vec<Option<String>>)
        ensures
            final(self).known == old(self).known,
            text::texts(final(self).orphans@) == text::texts(old(self).orphans@) + keys_given(
                keys@,
            ).filter(|k: Seq<char>| key_verdict(k, old(self).known@) == KeyVerdict::Orphan),
    {
        let ghost is_orphan = |k: Seq<char>|
            key_verdict(k, old(self).known@) == KeyVerdict::Orphan;
        let ghost given = |k: Option<String>|
            match k {
                Some(t) => Some(t@),
                None => None,
            };
        let mut i: usize = 0;
        proof {
            reveal(Seq::filter);
            reveal(Seq::filter_map);
            assert(keys@.take(0) =~= Seq::<Option<String>>::empty());
            assert(text::texts(self.orphans@) + keys_given(keys@.take(0)).filter(is_orphan)
                =~= text::texts(self.orphans@));
        }
        while i < keys.len()
            invariant
                i <= keys@.len(),
                self.known == old(self).known,
                is_orphan == (|k: Seq<char>|
                    key_verdict(k, old(self).known@) == KeyVerdict::Orphan),
                text::texts(self.orphans@) == text::texts(old(self).orphans@) + keys_given(
                    keys@.take(i as int),
                ).filter(is_orphan),
            decreases keys@.len() - i,
        {
            let ghost so_far = keys@.take(i as int);
            proof {
                reveal(Seq::filter_map);
                assert(keys@.take(i + 1).drop_last() =~= so_far);
                assert(keys@.take(i + 1).last() == keys@[i as int]);
                keys_given(so_far).lemma_filter_push(
                    match keys@[i as int] {
                        Some(t) => t@,
                        None => Seq::empty(),
                    },
                    is_orphan,
                );
            }
            if let Some(key) = &keys[i] {
                assert(keys_given(keys@.take(i + 1)) =~= keys_given(so_far).push(key@));
                match judge_key(key.as_str(), &self.known) {
                    KeyVerdict::Orphan => {
                        let ghost before = self.orphans@;
                        self.orphans.push(key.clone());
                        assert(text::texts(self.orphans@) =~= text::texts(before).push(key@));
                    },
                    _ => {},
                }
            } else {
                assert(keys_given(keys@.take(i + 1)) =~= keys_given(so_far));
            }
            i += 1;
        }
        assert(keys@.take(keys@.len() as int) =~= keys@);
    }

    /// Takes the next page of the store, and says with what the page behind it is asked for. A page
    /// that could not be had ends the search with a failure.
    pub fn on_page(&mut self, page: Option<StorePage>) -> (r: Result<Option<String>, Reply>)
        ensures
            final(self).known == old(self).known,
            match page {
                Some(p) => {
                    &&& text::texts(final(self).orphans@) == text::texts(old(self).orphans@)
                        + keys_given(p.keys@).filter(
                        |k: Seq<char>| key_verdict(k, old(self).known@) == KeyVerdict::Orphan,
                    )
                    &&& r == Ok::<Option<String>, Reply>(
                        if p.is_truncated == Some(true) {
                            p.token
                        } else {
                            None
                        },
                    )
                },
                None => {
                    &&& final(self).orphans == old(self).orphans
                    &&& r matches Err(e) && e.says(
                        INTERNAL_SERVER_ERROR,
                        cleanup_failure(CleanupFailure::Listing),
                    )
                },
            },
    {
        match page {
            Some(p) => {
                self.scan_page(&p.keys);
                Ok(next_page(p.is_truncated, p.token))
            },
            None => Err(cleanup_failure_reply(CleanupFailure::Listing)),
        }
    }

    /// What is to be deleted: in a dry run, nothing.
    pub fn to_delete(self, dry_run: bool) -> (r: Vec<String>)
        ensures
            r@ == if dry_run {
                Seq::empty()
            } else {
                self.orphans@
            },
    {
        if dry_run {
            Vec::new()
        } else {
            self.orphans
        }
    }
}

/// With what the next page of the store is asked for: nothing where there is none, or where it
/// cannot be asked for.
pub fn next_page(is_truncated: Option<bool>, token: Option<String>) -> (r: Option<String>)
    ensures
        r == if is_truncated == Some(true) {
            token
        } else {
            None
        },
{
    match is_truncated {
        Some(true) => token,
        _ => None,
    }
}

/// The deletion of objects, batch by batch.
pub struct Deletion {
    pub keys: Vec<String>,
    pub sent: usize,
    pub deleted: usize,
    pub had_errors: bool,
}

/// What came of the deletion of a batch.
#[derive(Debug, PartialEq)]
pub struct BatchDeletion {
    /// How many objects were deleted, where the store says so.
    pub deleted: Option<usize>,
    /// The store says that some objects could not be deleted.
    pub errors: bool,
}

impl Deletion {
    /// A deletion that has not begun.
    pub fn new(keys: Vec<String>) -> (r: Self)
        ensures
            r.keys == keys,
            r.sent == 0,
            r.deleted == 0,
            !r.had_errors,
    {
        Deletion { keys, sent: 0, deleted: 0, had_errors: false }
    }

    /// The keys of the next batch; nothing where all have been sent.
    pub fn next_batch(&mut self) -> (r: Option<Vec<String>>)
        requires
            old(self).sent <= old(self).keys@.len(),
        ensures
            final(self).keys == old(self).keys,
            final(self).deleted == old(self).deleted,
            final(self).had_errors == old(self).had_errors,
            final(self).sent <= final(self).keys@.len(),
            match r {
                None => old(self).sent == old(self).keys@.len() && final(self).sent == old(
                    self,
                ).sent,
                Some(keys) => {
                    &&& old(self).sent < old(self).keys@.len()
                    &&& final(self).sent == if old(self).sent + DELETION_BATCH < old(
                        self,
                    ).keys@.len() {
                        old(self).sent + DELETION_BATCH
                    } else {
                        old(self).keys@.len() as int
                    }
                    &&& 0 < keys@.len() <= 1000
                    &&& keys@.len() == 1000 || final(self).sent == final(self).keys@.len()
                    &&& keys@ == old(self).keys@.subrange(
                        old(self).sent as int,
                        final(self).sent as int,
                    )
                    &&& old(self).keys@.take(old(self).sent as int) + keys@ == old(
                        self,
                    ).keys@.take(final(self).sent as int)
                },
            },
    {
        let total = self.keys.len();
        if self.sent == total {
            return None;
        }
        let end = lists::end_of_batch(self.sent, total, DELETION_BATCH);
        let mut out: Vec<String> = Vec::new();
        let mut i: usize = self.sent;
        while i < end
            invariant
                self.sent <= i <= end <= self.keys@.len(),
                out@ == self.keys@.subrange(self.sent as int, i as int),
            decreases end - i,
        {
            out.push(self.keys[i].clone());
            i += 1;
        }
        self.sent = end;
        Some(out)
    }

    /// Takes what came of a batch; nothing where it could not even be sent.
    pub fn on_deleted(&mut self, outcome: Option<BatchDeletion>)
        requires
            outcome matches Some(o) ==> (o.deleted matches Some(n) ==> old(self).deleted + n
                <= usize::MAX),
        ensures
            final(self).keys == old(self).keys,
            final(self).sent == old(self).sent,
            final(self).deleted == old(self).deleted + match outcome {
                Some(o) => match o.deleted {
                    Some(n) => n as int,
                    None => 0,
                },
                None => 0,
            },
            final(self).had_errors == (old(self).had_errors || (outcome matches Some(o)
                ==> o.errors)),
    {
        match outcome {
            None => {
                self.had_errors = true;
            },
            Some(o) => {
                if let Some(n) = o.deleted {
                    self.deleted = self.deleted + n;
                }
                if o.errors {
                    self.had_errors = true;
                }
            },
        }
    }

    /// How many objects were deleted; an error where one could not be.
    pub fn finish(&self) -> (r: Result<usize, Reply>)
        ensures
            match r {
                Ok(n) => !self.had_errors && n == self.deleted,
                Err(e) => self.had_errors && e.says(
                    INTERNAL_SERVER_ERROR,
                    "Error during deletion"@,
                ),
            },
    {
        if self.had_errors {
            Err(Reply::new(INTERNAL_SERVER_ERROR, "Error during deletion"))
        } else {
            Ok(self.deleted)
        }
    }
}

/// What can fail around the removal of stored files.
#[derive(Clone, Copy, Debug, PartialEq, Eq, Structural)]
pub enum CleanupFailure {
    /// There is no connection to the database.
    Connection,
    /// The transaction could not begin.
    Transaction,
    /// The files could not be asked for.
    Query,
    /// The store could not be listed.
    Listing,
    /// The transaction could not be committed.
    Commit,
}

/// The text with which a failure is answered; the status is always that of an internal error.
pub open spec fn cleanup_failure(failure: CleanupFailure) -> Seq<char> {
    match failure {
        CleanupFailure::Connection => "Error getting database connection"@,
        CleanupFailure::Transaction => "Database error"@,
        CleanupFailure::Query => "Internal error"@,
        CleanupFailure::Listing => "Internal error"@,
        CleanupFailure::Commit => "Internal error"@,
    }
}

/// The answer to a failure.
pub fn cleanup_failure_reply(failure: CleanupFailure) -> (r: Reply)
    ensures
        r.says(INTERNAL_SERVER_ERROR, cleanup_failure(failure)),
{
    match failure {
        CleanupFailure::Connection => Reply::new(
            INTERNAL_SERVER_ERROR,
            "Error getting database connection",
        ),
        CleanupFailure::Transaction => Reply::new(INTERNAL_SERVER_ERROR, "Database error"),
        CleanupFailure::Query => Reply::new(INTERNAL_SERVER_ERROR, "Internal error"),
        CleanupFailure::Listing => Reply::new(INTERNAL_SERVER_ERROR, "Internal error"),
        CleanupFailure::Commit => Reply::new(INTERNAL_SERVER_ERROR, "Internal error"),
    }
}

/// The removal of the files of which the database knows that nothing refers to them, one after the
/// other. Each of them is known by its hash.
pub struct OrphanRemoval {
    pub rows: Vec<NamedId>,
    pub done: usize,
    pub removed: Vec<i64>,
}

/// There is a place for each of the files.
pub open spec fn rows_have_keys(rows: Seq<NamedId>) -> bool {
    forall|i: int| 0 <= i < rows.len() ==> files::has_prefix((#[trigger] rows[i]).name@)
}

/// Whether there is a place for each of the files.
pub fn keys_exist(rows: &Vec<NamedId>) -> (r: bool)
    ensures
        r == rows_have_keys(rows@),
{
    let mut i: usize = 0;
    while i < rows.len()
        invariant
            i <= rows@.len(),
            forall|j: int| 0 <= j < i ==> files::has_prefix((#[trigger] rows@[j]).name@),
        decreases rows@.len() - i,
    {
        if !files::has_key(rows[i].name.as_str()) {
            return false;
        }
        i += 1;
    }
    true
}

impl OrphanRemoval {
    /// A removal that has not begun.
    pub fn new(rows: Vec<NamedId>) -> (r: Self)
        ensures
            r.rows == rows,
            r.done == 0,
            r.removed@.len() == 0,
    {
        OrphanRemoval { rows, done: 0, removed: Vec::new() }
    }

    /// Where the next file is stored; nothing where all have been seen to.
    pub fn next_key(&self) -> (r: Option<String>)
        requires
            rows_have_keys(self.rows@),
        ensures
            match r {
                Some(key) => self.done < self.rows@.len() && key@ == files::object_key(
                    self.rows@[self.done as int].name@,
                ),
                None => self.done >= self.rows@.len(),
            },
    {
        if self.done < self.rows.len() {
            Some(files::s3_key(self.rows[self.done].name.as_str()))
        } else {
            None
        }
    }

    /// Takes whether the stored object is gone. The record of the file is to be removed if it is,
    /// and only then.
    pub fn on_object_deleted(&mut self, gone: bool) -> (r: Option<i64>)
        requires
            old(self).done < old(self).rows@.len(),
        ensures
            final(self).rows == old(self).rows,
            final(self).done == old(self).done + 1,
            r == if gone {
                Some(old(self).rows@[old(self).done as int].id)
            } else {
                None
            },
            final(self).removed@ == if gone {
                old(self).removed@.push(old(self).rows@[old(self).done as int].id)
            } else {
                old(self).removed@
            },
    {
        let total = self.rows.len();
        assert(self.done < total);
        let id = self.rows[self.done].id;
        self.done = self.done + 1;
        if gone {
            self.removed.push(id);
            Some(id)
        } else {
            None
        }
    }
}

/// A stored file of an expired batch, and whether a note refers to it.
#[derive(Debug, PartialEq)]
pub struct BatchMedia {
    pub hash: String,
    pub referenced: bool,
}

/// The hashes of the stored files to which a note refers, or to which none does.
pub open spec fn hashes_where(rows: Seq<BatchMedia>, referenced: bool) -> Seq<Seq<char>> {
    rows.filter(|m: BatchMedia| m.referenced == referenced).map_values(|m: BatchMedia| m.hash@)
}

/// `hashes`, and behind them the hashes of those of the first `n` files that are neither kept nor
/// among them yet.
pub open spec fn with_leftovers(
    list: Seq<MediaMissingFile>,
    kept: Seq<Seq<char>>,
    hashes: Seq<Seq<char>>,
    n: int,
) -> Seq<Seq<char>>
    decreases n,
{
    if n <= 0 {
        hashes
    } else {
        let before = with_leftovers(list, kept, hashes, n - 1);
        let hash = list[n - 1].hash@;
        if !kept.contains(hash) && !before.contains(hash) {
            before.push(hash)
        } else {
            before
        }
    }
}

/// The hashes of an expired batch whose files go: those of the stored files to which no note
/// refers, and behind them those of the files that are not stored at all.
pub open spec fn expired_hashes(list: Seq<MediaMissingFile>, rows: Seq<BatchMedia>) -> Seq<
    Seq<char>,
> {
    with_leftovers(
        list,
        hashes_where(rows, true),
        hashes_where(rows, false),
        list.len() as int,
    )
}

/// The hashes of an expired batch whose files go.
pub fn plan_expired_batch(list: &Vec<MediaMissingFile>, rows: &Vec<BatchMedia>) -> (r: Vec<String>)
    ensures
        text::texts(r@) == expired_hashes(list@, rows@),
{
    let mut to_keep: Vec<String> = Vec::new();
    let mut to_delete: Vec<String> = Vec::new();
    let ghost held = |m: BatchMedia| m.referenced == true;
    let ghost loose = |m: BatchMedia| m.referenced == false;
    let ghost hash_of = |m: BatchMedia| m.hash@;
    let mut i: usize = 0;
    reveal(Seq::filter);
    while i < rows.len()
        invariant
            i <= rows@.len(),
            held == (|m: BatchMedia| m.referenced == true),
            loose == (|m: BatchMedia| m.referenced == false),
            hash_of == (|m: BatchMedia| m.hash@),
            text::texts(to_keep@) == rows@.take(i as int).filter(held).map_values(hash_of),
            text::texts(to_delete@) == rows@.take(i as int).filter(loose).map_values(hash_of),
        decreases rows@.len() - i,
    {
        let row = &rows[i];
        let ghost kept_before = to_keep@;
        let ghost deleted_before = to_delete@;
        proof {
            let so_far = rows@.take(i as int);
            assert(rows@.take(i + 1) =~= so_far.push(*row));
            so_far.lemma_filter_push(*row, held);
            so_far.lemma_filter_push(*row, loose);
        }
        if row.referenced {
            to_keep.push(row.hash.clone());
            assert(text::texts(to_keep@) =~= text::texts(kept_before).push(row.hash@));
            assert(text::texts(to_keep@) =~= rows@.take(i + 1).filter(held).map_values(hash_of));
        } else {
            to_delete.push(row.hash.clone());
            assert(text::texts(to_delete@) =~= text::texts(deleted_before).push(row.hash@));
            assert(text::texts(to_delete@) =~= rows@.take(i + 1).filter(loose).map_values(
                hash_of,
            ));
        }
        i += 1;
    }
    assert(rows@.take(rows@.len() as int) =~= rows@);
    assert(text::texts(to_keep@) =~= hashes_where(rows@, true));
    assert(text::texts(to_delete@) =~= hashes_where(rows@, false));
    let ghost first = text::texts(to_delete@);
    let mut k: usize = 0;
    while k < list.len()
        invariant
            k <= list@.len(),
            text::texts(to_keep@) == hashes_where(rows@, true),
            first == hashes_where(rows@, false),
            text::texts(to_delete@) == with_leftovers(
                list@,
                text::texts(to_keep@),
                first,
                k as int,
            ),
        decreases list@.len() - k,
    {
        let hash = &list[k].hash;
        if !text::is_in(&to_keep, hash.as_str()) && !text::is_in(&to_delete, hash.as_str()) {
            let ghost before = to_delete@;
            to_delete.push(hash.clone());
            assert(text::texts(to_delete@) =~= text::texts(before).push(hash@));
        }
        k += 1;
    }
    to_delete
}

proof fn lemma_leftovers(
    list: Seq<MediaMissingFile>,
    kept: Seq<Seq<char>>,
    hashes: Seq<Seq<char>>,
    n: int,
    i: int,
)
    requires
        0 <= n <= list.len(),
        forall|h: Seq<char>| #[trigger] hashes.contains(h) ==> !kept.contains(h),
    ensures
        forall|h: Seq<char>| #[trigger]
            with_leftovers(list, kept, hashes, n).contains(h) ==> !kept.contains(h),
        0 <= i < n ==> kept.contains(list[i].hash@) || with_leftovers(
            list,
            kept,
            hashes,
            n,
        ).contains(list[i].hash@),
        hashes.no_duplicates() ==> with_leftovers(list, kept, hashes, n).no_duplicates(),
    decreases n,
{
    if n > 0 {
        lemma_leftovers(list, kept, hashes, n - 1, i);
        let before = with_leftovers(list, kept, hashes, n - 1);
        let hash = list[n - 1].hash@;
        assert forall|h: Seq<char>| #[trigger] before.push(hash).contains(h) <==> before.contains(h)
            || h == hash by {
            vstd::seq_lib::lemma_seq_contains_after_push(before, hash, h);
        }
    }
}

/// No file of an expired batch goes to which a note refers, and no other file of it stays, where
/// each hash is stored once at most.
pub proof fn law_expired_batches_keep_what_is_used(
    list: Seq<MediaMissingFile>,
    rows: Seq<BatchMedia>,
    i: int,
)
    requires
        forall|a: int, b: int|
            0 <= a < b < rows.len() ==> (#[trigger] rows[a]).hash@ != (#[trigger] rows[b]).hash@,
        0 <= i < list.len(),
    ensures
        expired_hashes(list, rows).contains(list[i].hash@) == !hashes_where(rows, true).contains(
            list[i].hash@,
        ),
{
    let kept = hashes_where(rows, true);
    let loose = hashes_where(rows, false);
    assert forall|h: Seq<char>| #[trigger] loose.contains(h) implies !kept.contains(h) by {
        if kept.contains(h) {
            let a = choose|a: int| 0 <= a < kept.len() && kept[a] == h;
            let b = choose|b: int| 0 <= b < loose.len() && loose[b] == h;
            let held_rows = rows.filter(|m: BatchMedia| m.referenced == true);
            let loose_rows = rows.filter(|m: BatchMedia| m.referenced == false);
            assert(held_rows.contains(held_rows[a]));
            assert(loose_rows.contains(loose_rows[b]));
            rows.lemma_filter_contains_rev(|m: BatchMedia| m.referenced == true, held_rows[a]);
            rows.lemma_filter_contains_rev(|m: BatchMedia| m.referenced == false, loose_rows[b]);
            rows.lemma_filter_pred(|m: BatchMedia| m.referenced == true, a);
            rows.lemma_filter_pred(|m: BatchMedia| m.referenced == false, b);
            assert(rows.contains(held_rows[a]));
            assert(rows.contains(loose_rows[b]));
            let x = choose|x: int| 0 <= x < rows.len() && rows[x] == held_rows[a];
            let y = choose|y: int| 0 <= y < rows.len() && rows[y] == loose_rows[b];
            assert(rows[x].referenced && !rows[y].referenced);
        }
    }
    lemma_leftovers(list, kept, loose, list.len() as int, i);
}

/// A key is that of a file exactly where there is a slash in it, none before, and before it stand two
/// bytes with which what is behind it starts. What is behind it is the hash: the file is an orphan
/// where the database does not know it.
pub proof fn law_orphans_in_plain_terms(key: Seq<char>, known: Set<Seq<char>>, n: int)
    requires
        0 <= n <= key.len(),
        n < key.len() ==> key[n] == '/',
        forall|m: int| 0 <= m < n ==> #[trigger] key[m] != '/',
    ensures
        key_verdict(key, known) == KeyVerdict::Malformed <==> n == 0 || n + 1 >= key.len(),
        key_verdict(key, known) == KeyVerdict::Orphan <==> n + 1 < key.len() && encode_utf8(
            key.take(n),
        ).len() == 2 && key.take(n).is_prefix_of(key.skip(n + 1)) && !known.contains(
            key.skip(n + 1),
        ),
        key_verdict(key, known) == KeyVerdict::Known <==> n + 1 < key.len() && encode_utf8(
            key.take(n),
        ).len() == 2 && key.take(n).is_prefix_of(key.skip(n + 1)) && known.contains(
            key.skip(n + 1),
        ),
{
    reveal_strlit("/");
    text::law_the_first_place_is_found(key, "/"@, 0);
    assert forall|j: int| #[trigger] text::runs_from(key, "/"@, j) <==> 0 <= j < key.len() && key[j]
        == '/' by {
        if 0 <= j < key.len() && key[j] == '/' {
            assert forall|k: int| 0 <= k < "/"@.len() implies key[j + k] == #[trigger] "/"@[k] by {
                assert(k == 0);
            }
        }
        if text::runs_from(key, "/"@, j) {
            assert(key[j + 0] == "/"@[0]);
        }
    }
    if n < key.len() {
        assert(text::runs_from(key, "/"@, n));
        assert(text::find_from(key, "/"@, 0) == Some(n));
        if n == 0 {
            assert(key.take(0) =~= Seq::<char>::empty());
            reveal_with_fuel(encode_utf8, 1);
        }
    }
}

/// Of the keys of a page none is passed over: a key is among those that are kept as orphans exactly
/// where the page holds it and it is that of an orphan.
pub proof fn law_every_key_is_looked_at(
    keys: Seq<Option<String>>,
    known: Set<Seq<char>>,
    key: Seq<char>,
)
    ensures
        keys_given(keys).filter(
            |k: Seq<char>| key_verdict(k, known) == KeyVerdict::Orphan,
        ).contains(key) <==> key_verdict(key, known) == KeyVerdict::Orphan && exists|i: int|
            0 <= i < keys.len() && (#[trigger] keys[i] matches Some(t) && t@ == key),
    decreases keys.len(),
{
    let given = |k: Option<String>|
        match k {
            Some(t) => Some(t@),
            None => None,
        };
    let orphan = |k: Seq<char>| key_verdict(k, known) == KeyVerdict::Orphan;
    reveal(Seq::filter_map);
    reveal(Seq::filter);
    if keys.len() > 0 {
        let shorter = keys.drop_last();
        law_every_key_is_looked_at(shorter, known, key);
        let before = keys_given(shorter).filter(orphan);
        match keys.last() {
            Some(t) => {
                assert(keys_given(keys) == keys_given(shorter).push(t@));
                assert(keys_given(keys).drop_last() =~= keys_given(shorter));
                if orphan(t@) {
                    assert(keys_given(keys).filter(orphan) == before.push(t@));
                    vstd::seq_lib::lemma_seq_contains_after_push(before, t@, key);
                }
            },
            None => {
                assert(keys_given(keys) =~= keys_given(shorter));
            },
        }
        if exists|i: int| 0 <= i < keys.len() && (#[trigger] keys[i] matches Some(t) && t@ == key) {
            let i = choose|i: int|
                0 <= i < keys.len() && (#[trigger] keys[i] matches Some(t) && t@ == key);
            if i < shorter.len() {
                assert(shorter[i] == keys[i]);
            }
        }
        if exists|i: int|
            0 <= i < shorter.len() && (#[trigger] shorter[i] matches Some(t) && t@ == key) {
            let i = choose|i: int|
                0 <= i < shorter.len() && (#[trigger] shorter[i] matches Some(t) && t@ == key);
            assert(keys[i] == shorter[i]);
        }
        assert(keys[keys.len() - 1] == keys.last());
    } else {
        assert(keys_given(keys) =~= Seq::<Seq<char>>::empty());
    }
}

/// The hash stands in a row of a stored file to which a note refers, or to which none does.
pub open spec fn stands_in_a_row(rows: Seq<BatchMedia>, referenced: bool, hash: Seq<char>) -> bool {
    exists|j: int|
        0 <= j < rows.len() && (#[trigger] rows[j]).hash@ == hash && rows[j].referenced
            == referenced
}

proof fn lemma_hashes_where(rows: Seq<BatchMedia>, referenced: bool, hash: Seq<char>)
    ensures
        hashes_where(rows, referenced).contains(hash) <==> stands_in_a_row(rows, referenced, hash),
    decreases rows.len(),
{
    let wanted = |m: BatchMedia| m.referenced == referenced;
    let hash_of = |m: BatchMedia| m.hash@;
    reveal(Seq::filter);
    if rows.len() > 0 {
        let shorter = rows.drop_last();
        let row = rows.last();
        lemma_hashes_where(shorter, referenced, hash);
        if wanted(row) {
            assert(rows.filter(wanted) == shorter.filter(wanted).push(row));
            assert(hashes_where(rows, referenced) =~= hashes_where(shorter, referenced).push(
                row.hash@,
            ));
            vstd::seq_lib::lemma_seq_contains_after_push(
                hashes_where(shorter, referenced),
                row.hash@,
                hash,
            );
        }
        if stands_in_a_row(rows, referenced, hash) {
            let j = choose|j: int|
                0 <= j < rows.len() && (#[trigger] rows[j]).hash@ == hash && rows[j].referenced
                    == referenced;
            if j < shorter.len() {
                assert(shorter[j] == rows[j]);
            }
        }
        if stands_in_a_row(shorter, referenced, hash) {
            let j = choose|j: int|
                0 <= j < shorter.len() && (#[trigger] shorter[j]).hash@ == hash
                    && shorter[j].referenced == referenced;
            assert(rows[j] == shorter[j]);
        }
        assert(rows[rows.len() - 1] == row);
    }
}

proof fn lemma_what_is_left_over(
    list: Seq<MediaMissingFile>,
    kept: Seq<Seq<char>>,
    hashes: Seq<Seq<char>>,
    n: int,
    hash: Seq<char>,
)
    requires
        0 <= n <= list.len(),
    ensures
        with_leftovers(list, kept, hashes, n).contains(hash) <==> hashes.contains(hash) || (
        !kept.contains(hash) && exists|i: int| 0 <= i < n && (#[trigger] list[i]).hash@ == hash),
        hashes.is_prefix_of(with_leftovers(list, kept, hashes, n)),
    decreases n,
{
    if n > 0 {
        lemma_what_is_left_over(list, kept, hashes, n - 1, hash);
        let before = with_leftovers(list, kept, hashes, n - 1);
        vstd::seq_lib::lemma_seq_contains_after_push(before, list[n - 1].hash@, hash);
    }
}

/// What goes with an expired batch: each stored file to which no note refers, and each file of the
/// batch that is not stored as one to which a note refers. Nothing else goes.
pub proof fn law_what_goes_with_an_expired_batch(
    list: Seq<MediaMissingFile>,
    rows: Seq<BatchMedia>,
    hash: Seq<char>,
)
    ensures
        expired_hashes(list, rows).contains(hash) <==> stands_in_a_row(rows, false, hash) || (
        !stands_in_a_row(rows, true, hash) && exists|i: int|
            0 <= i < list.len() && (#[trigger] list[i]).hash@ == hash),
{
    lemma_hashes_where(rows, true, hash);
    lemma_hashes_where(rows, false, hash);
    lemma_what_is_left_over(
        list,
        hashes_where(rows, true),
        hashes_where(rows, false),
        list.len() as int,
        hash,
    );
}

/// Where each hash is stored once at most, none goes twice with an expired batch.
pub proof fn law_no_hash_goes_twice(list: Seq<MediaMissingFile>, rows: Seq<BatchMedia>)
    requires
        forall|a: int, b: int|
            0 <= a < b < rows.len() ==> (#[trigger] rows[a]).hash@ != (#[trigger] rows[b]).hash@,
    ensures
        expired_hashes(list, rows).no_duplicates(),
{
    let kept = hashes_where(rows, true);
    let loose = hashes_where(rows, false);
    assert forall|h: Seq<char>| #[trigger] loose.contains(h) implies !kept.contains(h) by {
        lemma_hashes_where(rows, true, h);
        lemma_hashes_where(rows, false, h);
    }
    lemma_loose_once(rows);
    lemma_leftovers(list, kept, loose, list.len() as int, 0);
}

proof fn lemma_loose_once(rows: Seq<BatchMedia>)
    requires
        forall|a: int, b: int|
            0 <= a < b < rows.len() ==> (#[trigger] rows[a]).hash@ != (#[trigger] rows[b]).hash@,
    ensures
        hashes_where(rows, false).no_duplicates(),
    decreases rows.len(),
{
    let wanted = |m: BatchMedia| m.referenced == false;
    reveal(Seq::filter);
    if rows.len() > 0 {
        let shorter = rows.drop_last();
        let row = rows.last();
        lemma_loose_once(shorter);
        if wanted(row) {
            let before = hashes_where(shorter, false);
            assert(rows.filter(wanted) == shorter.filter(wanted).push(row));
            assert(hashes_where(rows, false) =~= before.push(row.hash@));
            lemma_hashes_where(shorter, false, row.hash@);
            if before.contains(row.hash@) {
                let j = choose|j: int|
                    0 <= j < shorter.len() && (#[trigger] shorter[j]).hash@ == row.hash@
                        && shorter[j].referenced == false;
                assert(rows[j].hash@ == rows[rows.len() - 1].hash@);
            }
            assert(before.push(row.hash@).no_duplicates());
        }
    }
}

/// There is a place for each file of a list exactly where there is one for each of its first part and of
/// the rest; for a single file, where its hash has two first bytes; and for no files there always is.
pub proof fn law_each_deleted_file_needs_a_place(first: Seq<NamedId>, rest: Seq<NamedId>)
    ensures
        rows_have_keys(first + rest) <==> rows_have_keys(first) && rows_have_keys(rest),
        first.len() == 1 ==> (rows_have_keys(first) <==> files::has_prefix(first[0].name@)),
        first.len() == 0 ==> rows_have_keys(first),
{
    if rows_have_keys(first + rest) {
        assert forall|i: int| 0 <= i < first.len() implies files::has_prefix(
            (#[trigger] first[i]).name@,
        ) by {
            assert((first + rest)[i] == first[i]);
        }
        assert forall|i: int| 0 <= i < rest.len() implies files::has_prefix(
            (#[trigger] rest[i]).name@,
        ) by {
            assert((first + rest)[first.len() + i] == rest[i]);
        }
    }
}

} // verus!
