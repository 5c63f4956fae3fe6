//! The question which files of a batch have to be uploaded.
use vstd::hash_map::StringHashMap;
use vstd::hash_set::StringHashSet;
use vstd::prelude::*;
use vstd::utf8::*;

use crate::media_manager::files;
use crate::media_manager::files::ContentType;
use crate::outside;
use crate::reply::{Reply, BAD_REQUEST, INTERNAL_SERVER_ERROR, TOO_MANY_REQUESTS, UNAUTHORIZED};
use crate::structs::{
    MediaBulkCheckRequest, MediaBulkCheckResponse, MediaExistingFile, MediaFileInfo,
    MediaMissingFile, NamedId,
};
use crate::text;

verus! {

broadcast use vstd::seq::Seq::lemma_filter_push;

/// The most files of which one request asks.
pub const MAX_CHECKED_FILES: usize = 100;

/// A request by nobody, for no files or for too many is refused. `user` is what is known of the
/// sender's token: nothing where it could not be looked up, zero where it is nobody's.
pub fn check_bulk_request(user: Option<i32>, req: &MediaBulkCheckRequest) -> (r: Result<i32, Reply>)
    ensures
        match r {
            Ok(id) => user == Some(id) && id != 0 && 0 < req.files@.len() <= 100,
            Err(e) => match user {
                None => e.says(INTERNAL_SERVER_ERROR, "Error authenticating user"@),
                Some(id) => if id == 0 {
                    e.says(UNAUTHORIZED, "Invalid token"@)
                } else if req.files@.len() == 0 {
                    e.says(BAD_REQUEST, "No files provided"@)
                } else {
                    req.files@.len() > 100 && e.says(
                        BAD_REQUEST,
                        "Too many files in single request"@,
                    )
                },
            },
        },
{
    match user {
        None => Err(Reply::new(INTERNAL_SERVER_ERROR, "Error authenticating user")),
        Some(id) => {
            if id == 0 {
                return Err(Reply::new(UNAUTHORIZED, "Invalid token"));
            }
            if req.files.len() == 0 {
                return Err(Reply::new(BAD_REQUEST, "No files provided"));
            }
            if req.files.len() > MAX_CHECKED_FILES {
                return Err(Reply::new(BAD_REQUEST, "Too many files in single request"));
            }
            Ok(id)
        },
    }
}

/// What can fail around the check of the files.
#[derive(Clone, Copy, Debug, PartialEq, Eq, Structural)]
pub enum CheckFailure {
    /// The database could not be reached or asked, or a reference could not be stored.
    Database,
    /// The batch could not be put into words.
    Metadata,
    /// The batch could not be stored.
    MetadataStore,
    /// The sender has reached a limit.
    Limit,
}

/// The status and the text with which a failure is answered.
pub open spec fn check_failure(failure: CheckFailure) -> (u16, Seq<char>) {
    match failure {
        CheckFailure::Database => (INTERNAL_SERVER_ERROR, "Internal error"@),
        CheckFailure::Metadata => (INTERNAL_SERVER_ERROR, "Error processing request"@),
        CheckFailure::MetadataStore => (INTERNAL_SERVER_ERROR, "Error storing upload metadata"@),
        CheckFailure::Limit => (
            TOO_MANY_REQUESTS,
            "You reached the upload limit. Please try again tomorrow."@,
        ),
    }
}

/// The answer to a failure.
pub fn check_failure_reply(failure: CheckFailure) -> (r: Reply)
    ensures
        r.says(check_failure(failure).0, check_failure(failure).1),
{
    match failure {
        CheckFailure::Database => Reply::new(INTERNAL_SERVER_ERROR, "Internal error"),
        CheckFailure::Metadata => Reply::new(INTERNAL_SERVER_ERROR, "Error processing request"),
        CheckFailure::MetadataStore => Reply::new(
            INTERNAL_SERVER_ERROR,
            "Error storing upload metadata",
        ),
        CheckFailure::Limit => Reply::new(
            TOO_MANY_REQUESTS,
            "You reached the upload limit. Please try again tomorrow.",
        ),
    }
}

/// The files of a request, told apart by their names.
#[derive(Debug, PartialEq)]
pub struct NamedFiles {
    /// The files that may be uploaded under their names.
    pub valid: Vec<MediaFileInfo>,
    /// The files that may not.
    pub invalid: Vec<MediaFileInfo>,
}

/// Tells the files of a request apart by their names.
pub fn split_by_name(list: &Vec<MediaFileInfo>) -> (r: NamedFiles)
    ensures
        r.valid@ == list@.filter(|f: MediaFileInfo| files::is_allowed_name(f.filename@)),
        r.invalid@ == list@.filter(|f: MediaFileInfo| !files::is_allowed_name(f.filename@)),
{
    let mut valid: Vec<MediaFileInfo> = Vec::new();
    let mut invalid: Vec<MediaFileInfo> = Vec::new();
    let ghost good = |f: MediaFileInfo| files::is_allowed_name(f.filename@);
    let ghost bad = |f: MediaFileInfo| !files::is_allowed_name(f.filename@);
    let mut i: usize = 0;
    reveal(Seq::filter);
    while i < list.len()
        invariant
            i <= list@.len(),
            good == (|f: MediaFileInfo| files::is_allowed_name(f.filename@)),
            bad == (|f: MediaFileInfo| !files::is_allowed_name(f.filename@)),
            valid@ == list@.take(i as int).filter(good),
            invalid@ == list@.take(i as int).filter(bad),
        decreases list@.len() - i,
    {
        let file = &list[i];
        assert(list@.take(i + 1) =~= list@.take(i as int).push(*file));
        if files::is_allowed_extension(file.filename.as_str()) {
            valid.push(file.clone());
        } else {
            invalid.push(file.clone());
        }
        i += 1;
    }
    assert(list@.take(list@.len() as int) =~= list@);
    NamedFiles { valid, invalid }
}

/// What becomes of a file that may be uploaded under its name.
#[derive(Clone, Copy, Debug, PartialEq, Eq, Structural)]
pub enum FileFate {
    /// It is stored already.
    Stored { media_id: i64 },
    /// Its note is not in the deck.
    NoNote,
    /// Its size is not one that a file may have.
    BadSize,
    /// Its name tells no type.
    NoType,
    /// It is to be uploaded.
    Wanted { note_id: i64, content_type: ContentType },
}

/// What becomes of a file, given the notes of the deck by their guids and the stored files by
/// their hashes.
pub open spec fn fate(
    file: MediaFileInfo,
    notes: Map<Seq<char>, i64>,
    stored: Map<Seq<char>, i64>,
) -> FileFate {
    if stored.contains_key(file.hash@) {
        FileFate::Stored { media_id: stored[file.hash@] }
    } else if !notes.contains_key(file.note_guid@) {
        FileFate::NoNote
    } else if file.file_size <= 0 || file.file_size > files::MAX_FILE_SIZE_BYTES {
        FileFate::BadSize
    } else {
        match files::type_by_name(file.filename@) {
            None => FileFate::NoType,
            Some(content_type) => FileFate::Wanted {
                note_id: notes[file.note_guid@],
                content_type,
            },
        }
    }
}

/// What becomes of a file.
pub fn decide_fate(
    file: &MediaFileInfo,
    notes: &StringHashMap<i64>,
    stored: &StringHashMap<i64>,
) -> (r: FileFate)
    ensures
        r == fate(*file, notes@, stored@),
{
    match stored.get(file.hash.as_str()) {
        Some(media_id) => FileFate::Stored { media_id: *media_id },
        None => match notes.get(file.note_guid.as_str()) {
            None => FileFate::NoNote,
            Some(note_id) => {
                if file.file_size <= 0 || file.file_size > files::MAX_FILE_SIZE_BYTES as i64 {
                    return FileFate::BadSize;
                }
                match files::determine_content_type_by_name(file.filename.as_str()) {
                    None => FileFate::NoType,
                    Some(content_type) => FileFate::Wanted { note_id: *note_id, content_type },
                }
            },
        },
    }
}

/// The tie of a stored file to a note, under a name.
#[derive(Debug, PartialEq)]
pub struct MediaReference {
    pub media_id: i64,
    pub note_id: i64,
    pub file_name: String,
}

/// A tie of a stored file to a note, under a name.
pub struct Tie {
    pub media_id: i64,
    pub note_id: i64,
    pub file_name: Seq<char>,
}

/// The ties that the references stand for.
pub open spec fn ties(list: Seq<MediaReference>) -> Seq<Tie> {
    list.map_values(
        |r: MediaReference|
            Tie { media_id: r.media_id, note_id: r.note_id, file_name: r.file_name@ },
    )
}

/// The tie of a file that is stored to its note, where the note is in the deck.
pub open spec fn tie_of(
    file: MediaFileInfo,
    notes: Map<Seq<char>, i64>,
    stored: Map<Seq<char>, i64>,
) -> Option<Tie> {
    if stored.contains_key(file.hash@) && notes.contains_key(file.note_guid@) {
        Some(
            Tie {
                media_id: stored[file.hash@],
                note_id: notes[file.note_guid@],
                file_name: file.filename@,
            },
        )
    } else {
        None
    }
}

/// A file that is to be uploaded, and the address for it.
pub struct Wanted {
    pub hash: Seq<char>,
    pub filename: Seq<char>,
    pub note_id: i64,
    pub file_size: i64,
    pub url: Seq<char>,
}

/// The files that the entries stand for, where each has an address.
pub open spec fn wanted_files(list: Seq<MediaMissingFile>) -> Seq<Wanted> {
    list.map_values(
        |m: MediaMissingFile|
            Wanted {
                hash: m.hash@,
                filename: m.filename@,
                note_id: m.note_id,
                file_size: m.file_size,
                url: m.presigned_url->0@,
            },
    )
}

/// The hashes and the numbers that the entries stand for.
pub open spec fn stored_files(list: Seq<MediaExistingFile>) -> Seq<(Seq<char>, i64)> {
    list.map_values(|e: MediaExistingFile| (e.hash@, e.media_id))
}

/// The first `n` files, as far as they are stored.
pub open spec fn stored_among(
    list: Seq<MediaFileInfo>,
    stored: Map<Seq<char>, i64>,
    n: int,
) -> Seq<(Seq<char>, i64)>
    decreases n,
{
    if n <= 0 {
        Seq::empty()
    } else if stored.contains_key(list[n - 1].hash@) {
        stored_among(list, stored, n - 1).push((list[n - 1].hash@, stored[list[n - 1].hash@]))
    } else {
        stored_among(list, stored, n - 1)
    }
}

/// The first `n` files, as far as they are to be uploaded and have an address. `urls` gives the
/// address of each file to which one was given.
pub open spec fn wanted_among(
    list: Seq<MediaFileInfo>,
    notes: Map<Seq<char>, i64>,
    stored: Map<Seq<char>, i64>,
    urls: Seq<Option<Seq<char>>>,
    n: int,
) -> Seq<Wanted>
    decreases n,
{
    if n <= 0 {
        Seq::empty()
    } else {
        let before = wanted_among(list, notes, stored, urls, n - 1);
        let file = list[n - 1];
        match (fate(file, notes, stored), urls[n - 1]) {
            (FileFate::Wanted { note_id, .. }, Some(url)) => before.push(
                Wanted {
                    hash: file.hash@,
                    filename: file.filename@,
                    note_id,
                    file_size: file.file_size,
                    url,
                },
            ),
            _ => before,
        }
    }
}

/// The hashes of those of the first `n` files that are neither stored nor to be uploaded.
pub open spec fn refused_among(
    list: Seq<MediaFileInfo>,
    notes: Map<Seq<char>, i64>,
    stored: Map<Seq<char>, i64>,
    urls: Seq<Option<Seq<char>>>,
    n: int,
) -> Set<Seq<char>>
    decreases n,
{
    if n <= 0 {
        Set::empty()
    } else {
        let before = refused_among(list, notes, stored, urls, n - 1);
        match (fate(list[n - 1], notes, stored), urls[n - 1]) {
            (FileFate::Stored { .. }, _) => before,
            (FileFate::Wanted { .. }, Some(_)) => before,
            _ => before.insert(list[n - 1].hash@),
        }
    }
}

/// The MD5 digest that a hash writes, in Base64; of nothing where it is not hexadecimal.
pub open spec fn content_md5(hash: Seq<char>) -> Seq<char> {
    outside::base64_text(
        if outside::is_hex(encode_utf8(hash)) {
            outside::hex_bytes(encode_utf8(hash))
        } else {
            Seq::empty()
        },
    )
}

/// The MD5 digest that a hash writes, in Base64.
pub fn content_md5_of(hash: &str) -> (r: String)
    ensures
        r@ == content_md5(hash@),
{
    let digest = match outside::hex_decode(hash) {
        Some(bytes) => bytes,
        None => Vec::new(),
    };
    assert(!outside::is_hex(encode_utf8(hash@)) ==> digest@ =~= Seq::<u8>::empty());
    outside::base64_encode(digest.as_slice())
}

/// What an address for an upload is asked for: the place, and what the upload must be.
#[derive(Debug, PartialEq)]
pub struct UploadOffer {
    pub hash: String,
    pub filename: String,
    pub key: String,
    pub content_length: i64,
    pub content_type: String,
    pub content_md5: String,
}

/// The offer is the one for a file that is to be uploaded.
pub open spec fn is_offer_for(offer: UploadOffer, file: MediaFileInfo, fate: FileFate) -> bool {
    &&& fate matches FileFate::Wanted { note_id: _, content_type }
    &&& offer.content_type@ == content_type.mime_text()
    &&& offer.hash@ == file.hash@
    &&& offer.filename@ == file.filename@
    &&& offer.key@ == files::object_key(file.hash@)
    &&& offer.content_length == file.file_size
    &&& offer.content_md5@ == content_md5(file.hash@)
}

/// The check of the files that may be uploaded under their names, one after the other.
pub struct BulkCheck {
    pub list: Vec<MediaFileInfo>,
    pub notes: StringHashMap<i64>,
    pub stored: StringHashMap<i64>,
    pub done: usize,
    pub existing_files: Vec<MediaExistingFile>,
    pub missing_files: Vec<MediaMissingFile>,
    pub refused: StringHashSet,
    pub urls: Ghost<Seq<Option<Seq<char>>>>,
}

/// There is a place for each of the files that is to be uploaded.
pub open spec fn wanted_have_keys(
    list: Seq<MediaFileInfo>,
    notes: Map<Seq<char>, i64>,
    stored: Map<Seq<char>, i64>,
) -> bool {
    forall|i: int|
        0 <= i < list.len() ==> (fate(#[trigger] list[i], notes, stored) is Wanted
            ==> files::has_prefix(list[i].hash@))
}

/// Each stored file that was found is one of the files.
pub open spec fn all_stored_are_listed(
    list: Seq<MediaFileInfo>,
    stored: Map<Seq<char>, i64>,
) -> bool {
    forall|hash: Seq<char>| #[trigger]
        stored.contains_key(hash) ==> exists|i: int|
            0 <= i < list.len() && (#[trigger] list[i]).hash@ == hash
}

/// The announced sizes of the first `n` files that are not stored, added up.
pub open spec fn new_bytes(list: Seq<MediaFileInfo>, stored: Map<Seq<char>, i64>, n: int) -> nat
    decreases n,
{
    if n <= 0 {
        0
    } else {
        new_bytes(list, stored, n - 1) + if stored.contains_key(list[n - 1].hash@) {
            0
        } else {
            (list[n - 1].file_size as u64) as nat
        }
    }
}

impl BulkCheck {
    /// What has been said of the files so far is what their fates and the addresses given make of
    /// them.
    pub open spec fn wf(self) -> bool {
        &&& self.done <= self.list@.len()
        &&& self.urls@.len() == self.done
        &&& stored_files(self.existing_files@) == stored_among(
            self.list@,
            self.stored@,
            self.done as int,
        )
        &&& wanted_files(self.missing_files@) == wanted_among(
            self.list@,
            self.notes@,
            self.stored@,
            self.urls@,
            self.done as int,
        )
        &&& forall|i: int|
            0 <= i < self.missing_files@.len() ==> (
            #[trigger] self.missing_files@[i]).presigned_url is Some
        &&& self.refused@ == refused_among(
            self.list@,
            self.notes@,
            self.stored@,
            self.urls@,
            self.done as int,
        )
    }

    /// The same files are checked against the same notes and the same stored files.
    pub open spec fn same_question(self, other: BulkCheck) -> bool {
        &&& self.list == other.list
        &&& self.notes == other.notes
        &&& self.stored == other.stored
    }

    /// A check of the files `list`, given the notes of the deck with their guids, and the stored
    /// files with their hashes.
    pub fn new(
        list: Vec<MediaFileInfo>,
        note_rows: &Vec<NamedId>,
        media_rows: &Vec<NamedId>,
    ) -> (r: Self)
        ensures
            r.wf(),
            r.list == list,
            r.notes@ == crate::structs::ids_by_name(note_rows@),
            r.stored@ == crate::structs::ids_by_name(media_rows@),
            r.done == 0,
    {
        let r = BulkCheck {
            list,
            notes: crate::structs::index_by_name(note_rows),
            stored: crate::structs::index_by_name(media_rows),
            done: 0,
            existing_files: Vec::new(),
            missing_files: Vec::new(),
            refused: StringHashSet::new(),
            urls: Ghost(Seq::empty()),
        };
        assert(stored_files(r.existing_files@) =~= Seq::empty());
        assert(wanted_files(r.missing_files@) =~= Seq::empty());
        r
    }

    /// The ties of those files that are stored to their notes, in the order of the files.
    pub fn references(&self) -> (r: Vec<MediaReference>)
        ensures
            ties(r@) == self.list@.filter_map(
                |f: MediaFileInfo| tie_of(f, self.notes@, self.stored@),
            ),
    {
        let mut out: Vec<MediaReference> = Vec::new();
        let ghost tie = |f: MediaFileInfo| tie_of(f, self.notes@, self.stored@);
        let mut i: usize = 0;
        assert(ties(out@) =~= Seq::<Tie>::empty());
        assert(self.list@.take(0) =~= Seq::<MediaFileInfo>::empty());
        reveal(Seq::filter_map);
        while i < self.list.len()
            invariant
                i <= self.list@.len(),
                tie == (|f: MediaFileInfo| tie_of(f, self.notes@, self.stored@)),
                ties(out@) == self.list@.take(i as int).filter_map(tie),
            decreases self.list@.len() - i,
        {
            let file = &self.list[i];
            let ghost before = out@;
            assert(self.list@.take(i + 1).drop_last() =~= self.list@.take(i as int));
            assert(self.list@.take(i + 1).last() == *file);
            if let Some(media_id) = self.stored.get(file.hash.as_str()) {
                if let Some(note_id) = self.notes.get(file.note_guid.as_str()) {
                    out.push(
                        MediaReference {
                            media_id: *media_id,
                            note_id: *note_id,
                            file_name: file.filename.clone(),
                        },
                    );
                    assert(ties(out@) =~= ties(before).push(tie(*file)->0));
                }
            }
            i += 1;
        }
        assert(self.list@.take(self.list@.len() as int) =~= self.list@);
        out
    }

    /// The bytes that may have to be stored: the announced sizes of the files that are not stored,
    /// added up; nothing where the sum does not fit.
    pub fn potential_bytes(&self) -> (r: Option<u64>)
        ensures
            match r {
                Some(sum) => sum == new_bytes(
                    self.list@,
                    self.stored@,
                    self.list@.len() as int,
                ),
                None => new_bytes(self.list@, self.stored@, self.list@.len() as int) > u64::MAX,
            },
    {
        let mut sum: u64 = 0;
        let mut too_large = false;
        let mut i: usize = 0;
        while i < self.list.len()
            invariant
                i <= self.list@.len(),
                !too_large ==> sum == new_bytes(self.list@, self.stored@, i as int),
                too_large ==> new_bytes(self.list@, self.stored@, i as int) > u64::MAX,
            decreases self.list@.len() - i,
        {
            let file = &self.list[i];
            if !self.stored.contains_key(file.hash.as_str()) {
                let size: u64 = file.file_size as u64;
                if too_large || size > u64::MAX - sum {
                    too_large = true;
                } else {
                    sum = sum + size;
                }
            }
            i += 1;
        }
        if too_large {
            None
        } else {
            Some(sum)
        }
    }

    /// Whether each stored file that was found is one of the files.
    pub fn stored_are_listed(&self, media_rows: &Vec<NamedId>) -> (r: bool)
        requires
            self.stored@ == crate::structs::ids_by_name(media_rows@),
        ensures
            r == all_stored_are_listed(self.list@, self.stored@),
    {
        proof {
            lemma_names(media_rows@);
        }
        let mut i: usize = 0;
        while i < media_rows.len()
            invariant
                i <= media_rows@.len(),
                self.stored@ == crate::structs::ids_by_name(media_rows@),
                forall|k: int|
                    0 <= k < media_rows@.len() ==> self.stored@.contains_key(
                        (#[trigger] media_rows@[k]).name@,
                    ),
                forall|k: int|
                    0 <= k < i ==> exists|j: int|
                        0 <= j < self.list@.len() && (#[trigger] self.list@[j]).hash@ == (
                        #[trigger] media_rows@[k]).name@,
            decreases media_rows@.len() - i,
        {
            let hash = &media_rows[i].name;
            let mut found = false;
            let mut j: usize = 0;
            while j < self.list.len()
                invariant
                    j <= self.list@.len(),
                    found ==> exists|k: int|
                        0 <= k < self.list@.len() && (#[trigger] self.list@[k]).hash@ == hash@,
                    !found ==> forall|k: int|
                        0 <= k < j ==> (#[trigger] self.list@[k]).hash@ != hash@,
                decreases self.list@.len() - j,
            {
                if text::same_text(self.list[j].hash.as_str(), hash.as_str()) {
                    found = true;
                }
                j += 1;
            }
            if !found {
                assert(self.stored@.contains_key(media_rows@[i as int].name@));
                return false;
            }
            i += 1;
        }
        true
    }

    /// How many files may have to be uploaded: all but as many as are stored.
    pub fn potential_file_count(&self) -> (r: usize)
        requires
            all_stored_are_listed(self.list@, self.stored@),
        ensures
            r == self.list@.len() - self.stored@.len(),
    {
        proof {
            lemma_fewer_stored(self.list@, self.stored@);
        }
        self.list.len() - self.stored.len()
    }

    /// Whether there is a place for each of the files that is to be uploaded.
    pub fn keys_exist(&self) -> (r: bool)
        ensures
            r == wanted_have_keys(self.list@, self.notes@, self.stored@),
    {
        let mut i: usize = 0;
        while i < self.list.len()
            invariant
                i <= self.list@.len(),
                forall|j: int|
                    0 <= j < i ==> (fate(#[trigger] self.list@[j], self.notes@, self.stored@)
                        is Wanted ==> files::has_prefix(self.list@[j].hash@)),
            decreases self.list@.len() - i,
        {
            if let FileFate::Wanted { note_id: _, content_type: _ } = decide_fate(
                &self.list[i],
                &self.notes,
                &self.stored,
            ) {
                if !files::has_key(self.list[i].hash.as_str()) {
                    return false;
                }
            }
            i += 1;
        }
        true
    }

    /// Goes on to the next file that is to be uploaded, and says for what its address is to be
    /// asked. Nothing is left to do where there is none.
    pub fn next_offer(&mut self) -> (r: Option<UploadOffer>)
        requires
            old(self).wf(),
            wanted_have_keys(old(self).list@, old(self).notes@, old(self).stored@),
        ensures
            final(self).wf(),
            final(self).same_question(*old(self)),
            old(self).done <= final(self).done,
            final(self).urls@.take(old(self).done as int) == old(self).urls@,
            forall|i: int|
                old(self).done <= i < final(self).done ==> fate(
                    #[trigger] old(self).list@[i],
                    old(self).notes@,
                    old(self).stored@,
                ) !is Wanted,
            match r {
                None => final(self).done == final(self).list@.len(),
                Some(offer) => final(self).done < final(self).list@.len() && is_offer_for(
                    offer,
                    final(self).list@[final(self).done as int],
                    fate(
                        final(self).list@[final(self).done as int],
                        final(self).notes@,
                        final(self).stored@,
                    ),
                ),
            },
    {
        assert(self.urls@.take(self.done as int) =~= self.urls@);
        while self.done < self.list.len()
            invariant
                self.wf(),
                self.same_question(*old(self)),
                wanted_have_keys(self.list@, self.notes@, self.stored@),
                old(self).done <= self.done,
                self.urls@.take(old(self).done as int) == old(self).urls@,
                forall|i: int|
                    old(self).done <= i < self.done ==> fate(
                        #[trigger] self.list@[i],
                        self.notes@,
                        self.stored@,
                    ) !is Wanted,
            decreases self.list@.len() - self.done,
        {
            let ghost before = *self;
            let file = &self.list[self.done];
            match decide_fate(file, &self.notes, &self.stored) {
                FileFate::Wanted { note_id: _, content_type } => {
                    return Some(
                        UploadOffer {
                            hash: file.hash.clone(),
                            filename: file.filename.clone(),
                            key: files::s3_key(file.hash.as_str()),
                            content_length: file.file_size,
                            content_type: content_type.mime(),
                            content_md5: content_md5_of(file.hash.as_str()),
                        },
                    );
                },
                FileFate::Stored { media_id } => {
                    let hash = file.hash.clone();
                    self.existing_files.push(MediaExistingFile { hash, media_id });
                    assert(stored_files(self.existing_files@) =~= stored_files(
                        before.existing_files@,
                    ).push((hash@, media_id)));
                },
                _ => {
                    let hash = file.hash.clone();
                    self.refused.insert(hash);
                },
            }
            proof {
                lemma_more_urls(
                    before.list@,
                    before.notes@,
                    before.stored@,
                    before.urls@,
                    None,
                    before.done as int,
                );
                self.urls@ = before.urls@.push(None);
                assert(self.urls@.take(old(self).done as int) =~= before.urls@.take(
                    old(self).done as int,
                ));
            }
            self.done = self.done + 1;
        }
        None
    }

    /// Takes the address for the file that was offered last, or that there is none.
    pub fn on_presigned(&mut self, url: Option<String>)
        requires
            old(self).wf(),
            old(self).done < old(self).list@.len(),
            fate(
                old(self).list@[old(self).done as int],
                old(self).notes@,
                old(self).stored@,
            ) is Wanted,
        ensures
            final(self).wf(),
            final(self).same_question(*old(self)),
            final(self).done == old(self).done + 1,
            final(self).urls@ == old(self).urls@.push(outside::option_text(url)),
    {
        let ghost before = *self;
        let total = self.list.len();
        let file = &self.list[self.done];
        let fate = decide_fate(file, &self.notes, &self.stored);
        let note_id: i64 = match fate {
            FileFate::Wanted { note_id, content_type: _ } => note_id,
            _ => 0,
        };
        let ghost answer = outside::option_text(url);
        match url {
            Some(address) => {
                let entry = MediaMissingFile {
                    hash: file.hash.clone(),
                    filename: file.filename.clone(),
                    note_id,
                    file_size: file.file_size,
                    presigned_url: Some(address),
                };
                self.missing_files.push(entry);
                assert(wanted_files(self.missing_files@) =~= wanted_files(
                    before.missing_files@,
                ).push(
                    Wanted {
                        hash: before.list@[before.done as int].hash@,
                        filename: before.list@[before.done as int].filename@,
                        note_id,
                        file_size: before.list@[before.done as int].file_size,
                        url: address@,
                    },
                ));
            },
            None => {
                let hash = file.hash.clone();
                self.refused.insert(hash);
            },
        }
        proof {
            lemma_more_urls(
                before.list@,
                before.notes@,
                before.stored@,
                before.urls@,
                answer,
                before.done as int,
            );
            self.urls@ = before.urls@.push(answer);
        }
        assert(self.done < total);
        self.done = self.done + 1;
    }

    /// The answer, when all files have been checked: what is stored, what is to be uploaded, and
    /// behind the files with invalid names those that have the hash of a refused one.
    pub fn finish(
        self,
        invalid: Vec<MediaFileInfo>,
        batch_id: Option<String>,
    ) -> (r: MediaBulkCheckResponse)
        requires
            self.wf(),
            self.done == self.list@.len(),
        ensures
            stored_files(r.existing_files@) == stored_among(
                self.list@,
                self.stored@,
                self.list@.len() as int,
            ),
            wanted_files(r.missing_files@) == wanted_among(
                self.list@,
                self.notes@,
                self.stored@,
                self.urls@,
                self.list@.len() as int,
            ),
            forall|i: int|
                0 <= i < r.missing_files@.len() ==> (
                #[trigger] r.missing_files@[i]).presigned_url is Some,
            r.failed_files@ == invalid@ + self.list@.filter(
                |f: MediaFileInfo|
                    refused_among(
                        self.list@,
                        self.notes@,
                        self.stored@,
                        self.urls@,
                        self.list@.len() as int,
                    ).contains(f.hash@),
            ),
            r.batch_id == batch_id,
    {
        let mut failed = invalid;
        let ghost all_refused = self.refused@;
        let ghost is_refused = |f: MediaFileInfo| all_refused.contains(f.hash@);
        let mut i: usize = 0;
        reveal(Seq::filter);
        while i < self.list.len()
            invariant
                i <= self.list@.len(),
                all_refused == self.refused@,
                is_refused == (|f: MediaFileInfo| all_refused.contains(f.hash@)),
                failed@ == invalid@ + self.list@.take(i as int).filter(is_refused),
            decreases self.list@.len() - i,
        {
            let file = &self.list[i];
            assert(self.list@.take(i + 1) =~= self.list@.take(i as int).push(*file));
            if self.refused.contains(file.hash.as_str()) {
                failed.push(file.clone());
            }
            i += 1;
        }
        assert(self.list@.take(self.list@.len() as int) =~= self.list@);
        assert(is_refused =~= |f: MediaFileInfo|
            refused_among(
                self.list@,
                self.notes@,
                self.stored@,
                self.urls@,
                self.list@.len() as int,
            ).contains(f.hash@));
        MediaBulkCheckResponse {
            existing_files: self.existing_files,
            missing_files: self.missing_files,
            failed_files: failed,
            batch_id,
        }
    }
}

/// A new number for the batch of the files that are to be uploaded; none where there are none.
pub fn new_batch_id(missing: &Vec<MediaMissingFile>) -> (r: Option<String>)
    ensures
        match r {
            Some(id) => missing@.len() > 0 && outside::uuid_number(id@) is Ok,
            None => missing@.len() == 0,
        },
{
    if missing.len() == 0 {
        None
    } else {
        Some(outside::random_uuid())
    }
}

/// What is said of the first `n` files does not depend on the addresses of later ones.
proof fn lemma_more_urls(
    list: Seq<MediaFileInfo>,
    notes: Map<Seq<char>, i64>,
    stored: Map<Seq<char>, i64>,
    urls: Seq<Option<Seq<char>>>,
    url: Option<Seq<char>>,
    n: int,
)
    requires
        n <= urls.len(),
    ensures
        wanted_among(list, notes, stored, urls.push(url), n) == wanted_among(
            list,
            notes,
            stored,
            urls,
            n,
        ),
        refused_among(list, notes, stored, urls.push(url), n) == refused_among(
            list,
            notes,
            stored,
            urls,
            n,
        ),
    decreases n,
{
    if n > 0 {
        lemma_more_urls(list, notes, stored, urls, url, n - 1);
        assert(urls.push(url)[n - 1] == urls[n - 1]);
    }
}

/// The texts by which numbers are known are those of the rows.
proof fn lemma_names(rows: Seq<NamedId>)
    ensures
        forall|k: int|
            0 <= k < rows.len() ==> crate::structs::ids_by_name(rows).contains_key(
                (#[trigger] rows[k]).name@,
            ),
        forall|name: Seq<char>| #[trigger]
            crate::structs::ids_by_name(rows).contains_key(name) ==> exists|k: int|
                0 <= k < rows.len() && (#[trigger] rows[k]).name@ == name,
    decreases rows.len(),
{
    if rows.len() > 0 {
        let shorter = rows.drop_last();
        lemma_names(shorter);
        assert forall|k: int| 0 <= k < rows.len() implies crate::structs::ids_by_name(
            rows,
        ).contains_key((#[trigger] rows[k]).name@) by {
            if k < shorter.len() {
                assert(rows[k] == shorter[k]);
            }
        }
        assert forall|name: Seq<char>| #[trigger]
            crate::structs::ids_by_name(rows).contains_key(name) implies exists|k: int|
            0 <= k < rows.len() && (#[trigger] rows[k]).name@ == name by {
            if name == rows.last().name@ {
                assert(rows[rows.len() - 1].name@ == name);
            } else {
                assert(crate::structs::ids_by_name(shorter).contains_key(name));
                let k = choose|k: int| 0 <= k < shorter.len() && (#[trigger] shorter[k]).name@ == name;
                assert(rows[k].name@ == name);
            }
        }
    }
}

/// The hashes of the first `n` files that are stored.
spec fn stored_hashes(list: Seq<MediaFileInfo>, stored: Map<Seq<char>, i64>, n: int) -> Seq<
    Seq<char>,
> {
    stored_among(list, stored, n).map_values(|e: (Seq<char>, i64)| e.0)
}

proof fn lemma_stored_hashes(list: Seq<MediaFileInfo>, stored: Map<Seq<char>, i64>, n: int)
    requires
        0 <= n <= list.len(),
    ensures
        stored_among(list, stored, n).len() <= n,
        forall|i: int|
            0 <= i < n && stored.contains_key((#[trigger] list[i]).hash@) ==> stored_hashes(
                list,
                stored,
                n,
            ).contains(list[i].hash@),
    decreases n,
{
    if n > 0 {
        lemma_stored_hashes(list, stored, n - 1);
        let before = stored_hashes(list, stored, n - 1);
        let after = stored_hashes(list, stored, n);
        if stored.contains_key(list[n - 1].hash@) {
            assert(after =~= before.push(list[n - 1].hash@));
            assert forall|x: Seq<char>| #[trigger] after.contains(x) <==> before.contains(x) || x
                == list[n - 1].hash@ by {
                vstd::seq_lib::lemma_seq_contains_after_push(before, list[n - 1].hash@, x);
            }
        }
    }
}

/// No more files are stored under different hashes than are stored at all.
proof fn lemma_fewer_stored(list: Seq<MediaFileInfo>, stored: Map<Seq<char>, i64>)
    requires
        all_stored_are_listed(list, stored),
    ensures
        stored.len() <= stored_among(list, stored, list.len() as int).len() <= list.len(),
{
    let n = list.len() as int;
    lemma_stored_hashes(list, stored, n);
    let hashes = stored_hashes(list, stored, n);
    hashes.lemma_cardinality_of_set();
    assert(stored.dom().subset_of(hashes.to_set())) by {
        assert forall|h: Seq<char>| stored.dom().contains(h) implies hashes.to_set().contains(h) by {
            assert(stored.contains_key(h));
            let i = choose|i: int| 0 <= i < list.len() && (#[trigger] list[i]).hash@ == h;
            assert(hashes.contains(list[i].hash@));
        }
    }
    vstd::seq_lib::seq_to_set_is_finite(hashes);
    vstd::set_lib::lemma_len_subset(stored.dom(), hashes.to_set());
}

proof fn lemma_wanted_or_stored(
    list: Seq<MediaFileInfo>,
    notes: Map<Seq<char>, i64>,
    stored: Map<Seq<char>, i64>,
    urls: Seq<Option<Seq<char>>>,
    n: int,
)
    requires
        0 <= n <= list.len(),
    ensures
        wanted_among(list, notes, stored, urls, n).len() + stored_among(list, stored, n).len() <= n,
    decreases n,
{
    if n > 0 {
        lemma_wanted_or_stored(list, notes, stored, urls, n - 1);
    }
}

/// No more uploads are offered than were asked of the limits: all files but as many as are stored.
pub proof fn law_offers_stay_within_what_was_asked(
    list: Seq<MediaFileInfo>,
    notes: Map<Seq<char>, i64>,
    stored: Map<Seq<char>, i64>,
    urls: Seq<Option<Seq<char>>>,
)
    requires
        all_stored_are_listed(list, stored),
    ensures
        wanted_among(list, notes, stored, urls, list.len() as int).len() <= list.len()
            - stored.len(),
{
    lemma_fewer_stored(list, stored);
    lemma_wanted_or_stored(list, notes, stored, urls, list.len() as int);
}

/// Each file gets an answer: it is stored, or offered for upload, or its hash is refused.
pub proof fn law_every_file_is_answered(
    list: Seq<MediaFileInfo>,
    notes: Map<Seq<char>, i64>,
    stored: Map<Seq<char>, i64>,
    urls: Seq<Option<Seq<char>>>,
    n: int,
    i: int,
)
    requires
        0 <= i < n <= list.len(),
    ensures
        ({
            ||| stored.contains_key(list[i].hash@)
            ||| refused_among(list, notes, stored, urls, n).contains(list[i].hash@)
            ||| exists|k: int|
                0 <= k < wanted_among(list, notes, stored, urls, n).len() && (
                #[trigger] wanted_among(list, notes, stored, urls, n)[k]).hash == list[i].hash@
                    && wanted_among(list, notes, stored, urls, n)[k].filename == list[i].filename@
        }),
    decreases n,
{
    let before = wanted_among(list, notes, stored, urls, n - 1);
    let after = wanted_among(list, notes, stored, urls, n);
    if i < n - 1 {
        law_every_file_is_answered(list, notes, stored, urls, n - 1, i);
        if exists|k: int|
            0 <= k < before.len() && (#[trigger] before[k]).hash == list[i].hash@
                && before[k].filename == list[i].filename@ {
            let k = choose|k: int|
                0 <= k < before.len() && (#[trigger] before[k]).hash == list[i].hash@
                    && before[k].filename == list[i].filename@;
            assert(after[k] == before[k]);
        }
    } else if fate(list[i], notes, stored) is Wanted && urls[i] is Some {
        assert(after[after.len() - 1].hash == list[i].hash@);
    }
}

/// What is offered for upload is the file, for the note of the deck to which it belongs.
pub open spec fn is_offered(
    offered: Wanted,
    file: MediaFileInfo,
    notes: Map<Seq<char>, i64>,
) -> bool {
    &&& offered.hash == file.hash@
    &&& offered.filename == file.filename@
    &&& offered.file_size == file.file_size
    &&& notes.contains_key(file.note_guid@)
    &&& notes[file.note_guid@] == offered.note_id
}

/// What is offered for upload is one of the files, with the address that was had for it. It is no
/// larger than a file may be, belongs to a note of the deck, and is not stored yet.
pub proof fn law_offers_are_sound(
    list: Seq<MediaFileInfo>,
    notes: Map<Seq<char>, i64>,
    stored: Map<Seq<char>, i64>,
    urls: Seq<Option<Seq<char>>>,
    n: int,
    k: int,
)
    requires
        0 <= n <= list.len(),
        0 <= k < wanted_among(list, notes, stored, urls, n).len(),
    ensures
        ({
            let offered = wanted_among(list, notes, stored, urls, n)[k];
            &&& 0 < offered.file_size <= files::MAX_FILE_SIZE_BYTES
            &&& !stored.contains_key(offered.hash)
            &&& files::type_by_name(offered.filename) is Some
            &&& exists|i: int|
                0 <= i < n && is_offered(offered, #[trigger] list[i], notes) && urls[i] == Some(
                    offered.url,
                )
        }),
    decreases n,
{
    if n > 0 {
        let before = wanted_among(list, notes, stored, urls, n - 1);
        let offered = wanted_among(list, notes, stored, urls, n)[k];
        if k < before.len() {
            law_offers_are_sound(list, notes, stored, urls, n - 1, k);
            let i = choose|i: int|
                0 <= i < n - 1 && is_offered(offered, #[trigger] list[i], notes) && urls[i] == Some(
                    offered.url,
                );
            assert(is_offered(offered, list[i], notes));
        } else {
            assert(is_offered(offered, list[n - 1], notes));
        }
    }
}

/// What becomes of a file: one whose hash is known is stored already; another one is wanted exactly where
/// its note is in the deck, its size lies between one byte and two mebibytes, and its name tells a type.
pub proof fn law_fates_in_plain_terms(
    file: MediaFileInfo,
    notes: Map<Seq<char>, i64>,
    stored: Map<Seq<char>, i64>,
)
    ensures
        stored.contains_key(file.hash@) <==> fate(file, notes, stored) is Stored,
        stored.contains_key(file.hash@) ==> fate(file, notes, stored) == (FileFate::Stored {
            media_id: stored[file.hash@],
        }),
        fate(file, notes, stored) is Wanted <==> !stored.contains_key(file.hash@)
            && notes.contains_key(file.note_guid@) && 1 <= file.file_size <= 2_097_152
            && files::type_by_name(file.filename@) is Some,
        fate(file, notes, stored) matches FileFate::Wanted { note_id, content_type } ==> note_id
            == notes[file.note_guid@] && files::type_by_name(file.filename@) == Some(content_type),
{
}

/// The files that are stored are named with their own hashes and numbers, in the order of the request,
/// none of them passed over: behind those before a file stands the file, if it is stored, and behind it
/// those of the rest.
pub proof fn law_stored_files_are_named_in_order(
    list: Seq<MediaFileInfo>,
    stored: Map<Seq<char>, i64>,
    n: int,
    i: int,
)
    requires
        0 <= i < n <= list.len(),
    ensures
        stored_among(list, stored, n) == stored_among(list, stored, i) + (if stored.contains_key(
            list[i].hash@,
        ) {
            seq![(list[i].hash@, stored[list[i].hash@])]
        } else {
            Seq::empty()
        }) + stored_among(list.skip(i + 1), stored, n - i - 1),
        stored_among(list, stored, 0).len() == 0,
    decreases n,
{
    let here = if stored.contains_key(list[i].hash@) {
        seq![(list[i].hash@, stored[list[i].hash@])]
    } else {
        Seq::empty()
    };
    let behind = stored_among(list.skip(i + 1), stored, n - i - 1);
    if i == n - 1 {
        assert(behind =~= Seq::empty());
    } else {
        law_stored_files_are_named_in_order(list, stored, n - 1, i);
        assert(list.skip(i + 1)[n - i - 2] == list[n - 1]);
    }
    assert(stored_among(list, stored, n) =~= stored_among(list, stored, i) + here + behind);
}

/// The files that are offered stand in the order of the request, none of them passed over: behind those
/// before a file stands the file, if it is wanted and has an address, and behind it those of the rest.
pub proof fn law_offers_stand_in_order(
    list: Seq<MediaFileInfo>,
    notes: Map<Seq<char>, i64>,
    stored: Map<Seq<char>, i64>,
    urls: Seq<Option<Seq<char>>>,
    n: int,
    i: int,
)
    requires
        0 <= i < n <= list.len(),
        n <= urls.len(),
    ensures
        ({
            let file = list[i];
            let offered = !stored.contains_key(file.hash@) && notes.contains_key(file.note_guid@)
                && 1 <= file.file_size <= 2_097_152 && files::type_by_name(file.filename@) is Some
                && urls[i] is Some;
            wanted_among(list, notes, stored, urls, n) == wanted_among(list, notes, stored, urls, i)
                + (if offered {
                seq![
                    Wanted {
                        hash: file.hash@,
                        filename: file.filename@,
                        note_id: notes[file.note_guid@],
                        file_size: file.file_size,
                        url: urls[i]->0,
                    },
                ]
            } else {
                Seq::empty()
            }) + wanted_among(list.skip(i + 1), notes, stored, urls.skip(i + 1), n - i - 1)
        }),
        wanted_among(list, notes, stored, urls, 0).len() == 0,
    decreases n,
{
    let before = wanted_among(list, notes, stored, urls, i);
    let behind = wanted_among(list.skip(i + 1), notes, stored, urls.skip(i + 1), n - i - 1);
    let here = wanted_among(list, notes, stored, urls, i + 1).skip(before.len() as int);
    if i == n - 1 {
        assert(behind =~= Seq::empty());
    } else {
        law_offers_stand_in_order(list, notes, stored, urls, n - 1, i);
        assert(list.skip(i + 1)[n - i - 2] == list[n - 1]);
        assert(urls.skip(i + 1)[n - i - 2] == urls[n - 1]);
    }
    assert(wanted_among(list, notes, stored, urls, n) =~= before + here + behind);
}

/// A hash is refused exactly where one of the files has it that is neither stored nor offered: its note is
/// not in the deck, or its size or its name will not do, or there was no address for it.
pub proof fn law_refused_hashes_in_plain_terms(
    list: Seq<MediaFileInfo>,
    notes: Map<Seq<char>, i64>,
    stored: Map<Seq<char>, i64>,
    urls: Seq<Option<Seq<char>>>,
    n: int,
    hash: Seq<char>,
)
    requires
        0 <= n <= list.len(),
    ensures
        refused_among(list, notes, stored, urls, n).contains(hash) <==> exists|i: int|
            0 <= i < n && (#[trigger] list[i]).hash@ == hash && !stored.contains_key(hash) && (
            !notes.contains_key(list[i].note_guid@) || list[i].file_size < 1 || list[i].file_size
                > 2_097_152 || files::type_by_name(list[i].filename@) is None || urls[i] is None),
    decreases n,
{
    if n > 0 {
        law_refused_hashes_in_plain_terms(list, notes, stored, urls, n - 1, hash);
        let holds = |i: int|
            list[i].hash@ == hash && !stored.contains_key(hash) && (!notes.contains_key(
                list[i].note_guid@,
            ) || list[i].file_size < 1 || list[i].file_size > 2_097_152 || files::type_by_name(
                list[i].filename@,
            ) is None || urls[i] is None);
        if refused_among(list, notes, stored, urls, n).contains(hash) {
            if !refused_among(list, notes, stored, urls, n - 1).contains(hash) {
                assert(holds(n - 1));
                assert(list[n - 1].hash@ == hash);
            } else {
                let i = choose|i: int|
                    0 <= i < n - 1 && (#[trigger] list[i]).hash@ == hash && !stored.contains_key(
                        hash,
                    ) && (!notes.contains_key(list[i].note_guid@) || list[i].file_size < 1
                        || list[i].file_size > 2_097_152 || files::type_by_name(
                        list[i].filename@,
                    ) is None || urls[i] is None);
                assert(holds(i));
            }
        }
        if exists|i: int|
            0 <= i < n && (#[trigger] list[i]).hash@ == hash && !stored.contains_key(hash) && (
            !notes.contains_key(list[i].note_guid@) || list[i].file_size < 1 || list[i].file_size
                > 2_097_152 || files::type_by_name(list[i].filename@) is None || urls[i] is None) {
            let i = choose|i: int|
                0 <= i < n && (#[trigger] list[i]).hash@ == hash && !stored.contains_key(hash) && (
                !notes.contains_key(list[i].note_guid@) || list[i].file_size < 1
                    || list[i].file_size > 2_097_152 || files::type_by_name(
                    list[i].filename@,
                ) is None || urls[i] is None);
            if i < n - 1 {
                assert(refused_among(list, notes, stored, urls, n - 1).contains(hash));
            }
        }
    }
}

/// What the files need that are not stored is counted file by file: each of them adds its announced size,
/// and a stored one adds nothing.
pub proof fn law_new_bytes_add_up(
    list: Seq<MediaFileInfo>,
    stored: Map<Seq<char>, i64>,
    n: int,
    i: int,
)
    requires
        0 <= i < n <= list.len(),
        0 <= list[i].file_size,
    ensures
        new_bytes(list, stored, n) == new_bytes(list, stored, i) + (if stored.contains_key(
            list[i].hash@,
        ) {
            0
        } else {
            list[i].file_size as int
        }) + new_bytes(list.skip(i + 1), stored, n - i - 1),
        new_bytes(list, stored, 0) == 0,
    decreases n,
{
    if i < n - 1 {
        law_new_bytes_add_up(list, stored, n - 1, i);
        assert(list.skip(i + 1)[n - i - 2] == list[n - 1]);
    }
}

/// A file is tied to its note exactly where it is stored and its note is in the deck, under the name of
/// this request.
pub proof fn law_stored_files_are_tied_to_their_notes(
    file: MediaFileInfo,
    notes: Map<Seq<char>, i64>,
    stored: Map<Seq<char>, i64>,
)
    ensures
        tie_of(file, notes, stored) is Some <==> stored.contains_key(file.hash@)
            && notes.contains_key(file.note_guid@),
        tie_of(file, notes, stored) matches Some(tie) ==> tie.media_id == stored[file.hash@]
            && tie.note_id == notes[file.note_guid@] && tie.file_name == file.filename@,
{
}

/// An offer asks for exactly the file that was announced: under the place of its hash, with its length, the
/// MIME type of its name, and the digest that its hash writes.
pub proof fn law_offers_ask_for_the_announced_file(
    offer: UploadOffer,
    file: MediaFileInfo,
    notes: Map<Seq<char>, i64>,
    stored: Map<Seq<char>, i64>,
)
    requires
        is_offer_for(offer, file, fate(file, notes, stored)),
    ensures
        offer.hash@ == file.hash@,
        offer.filename@ == file.filename@,
        offer.key@ == files::object_key(file.hash@),
        offer.content_length == file.file_size,
        1 <= offer.content_length <= 2_097_152,
        files::type_by_name(file.filename@) matches Some(t) && offer.content_type@ == t.mime_text(),
        outside::is_hex(encode_utf8(file.hash@)) ==> offer.content_md5@ == outside::base64_text(
            outside::hex_bytes(encode_utf8(file.hash@)),
        ),
{
}

/// An entry of an answer stands for its own hash, name, note, size and address, or for its own hash and
/// number, and a reference for the file and the note that it ties.
pub proof fn law_entries_stand_for_themselves(
    missing: Seq<MediaMissingFile>,
    existing: Seq<MediaExistingFile>,
    references: Seq<MediaReference>,
    i: int,
)
    ensures
        wanted_files(missing).len() == missing.len(),
        0 <= i < missing.len() ==> {
            let w = wanted_files(missing)[i];
            w.hash == missing[i].hash@ && w.filename == missing[i].filename@ && w.note_id
                == missing[i].note_id && w.file_size == missing[i].file_size && (
            missing[i].presigned_url matches Some(url) ==> w.url == url@)
        },
        stored_files(existing).len() == existing.len(),
        0 <= i < existing.len() ==> stored_files(existing)[i].0 == existing[i].hash@
            && stored_files(existing)[i].1 == existing[i].media_id,
        ties(references).len() == references.len(),
        0 <= i < references.len() ==> {
            let t = ties(references)[i];
            t.media_id == references[i].media_id && t.note_id == references[i].note_id
                && t.file_name == references[i].file_name@
        },
{
}

/// Only a limit that has been reached is answered as such; every other failure is one of the server.
pub proof fn law_failed_checks_are_no_successes(failure: CheckFailure)
    ensures
        check_failure(failure).0 == 429 <==> failure == CheckFailure::Limit,
        check_failure(failure).0 == 500 <==> failure != CheckFailure::Limit,
        check_failure(failure).1.len() > 0,
{
    reveal_strlit("Internal error");
    reveal_strlit("Error processing request");
    reveal_strlit("Error storing upload metadata");
    reveal_strlit("You reached the upload limit. Please try again tomorrow.");
}

/// Where all hashes have two or more ASCII characters, there is a place for every file that is to be
/// uploaded, whichever these are.
pub proof fn law_ascii_hashes_can_be_uploaded(
    list: Seq<MediaFileInfo>,
    notes: Map<Seq<char>, i64>,
    stored: Map<Seq<char>, i64>,
)
    requires
        forall|i: int| #![trigger list[i]]
            0 <= i < list.len() ==> list[i].hash@.len() >= 2 && is_ascii_chars(list[i].hash@),
    ensures
        wanted_have_keys(list, notes, stored),
{
    assert forall|i: int| 0 <= i < list.len() implies (fate(#[trigger] list[i], notes, stored)
        is Wanted ==> files::has_prefix(list[i].hash@)) by {
        files::law_ascii_hashes_have_a_place(list[i].hash@);
    }
}

/// Where the stored files were looked up by the hashes of a list, each of them is one of the list.
pub proof fn law_looked_up_files_are_listed(list: Seq<MediaFileInfo>, rows: Seq<NamedId>)
    requires
        forall|k: int|
            0 <= k < rows.len() ==> exists|i: int|
                0 <= i < list.len() && (#[trigger] list[i]).hash@ == (#[trigger] rows[k]).name@,
    ensures
        all_stored_are_listed(list, crate::structs::ids_by_name(rows)),
{
    lemma_names(rows);
}

} // verus!
