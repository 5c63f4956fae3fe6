//! The confirmation that a batch of media files has been uploaded.
use vstd::prelude::*;

use crate::media_manager::files;
use crate::outside;
use crate::reply::{
    Reply, BAD_REQUEST, INTERNAL_SERVER_ERROR, NOT_FOUND,
};
use crate::structs::{MediaBulkConfirmRequest, MediaMissingFile, MediaProcessedFile};
use crate::text;

verus! {

broadcast use vstd::seq::Seq::lemma_filter_push;

/// The most files that one confirmation names.
pub const MAX_CONFIRMED_FILES: usize = 100;

/// A request that names no files or too many is refused.
pub fn check_confirm_request(req: &MediaBulkConfirmRequest) -> (r: Result<(), Reply>)
    ensures
        match r {
            Ok(_) => 0 < req.confirmed_files@.len() <= 100,
            Err(e) => !(0 < req.confirmed_files@.len() <= 100) && e.says(
                BAD_REQUEST,
                "Invalid Format"@,
            ),
        },
{
    if req.confirmed_files.len() == 0 || req.confirmed_files.len() > MAX_CONFIRMED_FILES {
        return Err(Reply::new(BAD_REQUEST, "Invalid Format"));
    }
    Ok(())
}

/// The number of the batch that a request names; it is refused where that is not a UUID.
pub fn parse_batch_id(batch_id: &str) -> (r: Result<u128, Reply>)
    ensures
        match r {
            Ok(id) => outside::uuid_number(batch_id@) == Ok::<u128, Seq<char>>(id),
            Err(e) => outside::uuid_number(batch_id@) is Err && e.says(
                BAD_REQUEST,
                "Invalid batch ID"@,
            ),
        },
{
    batch_id_or_refusal(outside::uuid_parse(batch_id))
}

/// What is made of the attempt to read the number of a batch.
pub fn batch_id_or_refusal(parsed: Result<u128, String>) -> (r: Result<u128, Reply>)
    ensures
        match r {
            Ok(id) => parsed == Ok::<u128, String>(id),
            Err(e) => parsed is Err && e.says(BAD_REQUEST, "Invalid batch ID"@),
        },
{
    match parsed {
        Ok(id) => Ok(id),
        Err(_) => Err(Reply::new(BAD_REQUEST, "Invalid batch ID")),
    }
}

/// What can fail around the check of the files.
#[derive(Clone, Copy, Debug, PartialEq, Eq, Structural)]
pub enum ConfirmFailure {
    /// There is no connection to the database.
    Connection,
    /// The batch could not be asked for.
    BatchQuery,
    /// There is no such batch.
    BatchMissing,
    /// What is stored of the batch cannot be read.
    BatchUnreadable,
    /// The transaction could not begin.
    Transaction,
    /// The notes could not be asked for.
    NoteQuery,
    /// A stored file could not be read to its end.
    Stream,
    /// The transaction could not be committed.
    Commit,
}

/// The status and the text with which a failure is answered.
pub open spec fn confirm_failure(failure: ConfirmFailure) -> (u16, Seq<char>) {
    match failure {
        ConfirmFailure::Connection => (INTERNAL_SERVER_ERROR, "Internal error"@),
        ConfirmFailure::BatchQuery => (INTERNAL_SERVER_ERROR, "Error retrieving upload metadata"@),
        ConfirmFailure::BatchMissing => (NOT_FOUND, "Batch not found or expired"@),
        ConfirmFailure::BatchUnreadable => (INTERNAL_SERVER_ERROR, "Error parsing upload metadata"@),
        ConfirmFailure::Transaction => (INTERNAL_SERVER_ERROR, "Internal error"@),
        ConfirmFailure::NoteQuery => (INTERNAL_SERVER_ERROR, "Internal error"@),
        ConfirmFailure::Stream => (INTERNAL_SERVER_ERROR, "Invalid data"@),
        ConfirmFailure::Commit => (INTERNAL_SERVER_ERROR, "Internal error"@),
    }
}

/// The answer to a failure.
pub fn confirm_failure_reply(failure: ConfirmFailure) -> (r: Reply)
    ensures
        r.says(confirm_failure(failure).0, confirm_failure(failure).1),
{
    match failure {
        ConfirmFailure::Connection => Reply::new(INTERNAL_SERVER_ERROR, "Internal error"),
        ConfirmFailure::BatchQuery => Reply::new(
            INTERNAL_SERVER_ERROR,
            "Error retrieving upload metadata",
        ),
        ConfirmFailure::BatchMissing => Reply::new(NOT_FOUND, "Batch not found or expired"),
        ConfirmFailure::BatchUnreadable => Reply::new(
            INTERNAL_SERVER_ERROR,
            "Error parsing upload metadata",
        ),
        ConfirmFailure::Transaction => Reply::new(INTERNAL_SERVER_ERROR, "Internal error"),
        ConfirmFailure::NoteQuery => Reply::new(INTERNAL_SERVER_ERROR, "Internal error"),
        ConfirmFailure::Stream => Reply::new(INTERNAL_SERVER_ERROR, "Invalid data"),
        ConfirmFailure::Commit => Reply::new(INTERNAL_SERVER_ERROR, "Internal error"),
    }
}

/// A file of a batch that was confirmed and that may be stored under its name.
pub open spec fn is_confirmed(file: MediaMissingFile, hashes: Seq<String>) -> bool {
    text::texts(hashes).contains(file.hash@) && files::is_allowed_name(file.filename@)
}

/// The files of a batch, told apart by what the client says of them.
#[derive(Debug, PartialEq)]
pub struct ConfirmPlan {
    /// The files that the client says have been uploaded, and that may be stored.
    pub confirmed: Vec<MediaMissingFile>,
    /// The files of which the client says nothing; whatever is stored of them goes.
    pub unconfirmed: Vec<MediaMissingFile>,
}

/// Tells the files of a batch apart.
pub fn plan_confirmation(batch: &Vec<MediaMissingFile>, hashes: &Vec<String>) -> (r: ConfirmPlan)
    ensures
        r.confirmed@ == batch@.filter(|f: MediaMissingFile| is_confirmed(f, hashes@)),
        r.unconfirmed@ == batch@.filter(
            |f: MediaMissingFile| !text::texts(hashes@).contains(f.hash@),
        ),
{
    let named = text::set_of(hashes);
    let mut confirmed: Vec<MediaMissingFile> = Vec::new();
    let mut unconfirmed: Vec<MediaMissingFile> = Vec::new();
    let ghost chosen = |f: MediaMissingFile| is_confirmed(f, hashes@);
    let ghost left_out = |f: MediaMissingFile| !text::texts(hashes@).contains(f.hash@);
    let mut i: usize = 0;
    reveal(Seq::filter);
    while i < batch.len()
        invariant
            i <= batch@.len(),
            named@ == text::texts(hashes@).to_set(),
            chosen == (|f: MediaMissingFile| is_confirmed(f, hashes@)),
            left_out == (|f: MediaMissingFile| !text::texts(hashes@).contains(f.hash@)),
            confirmed@ == batch@.take(i as int).filter(chosen),
            unconfirmed@ == batch@.take(i as int).filter(left_out),
        decreases batch@.len() - i,
    {
        let file = &batch[i];
        assert(batch@.take(i + 1) =~= batch@.take(i as int).push(*file));
        if named.contains(file.hash.as_str()) {
            if files::is_allowed_extension(file.filename.as_str()) {
                confirmed.push(file.clone());
            }
        } else {
            unconfirmed.push(file.clone());
        }
        i += 1;
    }
    assert(batch@.take(batch@.len() as int) =~= batch@);
    ConfirmPlan { confirmed, unconfirmed }
}

/// The notes to which the files belong.
pub fn note_ids_of(list: &Vec<MediaMissingFile>) -> (r: Vec<i64>)
    ensures
        r@ == list@.map_values(|f: MediaMissingFile| f.note_id),
{
    let mut out: Vec<i64> = Vec::new();
    let mut i: usize = 0;
    while i < list.len()
        invariant
            i <= list@.len(),
            out@ == list@.take(i as int).map_values(|f: MediaMissingFile| f.note_id),
        decreases list@.len() - i,
    {
        out.push(list[i].note_id);
        assert(list@.take(i + 1) =~= list@.take(i as int).push(list@[i as int]));
        i += 1;
    }
    assert(list@.take(list@.len() as int) =~= list@);
    out
}

/// There is a place for each of the files.
pub open spec fn all_have_keys(list: Seq<MediaMissingFile>) -> bool {
    forall|i: int| 0 <= i < list.len() ==> files::has_prefix((#[trigger] list[i]).hash@)
}

/// Whether there is a place for each of the files.
pub fn have_keys(list: &Vec<MediaMissingFile>) -> (r: bool)
    ensures
        r == all_have_keys(list@),
{
    let mut i: usize = 0;
    while i < list.len()
        invariant
            i <= list@.len(),
            forall|j: int| 0 <= j < i ==> files::has_prefix((#[trigger] list@[j]).hash@),
        decreases list@.len() - i,
    {
        if !files::has_key(list[i].hash.as_str()) {
            return false;
        }
        i += 1;
    }
    true
}

/// Where the files are stored.
pub fn keys_of(list: &Vec<MediaMissingFile>) -> (r: Vec<String>)
    requires
        all_have_keys(list@),
    ensures
        text::texts(r@) == list@.map_values(|f: MediaMissingFile| files::object_key(f.hash@)),
{
    let mut out: Vec<String> = Vec::new();
    let mut i: usize = 0;
    while i < list.len()
        invariant
            i <= list@.len(),
            all_have_keys(list@),
            text::texts(out@) == list@.take(i as int).map_values(
                |f: MediaMissingFile| files::object_key(f.hash@),
            ),
        decreases list@.len() - i,
    {
        let key = files::s3_key(list[i].hash.as_str());
        let ghost before = out@;
        out.push(key);
        assert(text::texts(out@) =~= text::texts(before).push(key@));
        assert(list@.take(i + 1) =~= list@.take(i as int).push(list@[i as int]));
        assert(text::texts(out@) =~= list@.take(i + 1).map_values(
            |f: MediaMissingFile| files::object_key(f.hash@),
        ));
        i += 1;
    }
    assert(list@.take(list@.len() as int) =~= list@);
    out
}

/// A stored file has the size that was announced for it, give or take one percent, and is neither
/// empty nor too large.
pub open spec fn is_size_acceptable(actual: i64, announced: i64) -> bool {
    &&& actual <= files::MAX_FILE_SIZE_BYTES
    &&& actual != 0
    &&& actual * 100 <= announced * 101
    &&& actual * 100 >= announced * 99
}

/// Whether a stored file has the size that was announced for it.
pub fn size_acceptable(actual: i64, announced: i64) -> (r: bool)
    ensures
        r == is_size_acceptable(actual, announced),
{
    if actual > files::MAX_FILE_SIZE_BYTES as i64 || actual == 0 {
        return false;
    }
    let actual_hundredfold: i128 = actual as i128 * 100;
    actual_hundredfold <= announced as i128 * 101 && actual_hundredfold >= announced as i128 * 99
}

/// A stored file of exactly the announced size is accepted, if a file may have that size.
pub proof fn law_the_announced_size_is_accepted(size: i64)
    requires
        0 < size <= files::MAX_FILE_SIZE_BYTES,
    ensures
        is_size_acceptable(size, size),
{
}

/// What is awaited of the file that is being checked.
#[derive(Clone, Copy, Debug, PartialEq, Eq, Structural)]
pub enum ConfirmStage {
    /// Whether and how large it is stored.
    Head,
    /// Its content; the size is known.
    Content { size: i64 },
    /// Its record; the size is known.
    Record { size: i64 },
    /// Its tie to the note; the number of its record is known.
    Reference { media_id: i64 },
}

/// What is to be done next for the file that is being checked.
#[derive(Debug, PartialEq)]
pub enum ConfirmStep {
    /// Nothing: what became of the file is known.
    Settled,
    /// The stored object is to be deleted; what became of the file is known.
    Discard { key: String },
    /// The stored object is to be read and checked.
    Fetch { key: String },
    /// The file is to be recorded.
    Store { size: i64 },
    /// The file is to be tied to its note.
    Refer { media_id: i64 },
}

/// What became of a file.
pub open spec fn is_outcome(
    p: MediaProcessedFile,
    file: MediaMissingFile,
    media_id: i64,
    error: Option<Seq<char>>,
) -> bool {
    &&& p.hash@ == file.hash@
    &&& p.media_id == media_id
    &&& p.success == (error is None)
    &&& outside::option_text(p.error) == error
}

/// The answers to what was asked about a file, as far as it was asked: whether and how large it is
/// stored, the verdict on its content, the number under which it was recorded, and whether it was
/// tied to its note.
pub struct FileAnswers {
    pub head: Option<Result<Option<i64>, Seq<char>>>,
    pub content: Option<Result<bool, Seq<char>>>,
    pub stored: Option<Result<i64, Seq<char>>>,
    pub referred: Option<Result<(), Seq<char>>>,
}

impl FileAnswers {
    /// Nothing has been asked.
    pub open spec fn none() -> FileAnswers {
        FileAnswers { head: None, content: None, stored: None, referred: None }
    }

    /// The size with which the file is stored; one that is not given is zero.
    pub open spec fn size(self) -> i64 {
        match self.head {
            Some(Ok(Some(n))) => n,
            _ => 0,
        }
    }
}

/// What is said of a file follows from the answers.
pub open spec fn is_settled(
    p: MediaProcessedFile,
    file: MediaMissingFile,
    valid_notes: Seq<i64>,
    answers: FileAnswers,
) -> bool {
    match verdict(file, valid_notes, answers) {
        Some((media_id, error)) => is_outcome(p, file, media_id, error),
        None => false,
    }
}

/// The text of a reason, where there is one.
pub open spec fn reason_text<A>(answer: Result<A, String>) -> Result<A, Seq<char>> {
    match answer {
        Ok(a) => Ok(a),
        Err(e) => Err(e@),
    }
}

/// What becomes of a file: the number of its record, zero where it has none, and why it was not
/// accepted, where it was not. Nothing is known yet where an answer is missing.
pub open spec fn verdict(
    file: MediaMissingFile,
    valid_notes: Seq<i64>,
    answers: FileAnswers,
) -> Option<(i64, Option<Seq<char>>)> {
    match answers.head {
        None => None,
        Some(Err(e)) => Some((0, Some("File not found: "@ + e))),
        Some(Ok(_)) => if !valid_notes.contains(file.note_id) || !is_size_acceptable(
            answers.size(),
            file.file_size,
        ) {
            Some((0, Some("Invalid file"@)))
        } else {
            match answers.content {
                None => None,
                Some(Err(e)) => Some((0, Some("Error retrieving file: "@ + e))),
                Some(Ok(false)) => Some((0, Some("Invalid file"@))),
                Some(Ok(true)) => match answers.stored {
                    None => None,
                    Some(Err(e)) => Some((0, Some("Error inserting media file: "@ + e))),
                    Some(Ok(media_id)) => match answers.referred {
                        None => None,
                        Some(Err(e)) => Some(
                            (media_id, Some("Error creating reference: "@ + e)),
                        ),
                        Some(Ok(_)) => Some((media_id, None)),
                    },
                },
            }
        },
    }
}

/// The check of the confirmed files, one after the other.
pub struct Confirmation {
    pub files: Vec<MediaMissingFile>,
    pub valid_notes: Vec<i64>,
    pub processed: Vec<MediaProcessedFile>,
    pub stage: ConfirmStage,
    /// What was answered about the files that have been checked.
    pub answers: Ghost<Seq<FileAnswers>>,
    /// What was answered about the file that is being checked.
    pub pending: Ghost<FileAnswers>,
}

impl Confirmation {
    /// The file that is being checked.
    pub open spec fn file(self) -> MediaMissingFile {
        self.files@[self.processed@.len() as int]
    }

    /// A file is being checked.
    pub open spec fn is_open(self) -> bool {
        self.processed@.len() < self.files@.len()
    }

    /// What has been said of the files so far is in their order, and follows from the answers. The
    /// stage tells what has been answered about the file that is being checked.
    pub open spec fn wf(self) -> bool {
        &&& all_have_keys(self.files@)
        &&& self.processed@.len() <= self.files@.len()
        &&& self.answers@.len() == self.processed@.len()
        &&& forall|k: int| #![trigger self.processed@[k]]
            0 <= k < self.processed@.len() ==> is_settled(
                self.processed@[k],
                self.files@[k],
                self.valid_notes@,
                self.answers@[k],
            )
        &&& self.stage != ConfirmStage::Head ==> {
            &&& self.is_open()
            &&& self.valid_notes@.contains(self.file().note_id)
            &&& self.pending@.head matches Some(Ok(_))
            &&& is_size_acceptable(self.pending@.size(), self.file().file_size)
        }
        &&& match self.stage {
            ConfirmStage::Head => self.pending@ == FileAnswers::none(),
            ConfirmStage::Content { size } => {
                &&& size == self.pending@.size()
                &&& self.pending@ == (FileAnswers {
                    head: self.pending@.head,
                    ..FileAnswers::none()
                })
            },
            ConfirmStage::Record { size } => {
                &&& size == self.pending@.size()
                &&& self.pending@ == (FileAnswers {
                    head: self.pending@.head,
                    content: Some(Ok(true)),
                    ..FileAnswers::none()
                })
            },
            ConfirmStage::Reference { media_id } => self.pending@ == (FileAnswers {
                head: self.pending@.head,
                content: Some(Ok(true)),
                stored: Some(Ok(media_id)),
                referred: None,
            }),
        }
    }

    /// The check goes on with the same files, and more has been answered about the one that is
    /// being checked.
    pub open spec fn goes_on(self, after: Confirmation, answers: FileAnswers) -> bool {
        &&& after.files == self.files
        &&& after.valid_notes == self.valid_notes
        &&& after.processed@ == self.processed@
        &&& after.answers@ == self.answers@
        &&& after.pending@ == answers
    }

    /// The check of one file has come to an end, with the outcome last in the list.
    pub open spec fn settles(
        self,
        after: Confirmation,
        answers: FileAnswers,
        media_id: i64,
        error: Option<Seq<char>>,
    ) -> bool {
        &&& after.files == self.files
        &&& after.valid_notes == self.valid_notes
        &&& after.stage == ConfirmStage::Head
        &&& after.processed@.len() == self.processed@.len() + 1
        &&& after.processed@.drop_last() == self.processed@
        &&& is_outcome(after.processed@.last(), self.file(), media_id, error)
        &&& after.answers@ == self.answers@.push(answers)
        &&& after.pending@ == FileAnswers::none()
    }

    /// What is answered about the file with whether and how large it is stored.
    pub open spec fn with_head(self, head: Result<Option<i64>, String>) -> FileAnswers {
        FileAnswers { head: Some(reason_text(head)), ..self.pending@ }
    }

    /// What is answered about the file with the verdict on its content.
    pub open spec fn with_content(self, content: Result<bool, String>) -> FileAnswers {
        FileAnswers { content: Some(reason_text(content)), ..self.pending@ }
    }

    /// What is answered about the file with the number under which it was recorded.
    pub open spec fn with_stored(self, stored: Result<i64, String>) -> FileAnswers {
        FileAnswers { stored: Some(reason_text(stored)), ..self.pending@ }
    }

    /// What is answered about the file with whether it was tied to its note.
    pub open spec fn with_referred(self, referred: Result<(), String>) -> FileAnswers {
        FileAnswers { referred: Some(reason_text(referred)), ..self.pending@ }
    }

    /// A check that begins with the first of the files.
    pub fn new(confirmed: Vec<MediaMissingFile>, valid_notes: Vec<i64>) -> (r: Self)
        requires
            all_have_keys(confirmed@),
        ensures
            r.wf(),
            r.files == confirmed,
            r.valid_notes == valid_notes,
            r.processed@.len() == 0,
            r.stage == ConfirmStage::Head,
            r.answers@.len() == 0,
    {
        Confirmation {
            files: confirmed,
            valid_notes,
            processed: Vec::new(),
            stage: ConfirmStage::Head,
            answers: Ghost(Seq::empty()),
            pending: Ghost(FileAnswers::none()),
        }
    }

    /// Where the next file is stored; nothing where all of them have been checked.
    pub fn next_key(&self) -> (r: Option<String>)
        requires
            self.wf(),
        ensures
            match r {
                Some(key) => self.is_open() && key@ == files::object_key(self.file().hash@),
                None => self.processed@.len() == self.files@.len(),
            },
    {
        if self.processed.len() < self.files.len() {
            let file = &self.files[self.processed.len()];
            Some(files::s3_key(file.hash.as_str()))
        } else {
            None
        }
    }

    fn note_is_valid(&self) -> (r: bool)
        requires
            self.is_open(),
        ensures
            r == self.valid_notes@.contains(self.file().note_id),
    {
        let note_id = self.files[self.processed.len()].note_id;
        let mut i: usize = 0;
        while i < self.valid_notes.len()
            invariant
                i <= self.valid_notes@.len(),
                note_id == self.file().note_id,
                forall|j: int| 0 <= j < i ==> self.valid_notes@[j] != note_id,
            decreases self.valid_notes@.len() - i,
        {
            if self.valid_notes[i] == note_id {
                return true;
            }
            i += 1;
        }
        false
    }

    /// Notes what became of the file that is being checked.
    fn settle(&mut self, answers: Ghost<FileAnswers>, media_id: i64, error: Option<String>)
        requires
            old(self).wf(),
            old(self).is_open(),
            verdict(old(self).file(), old(self).valid_notes@, answers@) == Some(
                (media_id, outside::option_text(error)),
            ),
        ensures
            final(self).wf(),
            old(self).settles(*final(self), answers@, media_id, outside::option_text(error)),
    {
        let hash = self.files[self.processed.len()].hash.clone();
        let success = error.is_none();
        self.processed.push(MediaProcessedFile { hash, media_id, success, error });
        self.stage = ConfirmStage::Head;
        proof {
            self.answers@ = old(self).answers@.push(answers@);
            self.pending@ = FileAnswers::none();
        }
        assert(self.processed@.drop_last() =~= old(self).processed@);
    }

    /// Takes the answer to the question whether and how large the file is stored; a size that is
    /// not given is zero.
    pub fn on_head(&mut self, head: Result<Option<i64>, String>) -> (r: ConfirmStep)
        requires
            old(self).wf(),
            old(self).is_open(),
            old(self).stage == ConfirmStage::Head,
        ensures
            final(self).wf(),
            match head {
                Err(e) => r is Settled && old(self).settles(
                    *final(self),
                    old(self).with_head(head),
                    0,
                    Some("File not found: "@ + e@),
                ),
                Ok(length) => {
                    let size = match length {
                        Some(n) => n,
                        None => 0,
                    };
                    if old(self).valid_notes@.contains(old(self).file().note_id)
                        && is_size_acceptable(size, old(self).file().file_size) {
                        &&& r matches ConfirmStep::Fetch { key } && key@ == files::object_key(
                            old(self).file().hash@,
                        )
                        &&& old(self).goes_on(*final(self), old(self).with_head(head))
                        &&& final(self).stage == ConfirmStage::Content { size }
                    } else {
                        &&& r matches ConfirmStep::Discard { key } && key@ == files::object_key(
                            old(self).file().hash@,
                        )
                        &&& old(self).settles(
                            *final(self),
                            old(self).with_head(head),
                            0,
                            Some("Invalid file"@),
                        )
                    }
                },
            },
    {
        let ghost answers = self.with_head(head);
        match head {
            Err(e) => {
                self.settle(Ghost(answers), 0, Some(text::joined("File not found: ", e.as_str())));
                ConfirmStep::Settled
            },
            Ok(length) => {
                let size: i64 = match length {
                    Some(n) => n,
                    None => 0,
                };
                let file = &self.files[self.processed.len()];
                let key = files::s3_key(file.hash.as_str());
                if self.note_is_valid() && size_acceptable(size, file.file_size) {
                    self.stage = ConfirmStage::Content { size };
                    proof {
                        self.pending@ = answers;
                    }
                    ConfirmStep::Fetch { key }
                } else {
                    self.settle(Ghost(answers), 0, Some("Invalid file".to_owned()));
                    ConfirmStep::Discard { key }
                }
            },
        }
    }

    /// Takes the verdict on the content of the file, or the reason why it could not be had.
    pub fn on_content(&mut self, content: Result<bool, String>) -> (r: ConfirmStep)
        requires
            old(self).wf(),
            old(self).stage is Content,
        ensures
            final(self).wf(),
            match content {
                Err(e) => r is Settled && old(self).settles(
                    *final(self),
                    old(self).with_content(content),
                    0,
                    Some("Error retrieving file: "@ + e@),
                ),
                Ok(false) => {
                    &&& r matches ConfirmStep::Discard { key } && key@ == files::object_key(
                        old(self).file().hash@,
                    )
                    &&& old(self).settles(
                        *final(self),
                        old(self).with_content(content),
                        0,
                        Some("Invalid file"@),
                    )
                },
                Ok(true) => {
                    &&& r == (ConfirmStep::Store { size: old(self).stage->Content_size })
                    &&& old(self).goes_on(*final(self), old(self).with_content(content))
                    &&& final(self).stage == (ConfirmStage::Record {
                        size: old(self).stage->Content_size,
                    })
                },
            },
    {
        let ghost answers = self.with_content(content);
        match content {
            Err(e) => {
                self.settle(Ghost(answers), 0, Some(text::joined("Error retrieving file: ", e.as_str())));
                ConfirmStep::Settled
            },
            Ok(valid) => {
                if valid {
                    let size: i64 = match self.stage {
                        ConfirmStage::Content { size } => size,
                        _ => 0,
                    };
                    self.stage = ConfirmStage::Record { size };
                    proof {
                        self.pending@ = answers;
                    }
                    ConfirmStep::Store { size }
                } else {
                    let key = files::s3_key(self.files[self.processed.len()].hash.as_str());
                    self.settle(Ghost(answers), 0, Some("Invalid file".to_owned()));
                    ConfirmStep::Discard { key }
                }
            },
        }
    }

    /// Takes the number under which the file was recorded, or the reason why it was not.
    pub fn on_stored(&mut self, stored: Result<i64, String>) -> (r: ConfirmStep)
        requires
            old(self).wf(),
            old(self).stage is Record,
        ensures
            final(self).wf(),
            match stored {
                Err(e) => r is Settled && old(self).settles(
                    *final(self),
                    old(self).with_stored(stored),
                    0,
                    Some("Error inserting media file: "@ + e@),
                ),
                Ok(media_id) => {
                    &&& r == (ConfirmStep::Refer { media_id })
                    &&& old(self).goes_on(*final(self), old(self).with_stored(stored))
                    &&& final(self).stage == (ConfirmStage::Reference { media_id })
                },
            },
    {
        let ghost answers = self.with_stored(stored);
        match stored {
            Err(e) => {
                self.settle(Ghost(answers), 0, Some(text::joined("Error inserting media file: ", e.as_str())));
                ConfirmStep::Settled
            },
            Ok(media_id) => {
                self.stage = ConfirmStage::Reference { media_id };
                proof {
                    self.pending@ = answers;
                }
                ConfirmStep::Refer { media_id }
            },
        }
    }

    /// Takes whether the file was tied to its note, or the reason why it was not.
    pub fn on_referred(&mut self, referred: Result<(), String>) -> (r: ConfirmStep)
        requires
            old(self).wf(),
            old(self).stage is Reference,
        ensures
            final(self).wf(),
            r is Settled,
            old(self).settles(
                *final(self),
                old(self).with_referred(referred),
                old(self).stage->media_id,
                match referred {
                    Ok(_) => None,
                    Err(e) => Some("Error creating reference: "@ + e@),
                },
            ),
    {
        let ghost answers = self.with_referred(referred);
        let media_id: i64 = match self.stage {
            ConfirmStage::Reference { media_id } => media_id,
            _ => 0,
        };
        let error = match referred {
            Ok(_) => None,
            Err(e) => Some(text::joined("Error creating reference: ", e.as_str())),
        };
        self.settle(Ghost(answers), media_id, error);
        ConfirmStep::Settled
    }
}

/// When all confirmed files have been checked, each of them has an answer of its own, in their
/// order, which says why it was not accepted, where it was not.
pub proof fn law_every_confirmed_file_is_answered(c: Confirmation, k: int)
    requires
        c.wf(),
        !c.is_open(),
        0 <= k < c.files@.len(),
    ensures
        c.processed@.len() == c.files@.len(),
        c.processed@[k].hash@ == c.files@[k].hash@,
        c.processed@[k].success <==> c.processed@[k].error is None,
{
    assert(is_settled(c.processed@[k], c.files@[k], c.valid_notes@, c.answers@[k]));
}

/// A file was accepted exactly where it belongs to a note that there is, is stored with an
/// acceptable size, has valid content, was recorded, and was tied to its note. It then has the
/// number of its record.
pub proof fn law_accepted_files_passed_every_check(c: Confirmation, k: int)
    requires
        c.wf(),
        0 <= k < c.processed@.len(),
    ensures
        c.processed@[k].success <==> {
            &&& c.valid_notes@.contains(c.files@[k].note_id)
            &&& c.answers@[k].head matches Some(Ok(_))
            &&& is_size_acceptable(c.answers@[k].size(), c.files@[k].file_size)
            &&& c.answers@[k].content == Some(Ok::<bool, Seq<char>>(true))
            &&& c.answers@[k].stored matches Some(Ok(_))
            &&& c.answers@[k].referred matches Some(Ok(_))
        },
        c.processed@[k].success ==> c.answers@[k].stored == Some(
            Ok::<i64, Seq<char>>(c.processed@[k].media_id),
        ),
{
    assert(is_settled(c.processed@[k], c.files@[k], c.valid_notes@, c.answers@[k]));
}

/// The announced size of the first file of a hash; zero where there is none.
pub open spec fn announced_size(list: Seq<MediaMissingFile>, hash: Seq<char>) -> nat
    decreases list.len(),
{
    if list.len() == 0 {
        0
    } else if list[0].hash@ == hash {
        (list[0].file_size as u64) as nat
    } else {
        announced_size(list.skip(1), hash)
    }
}

/// The announced sizes of the files that were accepted, added up.
pub open spec fn accepted_bytes(
    processed: Seq<MediaProcessedFile>,
    list: Seq<MediaMissingFile>,
) -> nat
    decreases processed.len(),
{
    if processed.len() == 0 {
        0
    } else {
        accepted_bytes(processed.drop_last(), list) + if processed.last().success {
            announced_size(list, processed.last().hash@)
        } else {
            0
        }
    }
}

fn size_announced_for(list: &Vec<MediaMissingFile>, hash: &str) -> (r: u64)
    ensures
        r == announced_size(list@, hash@),
{
    let mut i: usize = 0;
    assert(list@.skip(0) =~= list@);
    while i < list.len()
        invariant
            i <= list@.len(),
            announced_size(list@, hash@) == announced_size(list@.skip(i as int), hash@),
        decreases list@.len() - i,
    {
        assert(list@.skip(i as int).skip(1) =~= list@.skip(i + 1));
        if text::same_text(list[i].hash.as_str(), hash) {
            return list[i].file_size as u64;
        }
        i += 1;
    }
    0
}

/// The announced sizes of the files that were accepted, added up; nothing where the sum does not
/// fit.
pub fn bytes_stored(
    processed: &Vec<MediaProcessedFile>,
    confirmed: &Vec<MediaMissingFile>,
) -> (r: Option<u64>)
    ensures
        match r {
            Some(sum) => sum == accepted_bytes(processed@, confirmed@),
            None => accepted_bytes(processed@, confirmed@) > u64::MAX,
        },
{
    let mut sum: u64 = 0;
    let mut too_large = false;
    let mut i: usize = 0;
    while i < processed.len()
        invariant
            i <= processed@.len(),
            !too_large ==> sum == accepted_bytes(processed@.take(i as int), confirmed@),
            too_large ==> accepted_bytes(processed@.take(i as int), confirmed@) > u64::MAX,
        decreases processed@.len() - i,
    {
        assert(processed@.take(i + 1).drop_last() =~= processed@.take(i as int));
        if processed[i].success {
            let size = size_announced_for(confirmed, processed[i].hash.as_str());
            if too_large || size > u64::MAX - sum {
                too_large = true;
            } else {
                sum = sum + size;
            }
        }
        i += 1;
    }
    assert(processed@.take(processed@.len() as int) =~= processed@);
    if too_large {
        None
    } else {
        Some(sum)
    }
}

/// A stored file is accepted exactly where it has between one byte and two mebibytes, and differs from what
/// was announced by a hundredth of that at most.
pub proof fn law_sizes_within_one_percent(actual: i64, announced: i64)
    requires
        0 <= announced,
    ensures
        is_size_acceptable(actual, announced) <==> 1 <= actual <= 2_097_152 && -announced <= 100 * (
        actual - announced) <= announced,
{
}

/// A file of a batch is checked exactly where the client named its hash and its name is allowed.
pub proof fn law_named_files_are_checked(
    batch: Seq<MediaMissingFile>,
    hashes: Seq<String>,
    file: MediaMissingFile,
)
    ensures
        batch.filter(|f: MediaMissingFile| is_confirmed(f, hashes)).contains(file)
            <==> batch.contains(file) && (exists|i: int|
            0 <= i < hashes.len() && (#[trigger] hashes[i])@ == file.hash@)
            && files::is_allowed_name(file.filename@),
{
    let chosen = |f: MediaMissingFile| is_confirmed(f, hashes);
    let named = text::texts(hashes);
    if named.contains(file.hash@) {
        let i = choose|i: int| 0 <= i < named.len() && named[i] == file.hash@;
        assert(hashes[i]@ == file.hash@);
    }
    if exists|i: int| 0 <= i < hashes.len() && (#[trigger] hashes[i])@ == file.hash@ {
        let i = choose|i: int| 0 <= i < hashes.len() && (#[trigger] hashes[i])@ == file.hash@;
        assert(named[i] == file.hash@);
    }
    if batch.filter(chosen).contains(file) {
        batch.lemma_filter_contains_rev(chosen, file);
        let k = choose|k: int| 0 <= k < batch.filter(chosen).len() && batch.filter(chosen)[k] == file;
        batch.lemma_filter_pred(chosen, k);
    }
    if batch.contains(file) && chosen(file) {
        let k = choose|k: int| 0 <= k < batch.len() && batch[k] == file;
        batch.lemma_filter_contains(chosen, k);
    }
}

/// Why a file was not accepted: the first of the checks that it did not pass says so, with the reason that
/// was given.
pub proof fn law_rejections_are_explained(c: Confirmation, k: int)
    requires
        c.wf(),
        0 <= k < c.processed@.len(),
    ensures
        ({
            let p = c.processed@[k];
            let a = c.answers@[k];
            let said = outside::option_text(p.error);
            let fits = c.valid_notes@.contains(c.files@[k].note_id) && is_size_acceptable(
                a.size(),
                c.files@[k].file_size,
            );
            &&& p.hash@ == c.files@[k].hash@
            &&& a.head matches Some(Err(e)) ==> said == Some("File not found: "@ + e) && p.media_id
                == 0
            &&& (a.head matches Some(Ok(_))) && !fits ==> said == Some("Invalid file"@)
                && p.media_id == 0
            &&& (a.head matches Some(Ok(_))) && fits ==> {
                &&& a.content matches Some(Err(e)) ==> said == Some(
                    "Error retrieving file: "@ + e,
                ) && p.media_id == 0
                &&& a.content == Some(Ok::<bool, Seq<char>>(false)) ==> said == Some(
                    "Invalid file"@,
                ) && p.media_id == 0
                &&& a.content == Some(Ok::<bool, Seq<char>>(true)) ==> {
                    &&& a.stored matches Some(Err(e)) ==> said == Some(
                        "Error inserting media file: "@ + e,
                    ) && p.media_id == 0
                    &&& a.stored matches Some(Ok(id)) ==> p.media_id == id && (
                    a.referred matches Some(Err(e)) ==> said == Some(
                        "Error creating reference: "@ + e,
                    ))
                }
            }
        }),
{
    assert(is_settled(c.processed@[k], c.files@[k], c.valid_notes@, c.answers@[k]));
}

/// The announced size of a hash is that of the first file that has it, and zero where none has.
pub proof fn law_the_first_file_of_a_hash_counts(
    list: Seq<MediaMissingFile>,
    hash: Seq<char>,
    i: int,
)
    ensures
        0 <= i < list.len() && list[i].hash@ == hash && list[i].file_size >= 0 && (forall|j: int|
            0 <= j < i ==> (#[trigger] list[j]).hash@ != hash) ==> announced_size(list, hash)
            == list[i].file_size,
        (forall|j: int| 0 <= j < list.len() ==> (#[trigger] list[j]).hash@ != hash)
            ==> announced_size(list, hash) == 0,
    decreases list.len(),
{
    if list.len() > 0 {
        let rest = list.skip(1);
        law_the_first_file_of_a_hash_counts(rest, hash, i - 1);
        if 0 < i < list.len() && list[i].hash@ == hash && (forall|j: int|
            0 <= j < i ==> (#[trigger] list[j]).hash@ != hash) {
            assert(list[0].hash@ != hash);
            assert(rest[i - 1] == list[i]);
            assert forall|j: int| 0 <= j < i - 1 implies (#[trigger] rest[j]).hash@ != hash by {
                assert(rest[j] == list[j + 1]);
            }
        }
        if forall|j: int| 0 <= j < list.len() ==> (#[trigger] list[j]).hash@ != hash {
            assert(list[0].hash@ != hash);
            assert forall|j: int| 0 <= j < rest.len() implies (#[trigger] rest[j]).hash@ != hash by {
                assert(rest[j] == list[j + 1]);
            }
        }
    }
}

/// What was stored is counted file by file: each accepted file adds the announced size of its hash, and any
/// other one adds nothing.
pub proof fn law_accepted_bytes_add_up(
    processed: Seq<MediaProcessedFile>,
    list: Seq<MediaMissingFile>,
    i: int,
)
    requires
        0 <= i < processed.len(),
    ensures
        accepted_bytes(processed, list) == accepted_bytes(processed.take(i), list) + (
        if processed[i].success {
            announced_size(list, processed[i].hash@)
        } else {
            0
        }) + accepted_bytes(processed.skip(i + 1), list),
        accepted_bytes(Seq::empty(), list) == 0,
    decreases processed.len(),
{
    let shorter = processed.drop_last();
    if i == processed.len() - 1 {
        assert(processed.take(i) =~= shorter);
        assert(processed.skip(i + 1) =~= Seq::<MediaProcessedFile>::empty());
    } else {
        law_accepted_bytes_add_up(shorter, list, i);
        assert(shorter.take(i) =~= processed.take(i));
        assert(processed.skip(i + 1).drop_last() =~= shorter.skip(i + 1));
        assert(processed.skip(i + 1).last() == processed.last());
    }
}

/// Only a batch that is not there is answered as not found; every other failure is one of the server.
pub proof fn law_failed_confirmations_are_no_successes(failure: ConfirmFailure)
    ensures
        confirm_failure(failure).0 == 404 <==> failure == ConfirmFailure::BatchMissing,
        confirm_failure(failure).0 == 500 <==> failure != ConfirmFailure::BatchMissing,
{
}

/// There is a place for each file of a list exactly where there is one for each of its first part and of
/// the rest; for a single file, where its hash has two first bytes; and for no files there always is.
pub proof fn law_each_confirmed_file_needs_a_place(
    first: Seq<MediaMissingFile>,
    rest: Seq<MediaMissingFile>,
)
    ensures
        all_have_keys(first + rest) <==> all_have_keys(first) && all_have_keys(rest),
        first.len() == 1 ==> (all_have_keys(first) <==> files::has_prefix(first[0].hash@)),
        first.len() == 0 ==> all_have_keys(first),
{
    if all_have_keys(first + rest) {
        assert forall|i: int| 0 <= i < first.len() implies files::has_prefix(
            (#[trigger] first[i]).hash@,
        ) by {
            assert((first + rest)[i] == first[i]);
        }
        assert forall|i: int| 0 <= i < rest.len() implies files::has_prefix(
            (#[trigger] rest[i]).hash@,
        ) by {
            assert((first + rest)[first.len() + i] == rest[i]);
        }
    }
}

} // verus!
