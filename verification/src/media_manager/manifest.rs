//! The addresses from which the media files of a deck can be downloaded.
use vstd::prelude::*;

use crate::clock::Timestamp;
use crate::media_manager::files;
use crate::outside;
use crate::reply::{Reply, BAD_REQUEST, INTERNAL_SERVER_ERROR, TOO_MANY_REQUESTS, UNAUTHORIZED};
use crate::structs::{MediaDownloadItem, MediaManifestRequest, MediaManifestResponse};
use crate::text;

verus! {

/// The minutes for which an address is good.
pub const PRESIGNED_URL_EXPIRATION: u64 = 15;

/// The most files that one request asks for.
pub const MAX_MANIFEST_FILES: usize = 500;

/// A request by nobody, for no files or for too many is refused. `user` is what is known of the
/// sender's token: nothing where it could not be looked up, zero where it is nobody's.
pub fn check_manifest_request(user: Option<i32>, req: &MediaManifestRequest) -> (r: Result<
    i32,
    Reply,
>)
    ensures
        match r {
            Ok(id) => user == Some(id) && id != 0 && 0 < req.filenames@.len() <= 500,
            Err(e) => match user {
                None => e.says(UNAUTHORIZED, "Error authenticating user (1)"@),
                Some(id) => if id == 0 {
                    e.says(UNAUTHORIZED, "Error authenticating user (2)"@)
                } else if req.filenames@.len() == 0 {
                    e.says(BAD_REQUEST, "No filenames provided"@)
                } else {
                    req.filenames@.len() > 500 && e.says(
                        TOO_MANY_REQUESTS,
                        "Too many files requested."@,
                    )
                },
            },
        },
{
    match user {
        None => Err(Reply::new(UNAUTHORIZED, "Error authenticating user (1)")),
        Some(id) => {
            if id == 0 {
                return Err(Reply::new(UNAUTHORIZED, "Error authenticating user (2)"));
            }
            if req.filenames.len() == 0 {
                return Err(Reply::new(BAD_REQUEST, "No filenames provided"));
            }
            if req.filenames.len() > MAX_MANIFEST_FILES {
                return Err(Reply::new(TOO_MANY_REQUESTS, "Too many files requested."));
            }
            Ok(id)
        },
    }
}

/// What can fail on the way to the addresses.
#[derive(Clone, Copy, Debug, PartialEq, Eq, Structural)]
pub enum ManifestFailure {
    /// The database could not be reached or asked.
    Database,
    /// The sender has reached a limit.
    Limit,
    /// An address could not be had.
    Link,
}

/// The status and the text with which a failure is answered.
pub open spec fn manifest_failure(failure: ManifestFailure) -> (u16, Seq<char>) {
    match failure {
        ManifestFailure::Database => (INTERNAL_SERVER_ERROR, "Internal error"@),
        ManifestFailure::Limit => (
            TOO_MANY_REQUESTS,
            "Download limit exceeded. Please try again tomorrow."@,
        ),
        ManifestFailure::Link => (INTERNAL_SERVER_ERROR, "Error generating download link"@),
    }
}

/// The answer to a failure.
pub fn manifest_failure_reply(failure: ManifestFailure) -> (r: Reply)
    ensures
        r.says(manifest_failure(failure).0, manifest_failure(failure).1),
{
    match failure {
        ManifestFailure::Database => Reply::new(INTERNAL_SERVER_ERROR, "Internal error"),
        ManifestFailure::Limit => Reply::new(
            TOO_MANY_REQUESTS,
            "Download limit exceeded. Please try again tomorrow.",
        ),
        ManifestFailure::Link => Reply::new(
            INTERNAL_SERVER_ERROR,
            "Error generating download link",
        ),
    }
}

/// A stored file, and the name that a note has for it.
#[derive(Debug, PartialEq)]
pub struct NamedMedia {
    pub hash: String,
    pub filename: String,
}

/// There is a place for each of the files.
pub open spec fn media_have_keys(rows: Seq<NamedMedia>) -> bool {
    forall|i: int| 0 <= i < rows.len() ==> files::has_prefix((#[trigger] rows[i]).hash@)
}

/// Whether there is a place for each of the files.
pub fn keys_exist(rows: &Vec<NamedMedia>) -> (r: bool)
    ensures
        r == media_have_keys(rows@),
{
    let mut i: usize = 0;
    while i < rows.len()
        invariant
            i <= rows@.len(),
            forall|j: int| 0 <= j < i ==> files::has_prefix((#[trigger] rows@[j]).hash@),
        decreases rows@.len() - i,
    {
        if !files::has_key(rows[i].hash.as_str()) {
            return false;
        }
        i += 1;
    }
    true
}

/// Where the files are stored.
pub fn manifest_keys(rows: &Vec<NamedMedia>) -> (r: Vec<String>)
    requires
        media_have_keys(rows@),
    ensures
        text::texts(r@) == rows@.map_values(|m: NamedMedia| files::object_key(m.hash@)),
{
    let mut out: Vec<String> = Vec::new();
    let mut i: usize = 0;
    while i < rows.len()
        invariant
            i <= rows@.len(),
            media_have_keys(rows@),
            text::texts(out@) == rows@.take(i as int).map_values(
                |m: NamedMedia| files::object_key(m.hash@),
            ),
        decreases rows@.len() - i,
    {
        let key = files::s3_key(rows[i].hash.as_str());
        let ghost before = out@;
        out.push(key);
        assert(text::texts(out@) =~= text::texts(before).push(key@));
        assert(text::texts(out@) =~= rows@.take(i + 1).map_values(
            |m: NamedMedia| files::object_key(m.hash@),
        ));
        i += 1;
    }
    assert(rows@.take(rows@.len() as int) =~= rows@);
    out
}

/// Until when an address that is given out at `now` is good, as RFC 3339 writes it; nothing where
/// the calendar does not reach that moment.
pub fn expiry_text(now: Timestamp) -> (r: Option<String>)
    requires
        now.secs + 900 <= i64::MAX,
    ensures
        outside::option_text(r) == outside::rfc3339_text(now.secs + 900, now.nanos as nat),
{
    let expires_at = now.plus_minutes(PRESIGNED_URL_EXPIRATION as i64);
    outside::rfc3339(expires_at.secs, expires_at.nanos)
}

/// The addresses of the files under their names. The addresses are in the order of the files.
pub fn manifest_response(
    rows: &Vec<NamedMedia>,
    urls: &Vec<String>,
    expires_at: String,
) -> (r: MediaManifestResponse)
    requires
        rows@.len() == urls@.len(),
    ensures
        r.files@.len() == rows@.len(),
        forall|i: int| #![trigger r.files@[i]]
            0 <= i < rows@.len() ==> r.files@[i].filename@ == rows@[i].filename@
                && r.files@[i].download_url@ == urls@[i]@,
        r.file_count == (rows@.len() as u32) as i32,
        r.expires_at == expires_at,
{
    let mut entries: Vec<MediaDownloadItem> = Vec::new();
    let total = rows.len();
    let mut i: usize = 0;
    while i < total
        invariant
            total == rows@.len(),
            rows@.len() == urls@.len(),
            i <= total,
            entries@.len() == i,
            forall|j: int| #![trigger entries@[j]]
                0 <= j < i ==> entries@[j].filename@ == rows@[j].filename@
                    && entries@[j].download_url@ == urls@[j]@,
        decreases total - i,
    {
        entries.push(
            MediaDownloadItem {
                filename: rows[i].filename.clone(),
                download_url: urls[i].clone(),
            },
        );
        i += 1;
    }
    let count: u32 = total as u32;
    MediaManifestResponse { files: entries, file_count: count as i32, expires_at }
}

/// Only a limit that has been reached is answered as such; every other failure is one of the server.
pub proof fn law_failed_manifests_are_no_successes(failure: ManifestFailure)
    ensures
        manifest_failure(failure).0 == 429 <==> failure == ManifestFailure::Limit,
        manifest_failure(failure).0 == 500 <==> failure != ManifestFailure::Limit,
{
}

/// There is a place for each file of a list exactly where there is one for each of its first part and of
/// the rest; for a single file, where its hash has two first bytes; and for no files there always is.
pub proof fn law_each_file_needs_a_place(first: Seq<NamedMedia>, rest: Seq<NamedMedia>)
    ensures
        media_have_keys(first + rest) <==> media_have_keys(first) && media_have_keys(rest),
        first.len() == 1 ==> (media_have_keys(first) <==> files::has_prefix(first[0].hash@)),
        first.len() == 0 ==> media_have_keys(first),
{
    if media_have_keys(first + rest) {
        assert forall|i: int| 0 <= i < first.len() implies files::has_prefix(
            (#[trigger] first[i]).hash@,
        ) by {
            assert((first + rest)[i] == first[i]);
        }
        assert forall|i: int| 0 <= i < rest.len() implies files::has_prefix(
            (#[trigger] rest[i]).hash@,
        ) by {
            assert((first + rest)[first.len() + i] == rest[i]);
        }
    }
}

} // verus!
