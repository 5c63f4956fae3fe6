use ankicollab::clock::Timestamp;
use ankicollab::media_logger::{log_media_operation, MediaOperationType};
use ankicollab::media_manager::check::{
    check_bulk_request, check_failure_reply, content_md5_of, new_batch_id, split_by_name,
    BulkCheck, CheckFailure, MediaReference,
};
use ankicollab::media_manager::cleanup;
use ankicollab::media_manager::cleanup::{
    cleanup_failure_reply, next_page, plan_expired_batch, BatchDeletion, BatchMedia,
    CleanupFailure, Deletion, OrphanRemoval, OrphanScan, StorePage,
};
use ankicollab::media_manager::confirm::{
    batch_id_or_refusal, bytes_stored, check_confirm_request, confirm_failure_reply, have_keys,
    keys_of, note_ids_of, parse_batch_id, plan_confirmation, size_acceptable, ConfirmFailure,
    ConfirmStep, Confirmation,
};
use ankicollab::media_manager::files::s3_key;
use ankicollab::media_manager::manifest::{
    check_manifest_request, expiry_text, manifest_failure_reply, manifest_keys, manifest_response,
    ManifestFailure, NamedMedia,
};
use ankicollab::reply::Reply;
use ankicollab::structs::{
    MediaBulkCheckRequest, MediaBulkConfirmRequest, MediaFileInfo, MediaManifestRequest,
    MediaMissingFile, MediaProcessedFile, NamedId,
};

fn info(hash: &str, filename: &str, guid: &str, size: i64) -> MediaFileInfo {
    MediaFileInfo {
        hash: hash.to_string(),
        filename: filename.to_string(),
        note_guid: guid.to_string(),
        file_size: size,
    }
}

fn named(id: i64, name: &str) -> NamedId {
    NamedId { id, name: name.to_string() }
}

fn missing(hash: &str, filename: &str, note_id: i64, size: i64) -> MediaMissingFile {
    MediaMissingFile {
        hash: hash.to_string(),
        filename: filename.to_string(),
        note_id,
        file_size: size,
        presigned_url: Some("url".to_string()),
    }
}

fn check_request(count: usize) -> MediaBulkCheckRequest {
    MediaBulkCheckRequest {
        token: String::new(),
        deck_hash: String::new(),
        files: (0..count).map(|_| info("abc", "a.png", "g", 1)).collect(),
    }
}

#[test]
fn requests_to_check_files() {
    assert_eq!(
        check_bulk_request(None, &check_request(1)),
        Err(Reply::new(500, "Error authenticating user"))
    );
    assert_eq!(
        check_bulk_request(Some(0), &check_request(1)),
        Err(Reply::new(401, "Invalid token"))
    );
    assert_eq!(
        check_bulk_request(Some(1), &check_request(0)),
        Err(Reply::new(400, "No files provided"))
    );
    assert_eq!(
        check_bulk_request(Some(1), &check_request(101)),
        Err(Reply::new(400, "Too many files in single request"))
    );
    assert_eq!(check_bulk_request(Some(7), &check_request(100)), Ok(7));
}

#[test]
fn failures_of_a_check() {
    assert_eq!(
        check_failure_reply(CheckFailure::Database),
        Reply::new(500, "Internal error")
    );
    assert_eq!(
        check_failure_reply(CheckFailure::Metadata),
        Reply::new(500, "Error processing request")
    );
    assert_eq!(
        check_failure_reply(CheckFailure::MetadataStore),
        Reply::new(500, "Error storing upload metadata")
    );
    assert_eq!(
        check_failure_reply(CheckFailure::Limit),
        Reply::new(429, "You reached the upload limit. Please try again tomorrow.")
    );
}

#[test]
fn files_are_told_apart_by_their_names() {
    let list = vec![info("1", "a.exe", "g", 1), info("2", "a.png", "g", 1)];
    let files = split_by_name(&list);
    assert_eq!(files.valid, vec![info("2", "a.png", "g", 1)]);
    assert_eq!(files.invalid, vec![info("1", "a.exe", "g", 1)]);
}

const MD5_OF_NOTHING: &str = "d41d8cd98f00b204e9800998ecf8427e";

#[test]
fn digests_for_uploads() {
    assert_eq!(content_md5_of(MD5_OF_NOTHING), "1B2M2Y8AsgTpgAmY7PhCfg==");
    assert_eq!(content_md5_of("D41D8CD98F00B204E9800998ECF8427E"), "1B2M2Y8AsgTpgAmY7PhCfg==");
    assert_eq!(content_md5_of("abc"), "");
    assert_eq!(content_md5_of("zz"), "");
}

#[test]
fn a_batch_is_checked() {
    let list = vec![
        info("stored", "one.png", "known", 5),
        info("nonote", "two.png", "unknown", 5),
        info("empty1", "three.png", "known", 0),
        info("large1", "four.png", "known", 2 * 1024 * 1024 + 1),
        info(MD5_OF_NOTHING, "five.JPG", "known", 2 * 1024 * 1024),
        info("failed", "six.svg", "known", 1),
        info("stored", "seven.png", "unknown", 5),
        info("failed", "eight.gif", "unknown", 1),
    ];
    let notes = vec![named(10, "other"), named(11, "known")];
    let media = vec![named(99, "stored")];
    let mut check = BulkCheck::new(list, &notes, &media);
    assert_eq!(
        check.references(),
        vec![MediaReference { media_id: 99, note_id: 11, file_name: "one.png".to_string() }]
    );
    assert!(check.stored_are_listed(&media));
    assert_eq!(check.potential_file_count(), 7);
    assert_eq!(
        check.potential_bytes(),
        Some(5 + 2 * 1024 * 1024 + 1 + 2 * 1024 * 1024 + 1 + 1)
    );
    assert!(check.keys_exist());

    let offer = check.next_offer().unwrap();
    assert_eq!(offer.hash, MD5_OF_NOTHING);
    assert_eq!(offer.filename, "five.JPG");
    assert_eq!(offer.key, format!("d4/{}", MD5_OF_NOTHING));
    assert_eq!(offer.content_length, 2 * 1024 * 1024);
    assert_eq!(offer.content_type, "image/jpeg");
    assert_eq!(offer.content_md5, "1B2M2Y8AsgTpgAmY7PhCfg==");
    check.on_presigned(Some("https://upload".to_string()));

    let offer = check.next_offer().unwrap();
    assert_eq!(offer.filename, "six.svg");
    assert_eq!(offer.content_md5, "");
    check.on_presigned(None);
    assert!(check.next_offer().is_none());

    let batch_id = new_batch_id(&check.missing_files);
    assert!(parse_batch_id(batch_id.as_ref().unwrap()).is_ok());
    let response = check.finish(vec![info("bad", "x.exe", "g", 1)], batch_id.clone());
    assert_eq!(response.batch_id, batch_id);
    assert_eq!(response.existing_files.len(), 2);
    assert_eq!(response.existing_files[0].hash, "stored");
    assert_eq!(response.existing_files[0].media_id, 99);
    assert_eq!(response.missing_files.len(), 1);
    assert_eq!(response.missing_files[0].note_id, 11);
    assert_eq!(response.missing_files[0].presigned_url, Some("https://upload".to_string()));
    let failed: Vec<&str> = response.failed_files.iter().map(|f| f.filename.as_str()).collect();
    assert_eq!(failed, ["x.exe", "two.png", "three.png", "four.png", "six.svg", "eight.gif"]);
}

#[test]
fn sizes_that_do_not_fit() {
    let list = vec![info("aa", "a.png", "g", -1), info("bb", "b.png", "g", 1)];
    let check = BulkCheck::new(list, &Vec::new(), &Vec::new());
    assert_eq!(check.potential_bytes(), None);
    let check = BulkCheck::new(vec![info("aa", "a.png", "g", -1)], &Vec::new(), &Vec::new());
    assert_eq!(check.potential_bytes(), Some(u64::MAX));
}

#[test]
fn rows_that_were_not_asked_for_are_noticed() {
    let media = vec![named(1, "else")];
    let check = BulkCheck::new(vec![info("aa", "a.png", "g", 1)], &Vec::new(), &media);
    assert!(!check.stored_are_listed(&media));
}

#[test]
fn hashes_without_a_place_are_noticed() {
    let notes = vec![named(1, "g")];
    let short = BulkCheck::new(vec![info("a", "a.png", "g", 1)], &notes, &Vec::new());
    assert!(!short.keys_exist());
    let unwanted = BulkCheck::new(vec![info("a", "a.png", "x", 1)], &notes, &Vec::new());
    assert!(unwanted.keys_exist());
}

#[test]
fn the_last_of_several_rows_counts() {
    let notes = vec![named(1, "g"), named(2, "g")];
    let mut check = BulkCheck::new(vec![info("aa", "a.png", "g", 1)], &notes, &Vec::new());
    assert!(check.next_offer().is_some());
    check.on_presigned(Some("u".to_string()));
    assert_eq!(check.missing_files[0].note_id, 2);
}

#[test]
fn no_batch_for_no_files() {
    assert_eq!(new_batch_id(&Vec::new()), None);
    let one = vec![missing("aa", "a.png", 1, 1)];
    assert_ne!(new_batch_id(&one), new_batch_id(&one));
}

#[test]
fn requests_to_confirm_files() {
    let request = |count: usize| MediaBulkConfirmRequest {
        batch_id: String::new(),
        confirmed_files: vec!["a".to_string(); count],
    };
    assert_eq!(check_confirm_request(&request(0)), Err(Reply::new(400, "Invalid Format")));
    assert_eq!(check_confirm_request(&request(101)), Err(Reply::new(400, "Invalid Format")));
    assert_eq!(check_confirm_request(&request(1)), Ok(()));
    assert_eq!(check_confirm_request(&request(100)), Ok(()));
}

#[test]
fn numbers_of_batches() {
    assert_eq!(parse_batch_id("00000000-0000-0000-0000-0000000000ff"), Ok(255));
    assert_eq!(parse_batch_id("no batch"), Err(Reply::new(400, "Invalid batch ID")));
    assert_eq!(batch_id_or_refusal(Ok(3)), Ok(3));
    assert_eq!(
        batch_id_or_refusal(Err("why".to_string())),
        Err(Reply::new(400, "Invalid batch ID"))
    );
}

#[test]
fn failures_of_a_confirmation() {
    let said = |f: ConfirmFailure| {
        let reply = confirm_failure_reply(f);
        (reply.status, reply.message)
    };
    assert_eq!(said(ConfirmFailure::Connection), (500, "Internal error".to_string()));
    assert_eq!(
        said(ConfirmFailure::BatchQuery),
        (500, "Error retrieving upload metadata".to_string())
    );
    assert_eq!(said(ConfirmFailure::BatchMissing), (404, "Batch not found or expired".to_string()));
    assert_eq!(
        said(ConfirmFailure::BatchUnreadable),
        (500, "Error parsing upload metadata".to_string())
    );
    assert_eq!(said(ConfirmFailure::Transaction), (500, "Internal error".to_string()));
    assert_eq!(said(ConfirmFailure::NoteQuery), (500, "Internal error".to_string()));
    assert_eq!(said(ConfirmFailure::Stream), (500, "Invalid data".to_string()));
    assert_eq!(said(ConfirmFailure::Commit), (500, "Internal error".to_string()));
}

#[test]
fn confirmed_files_are_told_apart() {
    let batch = vec![
        missing("aa", "a.png", 1, 5),
        missing("bb", "b.png", 2, 5),
        missing("cc", "c.exe", 3, 5),
        missing("dd", "d.exe", 4, 5),
    ];
    let plan = plan_confirmation(&batch, &vec!["cc".to_string(), "aa".to_string()]);
    assert_eq!(plan.confirmed, vec![missing("aa", "a.png", 1, 5)]);
    assert_eq!(
        plan.unconfirmed,
        vec![missing("bb", "b.png", 2, 5), missing("dd", "d.exe", 4, 5)]
    );
    assert_eq!(note_ids_of(&plan.unconfirmed), vec![2, 4]);
    assert!(have_keys(&plan.unconfirmed));
    assert_eq!(keys_of(&plan.unconfirmed), vec!["bb/bb", "dd/dd"]);
    assert!(!have_keys(&vec![missing("a", "a.png", 1, 1)]));
}

#[test]
fn sizes_within_one_percent() {
    assert!(size_acceptable(100, 100));
    assert!(size_acceptable(101, 100));
    assert!(!size_acceptable(102, 100));
    assert!(size_acceptable(99, 100));
    assert!(!size_acceptable(98, 100));
    assert!(!size_acceptable(0, 0));
    assert!(size_acceptable(50, 50));
    assert!(!size_acceptable(51, 50));
    assert!(size_acceptable(2_097_152, 2_097_152));
    assert!(!size_acceptable(2_097_153, 2_097_153));
    assert!(!size_acceptable(1, i64::MAX));
    for announced in 1i64..5000 {
        for actual in [announced - announced / 100, announced + announced / 100, announced + announced / 100 + 1] {
            let by_floats = !(actual as f64 > announced as f64 * 1.01
                || (actual as f64) < announced as f64 * 0.99);
            assert_eq!(size_acceptable(actual, announced), by_floats);
        }
    }
}

fn outcome(hash: &str, media_id: i64, error: Option<&str>) -> MediaProcessedFile {
    MediaProcessedFile {
        hash: hash.to_string(),
        media_id,
        success: error.is_none(),
        error: error.map(|e| e.to_string()),
    }
}

#[test]
fn a_batch_is_confirmed() {
    let files = vec![
        missing("aa1", "a.png", 1, 100),
        missing("bb2", "b.png", 1, 100),
        missing("cc3", "c.png", 2, 100),
        missing("dd4", "d.png", 1, 100),
        missing("ee5", "e.png", 1, 100),
        missing("ff6", "f.png", 1, 100),
        missing("gg7", "g.png", 1, 100),
        missing("hh8", "h.png", 1, 100),
    ];
    let mut c = Confirmation::new(files, vec![1]);

    assert_eq!(c.next_key(), Some("aa/aa1".to_string()));
    assert_eq!(c.on_head(Err("gone".to_string())), ConfirmStep::Settled);

    assert_eq!(c.next_key(), Some("bb/bb2".to_string()));
    assert_eq!(c.on_head(Ok(None)), ConfirmStep::Discard { key: "bb/bb2".to_string() });

    assert_eq!(c.on_head(Ok(Some(100))), ConfirmStep::Discard { key: "cc/cc3".to_string() });

    assert_eq!(c.on_head(Ok(Some(101))), ConfirmStep::Fetch { key: "dd/dd4".to_string() });
    assert_eq!(c.on_content(Err("slow".to_string())), ConfirmStep::Settled);

    assert_eq!(c.on_head(Ok(Some(100))), ConfirmStep::Fetch { key: "ee/ee5".to_string() });
    assert_eq!(c.on_content(Ok(false)), ConfirmStep::Discard { key: "ee/ee5".to_string() });

    assert_eq!(c.on_head(Ok(Some(100))), ConfirmStep::Fetch { key: "ff/ff6".to_string() });
    assert_eq!(c.on_content(Ok(true)), ConfirmStep::Store { size: 100 });
    assert_eq!(c.on_stored(Err("full".to_string())), ConfirmStep::Settled);

    assert_eq!(c.on_head(Ok(Some(99))), ConfirmStep::Fetch { key: "gg/gg7".to_string() });
    assert_eq!(c.on_content(Ok(true)), ConfirmStep::Store { size: 99 });
    assert_eq!(c.on_stored(Ok(70)), ConfirmStep::Refer { media_id: 70 });
    assert_eq!(c.on_referred(Err("no".to_string())), ConfirmStep::Settled);

    assert_eq!(c.on_head(Ok(Some(100))), ConfirmStep::Fetch { key: "hh/hh8".to_string() });
    assert_eq!(c.on_content(Ok(true)), ConfirmStep::Store { size: 100 });
    assert_eq!(c.on_stored(Ok(80)), ConfirmStep::Refer { media_id: 80 });
    assert_eq!(c.on_referred(Ok(())), ConfirmStep::Settled);
    assert_eq!(c.next_key(), None);

    assert_eq!(
        c.processed,
        vec![
            outcome("aa1", 0, Some("File not found: gone")),
            outcome("bb2", 0, Some("Invalid file")),
            outcome("cc3", 0, Some("Invalid file")),
            outcome("dd4", 0, Some("Error retrieving file: slow")),
            outcome("ee5", 0, Some("Invalid file")),
            outcome("ff6", 0, Some("Error inserting media file: full")),
            outcome("gg7", 70, Some("Error creating reference: no")),
            outcome("hh8", 80, None),
        ]
    );
    assert_eq!(bytes_stored(&c.processed, &c.files), Some(100));
}

#[test]
fn stored_bytes_are_added_up() {
    let files = vec![
        missing("aa", "a.png", 1, 5),
        missing("aa", "b.png", 1, 7),
        missing("bb", "c.png", 1, -1),
    ];
    let processed = vec![outcome("aa", 1, None), outcome("aa", 1, None), outcome("zz", 2, None)];
    assert_eq!(bytes_stored(&processed, &files), Some(10));
    let too_many = vec![outcome("bb", 1, None), outcome("aa", 1, None)];
    assert_eq!(bytes_stored(&too_many, &files), None);
    let refused = vec![outcome("bb", 0, Some("no"))];
    assert_eq!(bytes_stored(&refused, &files), Some(0));
}

fn texts(list: &[&str]) -> Vec<String> {
    list.iter().map(|s| s.to_string()).collect()
}

#[test]
fn orphans_are_found() {
    let mut scan = OrphanScan::new(&texts(&["abcd", "efgh"]));
    assert!(scan.is_worthwhile(false));
    let keys = ["ab/abcd", "xy/xyz", "nokey", "/xyz", "xy/", "xyz/xyzz", "x/xyz", "xy/abc", "xy/xyz/1"];
    let mut page: Vec<Option<String>> = keys.iter().map(|k| Some(k.to_string())).collect();
    page.push(None);
    scan.scan_page(&page);
    scan.scan_page(&vec![Some("ef/efgi".to_string())]);
    assert_eq!(scan.orphans, texts(&["xy/xyz", "xy/xyz/1", "ef/efgi"]));
    assert_eq!(scan.to_delete(false), texts(&["xy/xyz", "xy/xyz/1", "ef/efgi"]));
}

#[test]
fn nothing_is_deleted_in_a_dry_run() {
    let mut scan = OrphanScan::new(&Vec::new());
    assert!(!scan.is_worthwhile(false));
    assert!(scan.is_worthwhile(true));
    scan.scan_page(&vec![Some("xy/xyz".to_string())]);
    assert_eq!(scan.orphans.len(), 1);
    assert!(scan.to_delete(true).is_empty());
}

#[test]
fn keys_are_judged() {
    let hashes = ["abcd", "üx", "0123456789abcdef"];
    for hash in hashes {
        let mut scan = OrphanScan::new(&texts(&["other"]));
        scan.scan_page(&vec![Some(s3_key(hash))]);
        assert_eq!(scan.orphans, vec![s3_key(hash)]);
        let mut scan = OrphanScan::new(&texts(&[hash]));
        scan.scan_page(&vec![Some(s3_key(hash))]);
        assert!(scan.orphans.is_empty());
    }
}

#[test]
fn pages_follow_each_other() {
    let token = || Some("t".to_string());
    assert_eq!(next_page(Some(true), token()), token());
    assert_eq!(next_page(Some(true), None), None);
    assert_eq!(next_page(Some(false), token()), None);
    assert_eq!(next_page(None, token()), None);
}

#[test]
fn objects_are_deleted_in_batches() {
    let keys: Vec<String> = (0..2001).map(|i| i.to_string()).collect();
    let mut deletion = Deletion::new(keys.clone());
    let mut sent = Vec::new();
    let mut sizes = Vec::new();
    while let Some(batch) = deletion.next_batch() {
        sizes.push(batch.len());
        deletion.on_deleted(Some(BatchDeletion { deleted: Some(batch.len()), errors: false }));
        sent.extend(batch);
    }
    assert_eq!(sizes, [1000, 1000, 1]);
    assert_eq!(sent, keys);
    assert_eq!(deletion.finish(), Ok(2001));
}

#[test]
fn a_deletion_with_errors_fails() {
    let failed = Err(Reply::new(500, "Error during deletion"));
    let mut one = Deletion::new(texts(&["a"]));
    one.on_deleted(Some(BatchDeletion { deleted: Some(1), errors: true }));
    assert_eq!(one.finish(), failed);
    let mut two = Deletion::new(texts(&["a"]));
    two.on_deleted(None);
    assert_eq!(two.finish(), failed);
    let mut three = Deletion::new(texts(&["a"]));
    three.on_deleted(Some(BatchDeletion { deleted: None, errors: false }));
    assert_eq!(three.finish(), Ok(0));
}

#[test]
fn failures_of_a_cleanup() {
    let said = |f: CleanupFailure| cleanup_failure_reply(f).message;
    assert_eq!(said(CleanupFailure::Connection), "Error getting database connection");
    assert_eq!(said(CleanupFailure::Transaction), "Database error");
    assert_eq!(said(CleanupFailure::Query), "Internal error");
    assert_eq!(said(CleanupFailure::Listing), "Internal error");
    assert_eq!(said(CleanupFailure::Commit), "Internal error");
    assert_eq!(cleanup_failure_reply(CleanupFailure::Query).status, 500);
}

#[test]
fn records_go_only_with_their_objects() {
    let rows = vec![named(1, "aaa"), named(2, "bbb")];
    assert!(cleanup::keys_exist(&rows));
    assert!(!cleanup::keys_exist(&vec![named(1, "a")]));
    let mut removal = OrphanRemoval::new(rows);
    assert_eq!(removal.next_key(), Some("aa/aaa".to_string()));
    assert_eq!(removal.on_object_deleted(false), None);
    assert_eq!(removal.next_key(), Some("bb/bbb".to_string()));
    assert_eq!(removal.on_object_deleted(true), Some(2));
    assert_eq!(removal.next_key(), None);
    assert_eq!(removal.removed, vec![2]);
}

#[test]
fn expired_batches_keep_what_is_used() {
    let media = |hash: &str, referenced: bool| BatchMedia { hash: hash.to_string(), referenced };
    let files = vec![
        missing("kept", "a.png", 1, 1),
        missing("never", "b.png", 1, 1),
        missing("loose", "c.png", 1, 1),
        missing("never", "d.png", 1, 1),
    ];
    let rows = vec![media("loose", false), media("kept", true)];
    assert_eq!(plan_expired_batch(&files, &rows), texts(&["loose", "never"]));
    assert!(plan_expired_batch(&Vec::new(), &vec![media("kept", true)]).is_empty());
}

#[test]
fn requests_for_a_manifest() {
    let request = |count: usize| MediaManifestRequest {
        user_token: String::new(),
        deck_hash: String::new(),
        filenames: vec!["a".to_string(); count],
    };
    assert_eq!(
        check_manifest_request(None, &request(1)),
        Err(Reply::new(401, "Error authenticating user (1)"))
    );
    assert_eq!(
        check_manifest_request(Some(0), &request(1)),
        Err(Reply::new(401, "Error authenticating user (2)"))
    );
    assert_eq!(
        check_manifest_request(Some(1), &request(0)),
        Err(Reply::new(400, "No filenames provided"))
    );
    assert_eq!(
        check_manifest_request(Some(1), &request(501)),
        Err(Reply::new(429, "Too many files requested."))
    );
    assert_eq!(check_manifest_request(Some(3), &request(500)), Ok(3));
}

#[test]
fn failures_of_a_manifest() {
    assert_eq!(
        manifest_failure_reply(ManifestFailure::Database),
        Reply::new(500, "Internal error")
    );
    assert_eq!(
        manifest_failure_reply(ManifestFailure::Limit),
        Reply::new(429, "Download limit exceeded. Please try again tomorrow.")
    );
    assert_eq!(
        manifest_failure_reply(ManifestFailure::Link),
        Reply::new(500, "Error generating download link")
    );
}

#[test]
fn a_manifest_is_put_together() {
    let rows = vec![
        NamedMedia { hash: "abc".to_string(), filename: "a.png".to_string() },
        NamedMedia { hash: "def".to_string(), filename: "b.png".to_string() },
    ];
    assert!(ankicollab::media_manager::manifest::keys_exist(&rows));
    assert_eq!(manifest_keys(&rows), texts(&["ab/abc", "de/def"]));
    let response = manifest_response(&rows, &texts(&["u1", "u2"]), "soon".to_string());
    assert_eq!(response.file_count, 2);
    assert_eq!(response.files[1].filename, "b.png");
    assert_eq!(response.files[1].download_url, "u2");
    assert_eq!(response.expires_at, "soon");
}

#[test]
fn addresses_are_good_for_a_quarter_of_an_hour() {
    let now = Timestamp { secs: 86_400, nanos: 0 };
    assert_eq!(expiry_text(now), Some("1970-01-02T00:15:00+00:00".to_string()));
    let far = Timestamp { secs: i64::MAX - 900, nanos: 0 };
    assert_eq!(expiry_text(far), None);
}

#[test]
fn the_log_has_numbers_for_operations() {
    assert_eq!(MediaOperationType::Upload.code(), 1);
    assert_eq!(MediaOperationType::Download.code(), 2);
    let entry = log_media_operation(
        MediaOperationType::Download,
        Some(1),
        "::1".to_string(),
        None,
        Some("a.png".to_string()),
        Some(5),
    );
    assert_eq!(entry.operation, 2);
    assert_eq!(entry.user_id, Some(1));
    assert_eq!(entry.ip_address, "::1");
    assert_eq!(entry.file_hash, None);
    assert_eq!(entry.file_name, Some("a.png".to_string()));
    assert_eq!(entry.file_size, Some(5));
}

#[test]
fn a_store_that_cannot_be_listed_ends_the_search() {
    let mut scan = OrphanScan::new(&vec!["abcd".to_string()]);
    let page = |key: &str, more: bool| {
        Some(StorePage {
            keys: vec![Some(key.to_string()), None],
            is_truncated: Some(more),
            token: Some("next".to_string()),
        })
    };
    assert_eq!(scan.on_page(page("ef/efgh", true)), Ok(Some("next".to_string())));
    assert_eq!(scan.on_page(page("ab/abcd", false)), Ok(None));
    assert_eq!(scan.orphans, ["ef/efgh"]);
    let failed = scan.on_page(None).unwrap_err();
    assert_eq!((failed.status, failed.message.as_str()), (500, "Internal error"));
    assert_eq!(scan.orphans, ["ef/efgh"]);
}
