use ankicollab::auth::{
    auth_failure_text, generate_secure_token, generate_tokens, get_user_from_token, hash_token,
    is_authenticated, issue_tokens, logged_in, login, normalized_username, password_verdict,
    refresh_token, remove_token, token_to_look_up, verify_password, AuthFailure, Login,
    TokenRecord, UserRow,
};
use ankicollab::changelog::insert_new_changelog;
use ankicollab::clock::Timestamp;
use ankicollab::reply::Reply;
use ankicollab::server::{
    cached_answer, cached_file_name, changelog_permission, check_deck_alive, check_user_token,
    compress_data, decompress_data, get_large_decks, is_first_pull, large_decks, may_overwrite,
    post_data, process_card, publisher, removed_token, request_removal, status_message,
    submit_changelog, upload_deck_stats, CreateOutcome, DeckSize, SuggestOutcome,
};
use ankicollab::stats::{check_deck_count, shared_stats, stats_row};
use ankicollab::structs::{DeckReview, NoteReview, NoteStatsInfo, StatsInfo};
use std::collections::HashMap;

const NOW: Timestamp = Timestamp { secs: 1_000_000, nanos: 5 };

#[test]
fn digests_of_tokens() {
    let digest = hash_token("abc");
    assert_eq!(digest.len(), 32);
    assert_eq!(
        digest,
        [
            0xba, 0x78, 0x16, 0xbf, 0x8f, 0x01, 0xcf, 0xea, 0x41, 0x41, 0x40, 0xde, 0x5d, 0xae,
            0x22, 0x23, 0xb0, 0x03, 0x61, 0xa3, 0x96, 0x17, 0x7a, 0x9c, 0xb4, 0x10, 0xff, 0x61,
            0xf2, 0x00, 0x15, 0xad
        ]
    );
    assert_eq!(token_to_look_up("abc"), Ok(digest));
    assert_eq!(token_to_look_up(""), Err("Token not provided".to_string()));
}

#[test]
fn tokens_are_left_to_chance() {
    let token = generate_secure_token(48);
    assert_eq!(token.len(), 48);
    assert!(token.chars().all(|c| c.is_ascii_alphanumeric()));
    assert_ne!(token, generate_secure_token(48));
    assert_eq!(generate_secure_token(0), "");
}

#[test]
fn issued_tokens_are_found() {
    let issued = issue_tokens(7, "access".to_string(), "refresh".to_string(), NOW);
    assert_eq!(issued.response.token, "access");
    assert_eq!(issued.response.refresh_token, "refresh");
    assert_eq!(issued.response.expires_at, Timestamp { secs: 1_000_000 + 2_592_000, nanos: 5 });
    assert_eq!(issued.record.token_hash, hash_token("access"));
    assert_eq!(issued.record.refresh_token_hash, hash_token("refresh"));
    assert_eq!(
        issued.record.refresh_expires_at,
        Timestamp { secs: 1_000_000 + 7_776_000, nanos: 5 }
    );
    assert_eq!((issued.record.user_id, issued.response.user_id), (7, 7));
    let chance = generate_tokens(7, NOW);
    assert_eq!(chance.response.token.len(), 48);
    assert_eq!(chance.response.refresh_token.len(), 64);
    assert_eq!(chance.record.token_hash, hash_token(&chance.response.token));
}

#[test]
fn a_user_has_one_record_of_tokens() {
    let mut table: HashMap<i32, TokenRecord> = HashMap::new();
    let holder = |table: &HashMap<i32, TokenRecord>, token: &str| {
        let hash = token_to_look_up(token)?;
        get_user_from_token(table.values().find(|r| r.token_hash == hash).map(|r| r.user_id))
    };
    let renewed = |table: &HashMap<i32, TokenRecord>, token: &str| {
        let hash = hash_token(token);
        let found = table.values().find(|r| r.refresh_token_hash == hash);
        refresh_token(found.map(|r| r.user_id))
    };
    let first = issue_tokens(7, "a1".to_string(), "r1".to_string(), NOW);
    table.insert(first.record.user_id, first.record);
    assert_eq!(holder(&table, "a1"), Ok(7));
    assert_eq!(renewed(&table, "r1"), Ok(7));
    let second = issue_tokens(7, "a2".to_string(), "r2".to_string(), NOW);
    table.insert(second.record.user_id, second.record);
    assert_eq!(holder(&table, "a2"), Ok(7));
    assert_eq!(holder(&table, "a1"), Err("Token not found or expired".to_string()));
    assert_eq!(renewed(&table, "r1"), Err("Invalid or expired refresh token".to_string()));
    assert_eq!(renewed(&table, "r2"), Ok(7));
    assert_eq!(holder(&table, ""), Err("Token not provided".to_string()));
}

fn encoded(password: &str) -> String {
    let config = argon2::Config::default();
    argon2::hash_encoded(password.as_bytes(), b"some salt bytes", &config).unwrap()
}

#[test]
fn passwords_are_checked() {
    let hash = encoded("secret");
    assert_eq!(verify_password("secret", &hash), Ok(true));
    assert_eq!(verify_password("Secret", &hash), Ok(false));
    let reason = verify_password("secret", "no hash").unwrap_err();
    assert!(reason.starts_with("Password verification error: "));
    assert_eq!(
        password_verdict(Err("why".to_string())),
        Err("Password verification error: why".to_string())
    );
}

#[test]
fn users_log_in() {
    let form = |password: &str| Login {
        username: "Name".to_string(),
        password: password.to_string(),
    };
    let user = || Some(UserRow { id: 3, password_hash: encoded("secret") });
    let refused = Err("Invalid username or password".to_string());
    assert_eq!(login(&form("secret"), user()), Ok(3));
    assert_eq!(login(&form("wrong"), user()), refused);
    assert_eq!(login(&form("secret"), None), refused);
    assert_eq!(logged_in(3, Ok(true)), Ok(3));
    assert_eq!(logged_in(3, Ok(false)), refused);
    assert_eq!(logged_in(3, Err("why".to_string())), Err("why".to_string()));
    assert_eq!(normalized_username("NAMÉ"), "namé");
}

#[test]
fn answers_about_tokens() {
    assert_eq!(refresh_token(Some(1)), Ok(1));
    assert_eq!(refresh_token(None), Err("Invalid or expired refresh token".to_string()));
    assert_eq!(get_user_from_token(Some(1)), Ok(1));
    assert_eq!(get_user_from_token(None), Err("Token not found or expired".to_string()));
    assert_eq!(remove_token(0), "Token not found");
    assert_eq!(remove_token(1), "Token successfully removed");
    assert!(is_authenticated(Some(1)));
    assert!(!is_authenticated(Some(0)));
    assert!(!is_authenticated(None));
    assert_eq!(auth_failure_text(&AuthFailure::Connection), "Internal Error");
    assert_eq!(
        auth_failure_text(&AuthFailure::Database { reason: "x".to_string() }),
        "Database error: x"
    );
    assert_eq!(
        auth_failure_text(&AuthFailure::Tokens { reason: "x".to_string() }),
        "Error generating tokens: x"
    );
    assert_eq!(removed_token(Some("said".to_string())), Reply::new(200, "said"));
    assert_eq!(removed_token(None), Reply::new(500, "Error"));
    assert_eq!(check_user_token(Some(2)), Reply::new(200, "true"));
    assert_eq!(check_user_token(Some(0)), Reply::new(200, "false"));
    assert_eq!(check_user_token(None), Reply::new(200, "false"));
}

#[test]
fn what_is_compressed_can_be_read_again() {
    let text = "[{\"deck\": \"Grüße\"}]";
    let body = compress_data(text.as_bytes());
    assert_ne!(body, text);
    assert!(body.starts_with("H4sI"));
    assert_eq!(decompress_data(&body), Some(text.to_string()));
    assert_eq!(decompress_data(&compress_data(b"")), Some(String::new()));
    assert_eq!(decompress_data(&compress_data(&[0xff])), None);
    assert_eq!(decompress_data("not base64!"), None);
    assert_eq!(decompress_data("AAAA"), None);
}

#[test]
fn decks_that_are_kept_ready() {
    assert!(is_first_pull("2022-12-31 23:59:59"));
    assert!(!is_first_pull("2023-01-01 00:00:00"));
    assert_eq!(cached_file_name("hash"), "hash.json");
    assert_eq!(cached_answer("[{}]"), Some("{}".to_string()));
    assert_eq!(cached_answer("[]"), Some(String::new()));
    assert_eq!(cached_answer("["), None);
    assert_eq!(cached_answer(""), None);
}

#[test]
fn answers_to_new_decks() {
    let text = |s: &str| s.to_string();
    assert_eq!(status_message(true, "x"), r#"{ "status": 1, "message": "x" }"#);
    assert_eq!(post_data(&CreateOutcome::Unreadable), Reply::new(400, "Invalid data"));
    assert_eq!(
        post_data(&CreateOutcome::UnknownUser),
        Reply::new(200, r#"{ "status": 0, "message": "Unknown username" }"#)
    );
    assert_eq!(
        post_data(&CreateOutcome::CommitFailed { reason: text("r") }),
        Reply::new(200, r#"{ "status": 0, "message": "r" }"#)
    );
    assert_eq!(
        post_data(&CreateOutcome::NoConnection),
        Reply::new(
            200,
            r#"{ "status": 0, "message": "Server Error. Please notify us! (752)" }"#
        )
    );
    assert_eq!(
        post_data(&CreateOutcome::Refused { reason: text("r") }),
        Reply::new(200, r#"{ "status": 0, "message": "r" }"#)
    );
    assert_eq!(
        post_data(&CreateOutcome::Accepted { human_hash: text("h") }),
        Reply::new(200, r#"{ "status": 1, "message": "h" }"#)
    );
    assert_eq!(publisher(Some(0)), None);
    assert_eq!(publisher(Some(4)), Some(4));
    assert_eq!(publisher(None), None);
}

#[test]
fn answers_to_suggestions() {
    let text = |s: &str| s.to_string();
    assert_eq!(process_card(&SuggestOutcome::Unreadable), Reply::new(400, "Invalid data"));
    assert_eq!(
        process_card(&SuggestOutcome::UnreadableDeck),
        Reply::new(400, "Invalid deck data")
    );
    assert_eq!(
        process_card(&SuggestOutcome::Failed { reason: text("r") }),
        Reply::new(500, "Error occurred: r")
    );
    assert_eq!(
        process_card(&SuggestOutcome::NoConnection),
        Reply::new(
            500,
            r#"{ "status": 0, "message": "Server Error. Please notify us! (752)" }"#
        )
    );
    assert_eq!(
        process_card(&SuggestOutcome::NotetypeRefused { reason: text("r") }),
        Reply::new(500, "Notetype Error: r")
    );
    assert_eq!(process_card(&SuggestOutcome::Accepted), Reply::new(200, "Success"));
    assert!(may_overwrite(Some(true), true));
    assert!(!may_overwrite(Some(true), false));
    assert!(!may_overwrite(Some(false), true));
    assert!(!may_overwrite(None, true));
    assert_eq!(request_removal(None), Reply::new(200, "Success"));
    assert_eq!(request_removal(Some("r")), Reply::new(500, "Error occurred: r"));
}

#[test]
fn answers_about_decks() {
    let list = vec!["a".to_string(), "b\"c".to_string()];
    assert_eq!(check_deck_alive(Some(&list)), Reply::new(200, r#"["a","b\"c"]"#));
    assert_eq!(check_deck_alive(None), Reply::new(500, "Error"));
    let size = |human_hash: &str, notes: i64| DeckSize { human_hash: human_hash.to_string(), notes };
    let sizes = vec![size("small", 5000), size("large", 5001), size("huge", 99_999)];
    assert_eq!(large_decks(&sizes), vec!["large".to_string(), "huge".to_string()]);
    assert_eq!(get_large_decks(Some(&sizes)), Reply::new(200, r#"["large","huge"]"#));
    assert_eq!(get_large_decks(Some(&Vec::new())), Reply::new(200, "[]"));
    assert_eq!(get_large_decks(None), Reply::new(500, "[]"));
}

#[test]
fn answers_to_changelogs() {
    assert_eq!(changelog_permission(Some(true)), Ok(()));
    let refused = Reply::new(401, "You are not authorized to add a changelog message to this deck");
    assert_eq!(changelog_permission(Some(false)), Err(refused));
    assert!(changelog_permission(None).is_err());
    assert_eq!(submit_changelog(None), Reply::new(200, "Changelog published successfully!"));
    assert_eq!(
        submit_changelog(Some("r")),
        Reply::new(500, "An error occurred while publishing the changelog: r")
    );
    assert_eq!(insert_new_changelog("a<script>b</script>"), "a");
}

#[test]
fn statistics_are_shared() {
    let stats = |n: i32| NoteStatsInfo { retention: n, reps: n + 1, lapses: n + 2 };
    let review = |guid: &str, n: i32| NoteReview { guid: guid.to_string(), stats: stats(n) };
    let info = StatsInfo {
        user_hash: "u".to_string(),
        deck_hash: "d".to_string(),
        review_history: vec![
            DeckReview { deck_name: "x".to_string(), notes: vec![review("a", 1), review("b", 2)] },
            DeckReview { deck_name: "y".to_string(), notes: Vec::new() },
            DeckReview { deck_name: "z".to_string(), notes: vec![review("a", 3)] },
        ],
    };
    let shared = shared_stats(&info);
    let guids: Vec<&str> = shared.iter().map(|s| s.guid.as_str()).collect();
    assert_eq!(guids, ["a", "b", "a"]);
    assert_eq!(shared[2].stats, stats(3));
    let row = stats_row("u", &vec![44], stats(1)).unwrap();
    assert_eq!((row.note_id, row.retention, row.lapses, row.reps), (44, 1, 3, 2));
    assert_eq!(row.user_hash, "u");
    assert_eq!(stats_row("u", &Vec::new(), stats(1)), None);
    assert_eq!(stats_row("u", &vec![1, 2], stats(1)), None);
    assert_eq!(check_deck_count("h", 1), Ok(()));
    assert_eq!(
        check_deck_count("h", 0),
        Err("Expected one deck with hash h, found 0".to_string())
    );
    assert_eq!(
        check_deck_count("h", 12),
        Err("Expected one deck with hash h, found 12".to_string())
    );
    assert_eq!(upload_deck_stats(true), Reply::new(200, "Thanks for sharing!"));
    assert_eq!(upload_deck_stats(false), Reply::new(400, "Invalid data"));
}
