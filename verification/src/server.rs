//! What the service answers to its clients.
use vstd::prelude::*;
use vstd::utf8::*;

use crate::outside;
use crate::reply::{Reply, BAD_REQUEST, INTERNAL_SERVER_ERROR, OK, UNAUTHORIZED};
use crate::text;

verus! {

/// The date that a client gives that has nothing of a deck yet.
pub const FIRST_PULL: &'static str = "2022-12-31 23:59:59";

/// A deck with more notes than this is kept ready for those who have nothing of it yet.
pub const LARGE_DECK_NOTES: i64 = 5000;

/// The rationale of the commit of a new deck.
pub const NEW_DECK_RATIONALE: i32 = 1;

/// The text that a body of a request stands for: Base64 of a gzip stream of a text. Nothing where
/// it stands for none.
pub open spec fn decompressed(data: Seq<char>) -> Option<Seq<char>> {
    match outside::base64_bytes(data) {
        Some(stream) => outside::gunzipped_text(stream),
        None => None,
    }
}

/// The body of an answer that stands for some bytes.
pub open spec fn compressed(data: Seq<u8>) -> Seq<char> {
    outside::base64_text(outside::gzip_stream(data))
}

/// The text that a body of a request stands for; nothing where it stands for none.
pub fn decompress_data(data: &str) -> (r: Option<String>)
    ensures
        outside::option_text(r) == decompressed(data@),
{
    match outside::base64_decode(data) {
        Some(stream) => outside::gunzip_text(stream.as_slice()),
        None => None,
    }
}

/// The body of an answer that stands for some bytes. Where the bytes are those of a text, it stands
/// for that text.
pub fn compress_data(data: &[u8]) -> (r: String)
    ensures
        r@ == compressed(data@),
        decompressed(r@) == if valid_utf8(data@) {
            Some(decode_utf8(data@))
        } else {
            None
        },
{
    let stream = outside::gzip(data);
    outside::base64_encode(stream.as_slice())
}

/// Whether a client has nothing of a deck yet.
pub fn is_first_pull(timestamp: &str) -> (r: bool)
    ensures
        r == (timestamp@ == FIRST_PULL@),
        r == (timestamp@ == "2022-12-31 23:59:59"@),
{
    text::same_text(timestamp, FIRST_PULL)
}

/// The name of the file in which a deck is kept ready.
pub fn cached_file_name(deck_hash: &str) -> (r: String)
    ensures
        r@ == deck_hash@ + ".json"@,
{
    text::joined(deck_hash, ".json")
}

/// A deck that is kept ready is a list of one answer; the answer is what stands between the
/// brackets. Nothing where there are not even brackets.
pub fn cached_answer(list: &str) -> (r: Option<String>)
    ensures
        match r {
            Some(answer) => list@.len() >= 2 && answer@ == list@.subrange(1, list@.len() - 1),
            None => list@.len() < 2,
        },
{
    let chars = text::chars_of(list);
    if chars.len() < 2 {
        return None;
    }
    Some(text::text_of(&chars, 1, chars.len() - 1))
}

/// A status and a message, as the clients read them.
pub open spec fn status_text(ok: bool, message: Seq<char>) -> Seq<char> {
    if ok {
        "{ \"status\": 1, \"message\": \""@ + message + "\" }"@
    } else {
        "{ \"status\": 0, \"message\": \""@ + message + "\" }"@
    }
}

/// A status and a message, as the clients read them.
pub fn status_message(ok: bool, message: &str) -> (r: String)
    ensures
        r@ == status_text(ok, message@),
{
    let mut out = if ok {
        "{ \"status\": 1, \"message\": \"".to_owned()
    } else {
        "{ \"status\": 0, \"message\": \"".to_owned()
    };
    out.append(message);
    out.append("\" }");
    out
}

/// What can come of a request to publish a deck.
#[derive(Debug, PartialEq)]
pub enum CreateOutcome {
    /// The body is no such request.
    Unreadable,
    /// There is no such user.
    UnknownUser,
    /// The commit could not be stored.
    CommitFailed { reason: String },
    /// There is no connection to the database.
    NoConnection,
    /// There is such a deck already, or it has no valid UUID.
    Refused { reason: String },
    /// The deck is being stored, and will be known by its hash.
    Accepted { human_hash: String },
}

/// The status and the text with which a request to publish a deck is answered.
pub open spec fn create_answer(outcome: CreateOutcome) -> (u16, Seq<char>) {
    match outcome {
        CreateOutcome::Unreadable => (BAD_REQUEST, "Invalid data"@),
        CreateOutcome::UnknownUser => (OK, status_text(false, "Unknown username"@)),
        CreateOutcome::CommitFailed { reason } => (OK, status_text(false, reason@)),
        CreateOutcome::NoConnection => (
            OK,
            status_text(false, "Server Error. Please notify us! (752)"@),
        ),
        CreateOutcome::Refused { reason } => (OK, status_text(false, reason@)),
        CreateOutcome::Accepted { human_hash } => (OK, status_text(true, human_hash@)),
    }
}

/// The answer to a request to publish a deck.
pub fn post_data(outcome: &CreateOutcome) -> (r: Reply)
    ensures
        r.says(create_answer(*outcome).0, create_answer(*outcome).1),
{
    match outcome {
        CreateOutcome::Unreadable => Reply::new(BAD_REQUEST, "Invalid data"),
        CreateOutcome::UnknownUser => Reply {
            status: OK,
            message: status_message(false, "Unknown username"),
        },
        CreateOutcome::CommitFailed { reason } => Reply {
            status: OK,
            message: status_message(false, reason.as_str()),
        },
        CreateOutcome::NoConnection => Reply {
            status: OK,
            message: status_message(false, "Server Error. Please notify us! (752)"),
        },
        CreateOutcome::Refused { reason } => Reply {
            status: OK,
            message: status_message(false, reason.as_str()),
        },
        CreateOutcome::Accepted { human_hash } => Reply {
            status: OK,
            message: status_message(true, human_hash.as_str()),
        },
    }
}

/// The number of the user who publishes a deck, given what is known of the name. A number of zero
/// is nobody's.
pub fn publisher(user_id: Option<i32>) -> (r: Option<i32>)
    ensures
        r == if user_id == Some(0i32) {
            None
        } else {
            user_id
        },
{
    match user_id {
        Some(0) => None,
        _ => user_id,
    }
}

/// What can come of a suggestion.
#[derive(Debug, PartialEq)]
pub enum SuggestOutcome {
    /// The body is no such request.
    Unreadable,
    /// The deck in it cannot be read.
    UnreadableDeck,
    /// A step of it failed.
    Failed { reason: String },
    /// There is no connection to the database.
    NoConnection,
    /// A notetype of it is not permitted.
    NotetypeRefused { reason: String },
    /// It is being stored.
    Accepted,
}

/// The status and the text with which a suggestion is answered.
pub open spec fn suggest_answer(outcome: SuggestOutcome) -> (u16, Seq<char>) {
    match outcome {
        SuggestOutcome::Unreadable => (BAD_REQUEST, "Invalid data"@),
        SuggestOutcome::UnreadableDeck => (BAD_REQUEST, "Invalid deck data"@),
        SuggestOutcome::Failed { reason } => (
            INTERNAL_SERVER_ERROR,
            "Error occurred: "@ + reason@,
        ),
        SuggestOutcome::NoConnection => (
            INTERNAL_SERVER_ERROR,
            status_text(false, "Server Error. Please notify us! (752)"@),
        ),
        SuggestOutcome::NotetypeRefused { reason } => (
            INTERNAL_SERVER_ERROR,
            "Notetype Error: "@ + reason@,
        ),
        SuggestOutcome::Accepted => (OK, "Success"@),
    }
}

/// The answer to a suggestion.
pub fn process_card(outcome: &SuggestOutcome) -> (r: Reply)
    ensures
        r.says(suggest_answer(*outcome).0, suggest_answer(*outcome).1),
{
    match outcome {
        SuggestOutcome::Unreadable => Reply::new(BAD_REQUEST, "Invalid data"),
        SuggestOutcome::UnreadableDeck => Reply::new(BAD_REQUEST, "Invalid deck data"),
        SuggestOutcome::Failed { reason } => Reply {
            status: INTERNAL_SERVER_ERROR,
            message: text::joined("Error occurred: ", reason.as_str()),
        },
        SuggestOutcome::NoConnection => Reply {
            status: INTERNAL_SERVER_ERROR,
            message: status_message(false, "Server Error. Please notify us! (752)"),
        },
        SuggestOutcome::NotetypeRefused { reason } => Reply {
            status: INTERNAL_SERVER_ERROR,
            message: text::joined("Notetype Error: ", reason.as_str()),
        },
        SuggestOutcome::Accepted => Reply::new(OK, "Success"),
    }
}

/// Whether a change is made at once, without review: only who maintains the deck may ask for that.
pub fn may_overwrite(has_access: Option<bool>, requested: bool) -> (r: bool)
    ensures
        r == (has_access == Some(true) && requested),
{
    match has_access {
        Some(true) => requested,
        _ => false,
    }
}

/// The answer to a request to remove notes, which may have failed for a reason.
pub fn request_removal(failure: Option<&str>) -> (r: Reply)
    ensures
        match failure {
            None => r.says(OK, "Success"@),
            Some(reason) => r.says(INTERNAL_SERVER_ERROR, "Error occurred: "@ + reason@),
        },
{
    match failure {
        None => Reply::new(OK, "Success"),
        Some(reason) => Reply {
            status: INTERNAL_SERVER_ERROR,
            message: text::joined("Error occurred: ", reason),
        },
    }
}

/// The answer to the question which decks there are no longer; nothing is known of them where the
/// database could not be asked.
pub fn check_deck_alive(missing: Option<&Vec<String>>) -> (r: Reply)
    ensures
        match missing {
            Some(list) => r.says(OK, outside::json_array(text::texts(list@))),
            None => r.says(INTERNAL_SERVER_ERROR, "Error"@),
        },
{
    match missing {
        Some(list) => Reply { status: OK, message: outside::json_of_strings(list) },
        None => Reply::new(INTERNAL_SERVER_ERROR, "Error"),
    }
}

/// A topmost deck, and how many notes it holds with all decks below it.
#[derive(Debug, PartialEq)]
pub struct DeckSize {
    pub human_hash: String,
    pub notes: i64,
}

/// The hashes of the large decks.
pub fn large_decks(decks: &Vec<DeckSize>) -> (r: Vec<String>)
    ensures
        text::texts(r@) == decks@.filter(|d: DeckSize| d.notes > 5000).map_values(
            |d: DeckSize| d.human_hash@,
        ),
{
    let mut out: Vec<String> = Vec::new();
    let ghost large = |d: DeckSize| d.notes > 5000;
    let ghost hash = |d: DeckSize| d.human_hash@;
    let mut i: usize = 0;
    proof {
        reveal(Seq::filter);
        assert(decks@.take(0).filter(large).map_values(hash) =~= Seq::empty());
        assert(text::texts(out@) =~= Seq::empty());
    }
    while i < decks.len()
        invariant
            i <= decks@.len(),
            large == (|d: DeckSize| d.notes > 5000),
            hash == (|d: DeckSize| d.human_hash@),
            text::texts(out@) == decks@.take(i as int).filter(large).map_values(hash),
        decreases decks@.len() - i,
    {
        let ghost before = text::texts(out@);
        proof {
            assert(decks@.take(i + 1) =~= decks@.take(i as int).push(decks@[i as int]));
            decks@.take(i as int).lemma_filter_push(decks@[i as int], large);
        }
        if decks[i].notes > LARGE_DECK_NOTES {
            out.push(decks[i].human_hash.clone());
            assert(text::texts(out@) =~= before.push(decks@[i as int].human_hash@));
            assert(text::texts(out@) =~= decks@.take(i + 1).filter(large).map_values(hash));
        }
        i += 1;
    }
    assert(decks@.take(decks@.len() as int) =~= decks@);
    out
}

/// The answer to the question which decks are large; there is none where the database could not be
/// reached.
pub fn get_large_decks(decks: Option<&Vec<DeckSize>>) -> (r: Reply)
    ensures
        match decks {
            Some(list) => r.says(
                OK,
                outside::json_array(
                    list@.filter(|d: DeckSize| d.notes > 5000).map_values(
                        |d: DeckSize| d.human_hash@,
                    ),
                ),
            ),
            None => r.says(INTERNAL_SERVER_ERROR, "[]"@),
        },
{
    match decks {
        Some(list) => {
            let large = large_decks(list);
            Reply { status: OK, message: outside::json_of_strings(&large) }
        },
        None => Reply::new(INTERNAL_SERVER_ERROR, "[]"),
    }
}

/// Whether a message may be added to the changelog of a deck; who may not is told so.
pub fn changelog_permission(has_access: Option<bool>) -> (r: Result<(), Reply>)
    ensures
        match r {
            Ok(_) => has_access == Some(true),
            Err(e) => has_access != Some(true) && e.says(
                UNAUTHORIZED,
                "You are not authorized to add a changelog message to this deck"@,
            ),
        },
{
    match has_access {
        Some(true) => Ok(()),
        _ => Err(
            Reply::new(
                UNAUTHORIZED,
                "You are not authorized to add a changelog message to this deck",
            ),
        ),
    }
}

/// The answer to a message for the changelog, which may have failed for a reason.
pub fn submit_changelog(failure: Option<&str>) -> (r: Reply)
    ensures
        match failure {
            None => r.says(OK, "Changelog published successfully!"@),
            Some(reason) => r.says(
                INTERNAL_SERVER_ERROR,
                "An error occurred while publishing the changelog: "@ + reason@,
            ),
        },
{
    match failure {
        None => Reply::new(OK, "Changelog published successfully!"),
        Some(reason) => Reply {
            status: INTERNAL_SERVER_ERROR,
            message: text::joined(
                "An error occurred while publishing the changelog: ",
                reason,
            ),
        },
    }
}

/// The answer to the question whether a token is somebody's, given whose it is, if that could be
/// found out.
pub fn check_user_token(user_id: Option<i32>) -> (r: Reply)
    ensures
        r.says(
            OK,
            if user_id matches Some(id) && id > 0 {
                "true"@
            } else {
                "false"@
            },
        ),
{
    match user_id {
        Some(id) => {
            if id > 0 {
                Reply::new(OK, "true")
            } else {
                Reply::new(OK, "false")
            }
        },
        None => Reply::new(OK, "false"),
    }
}

/// The answer to the removal of a token, given what is said of it, if it could be tried at all.
pub fn removed_token(said: Option<String>) -> (r: Reply)
    ensures
        match said {
            Some(message) => r.says(OK, message@),
            None => r.says(INTERNAL_SERVER_ERROR, "Error"@),
        },
{
    match said {
        Some(message) => Reply { status: OK, message },
        None => Reply::new(INTERNAL_SERVER_ERROR, "Error"),
    }
}

/// The answer to statistics that were shared, which may be unreadable.
pub fn upload_deck_stats(readable: bool) -> (r: Reply)
    ensures
        readable ==> r.says(OK, "Thanks for sharing!"@),
        !readable ==> r.says(BAD_REQUEST, "Invalid data"@),
{
    if readable {
        Reply::new(OK, "Thanks for sharing!")
    } else {
        Reply::new(BAD_REQUEST, "Invalid data")
    }
}

/// What a client is told tells success from failure, whatever the messages, and one message from
/// another.
pub proof fn law_statuses_are_told_apart(one: Seq<char>, other: Seq<char>)
    ensures
        status_text(true, one) != status_text(false, other),
        status_text(true, one) == status_text(true, other) ==> one == other,
        status_text(false, one) == status_text(false, other) ==> one == other,
        text::is_part_of(one, status_text(true, one)),
        text::is_part_of(one, status_text(false, one)),
        "{ \"status\": 1, \"message\": \""@.is_prefix_of(status_text(true, one)),
        "{ \"status\": 0, \"message\": \""@.is_prefix_of(status_text(false, one)),
        status_text(true, one).skip(status_text(true, one).len() - 3) == "\" }"@,
        status_text(false, one).skip(status_text(false, one).len() - 3) == "\" }"@,
        status_text(true, one).len() == one.len() + 30,
        status_text(false, one).len() == one.len() + 30,
{
    let yes = "{ \"status\": 1, \"message\": \""@;
    let no = "{ \"status\": 0, \"message\": \""@;
    let end = "\" }"@;
    reveal_strlit("{ \"status\": 1, \"message\": \"");
    reveal_strlit("{ \"status\": 0, \"message\": \"");
    reveal_strlit("\" }");
    assert(status_text(true, one)[12] == '1');
    assert(status_text(false, other)[12] == '0');
    text::law_parts_are_put_together(yes, one, end);
    text::law_parts_are_put_together(no, one, end);
    if status_text(true, one) == status_text(true, other) {
        assert(status_text(true, one).len() == status_text(true, other).len());
        assert(one =~= status_text(true, one).subrange(27, 27 + one.len() as int));
        assert(other =~= status_text(true, other).subrange(27, 27 + other.len() as int));
    }
    if status_text(false, one) == status_text(false, other) {
        assert(status_text(false, one).len() == status_text(false, other).len());
        assert(one =~= status_text(false, one).subrange(27, 27 + one.len() as int));
        assert(other =~= status_text(false, other).subrange(27, 27 + other.len() as int));
    }
    assert(status_text(true, one).skip(status_text(true, one).len() - 3) =~= end);
    assert(status_text(false, one).skip(status_text(false, one).len() - 3) =~= end);
}

/// A request to publish a deck is answered with a success exactly where it was accepted, and then with
/// the hash of the deck; otherwise with the reason, where there is one. Only what cannot be read is
/// answered with another status.
pub proof fn law_publishers_are_told_the_outcome(outcome: CreateOutcome, message: Seq<char>)
    ensures
        create_answer(outcome).1 == status_text(true, message) <==> (outcome
            matches CreateOutcome::Accepted { human_hash } && human_hash@ == message),
        outcome matches CreateOutcome::CommitFailed { reason } ==> text::is_part_of(
            reason@,
            create_answer(outcome).1,
        ),
        outcome matches CreateOutcome::Refused { reason } ==> text::is_part_of(
            reason@,
            create_answer(outcome).1,
        ),
        create_answer(outcome).0 == 400 <==> outcome is Unreadable,
        create_answer(outcome).0 == 200 <==> !(outcome is Unreadable),
{
    reveal_strlit("Invalid data");
    reveal_strlit("{ \"status\": 1, \"message\": \"");
    assert(status_text(true, message)[0] == '{');
    match outcome {
        CreateOutcome::Accepted { human_hash } => {
            law_statuses_are_told_apart(human_hash@, message);
        },
        CreateOutcome::CommitFailed { reason } => {
            law_statuses_are_told_apart(reason@, message);
            law_statuses_are_told_apart(message, reason@);
        },
        CreateOutcome::Refused { reason } => {
            law_statuses_are_told_apart(reason@, message);
            law_statuses_are_told_apart(message, reason@);
        },
        CreateOutcome::UnknownUser => {
            law_statuses_are_told_apart(message, "Unknown username"@);
        },
        CreateOutcome::NoConnection => {
            law_statuses_are_told_apart(message, "Server Error. Please notify us! (752)"@);
        },
        CreateOutcome::Unreadable => {},
    }
}

/// A suggestion is answered with the status of success exactly where it was accepted, with that of a bad
/// request exactly where it could not be read, and with the reason where there is one.
pub proof fn law_contributors_are_told_the_outcome(outcome: SuggestOutcome)
    ensures
        suggest_answer(outcome).0 == 200 <==> outcome is Accepted,
        suggest_answer(outcome).0 == 400 <==> outcome is Unreadable || outcome is UnreadableDeck,
        suggest_answer(outcome).0 == 500 <==> outcome is Failed || outcome is NoConnection
            || outcome is NotetypeRefused,
        outcome matches SuggestOutcome::Failed { reason } ==> text::is_part_of(
            reason@,
            suggest_answer(outcome).1,
        ),
        outcome matches SuggestOutcome::NotetypeRefused { reason } ==> text::is_part_of(
            reason@,
            suggest_answer(outcome).1,
        ),
{
    match outcome {
        SuggestOutcome::Failed { reason } => {
            text::law_parts_are_put_together("Error occurred: "@, reason@, Seq::empty());
            assert("Error occurred: "@ + reason@ + Seq::empty() =~= "Error occurred: "@ + reason@);
        },
        SuggestOutcome::NotetypeRefused { reason } => {
            text::law_parts_are_put_together("Notetype Error: "@, reason@, Seq::empty());
            assert("Notetype Error: "@ + reason@ + Seq::empty() =~= "Notetype Error: "@ + reason@);
        },
        _ => {},
    }
}

/// A body stands for a text exactly where it is Base64 of a stream that unpacks to the text.
pub proof fn law_bodies_are_unpacked(data: Seq<char>, text: Seq<char>)
    ensures
        decompressed(data) == Some(text) <==> (outside::base64_bytes(data) is Some
            && outside::gunzipped_text(outside::base64_bytes(data)->0) == Some(text)),
        decompressed(data) is None <==> (outside::base64_bytes(data) is None
            || outside::gunzipped_text(outside::base64_bytes(data)->0) is None),
{
}

} // verus!
