//! Users and the tokens by which they are known.
use vstd::prelude::*;
use vstd::utf8::*;

use crate::clock::Timestamp;
use crate::outside;
use crate::text;

verus! {

/// The characters of an access token.
pub const ACCESS_TOKEN_LENGTH: usize = 48;

/// The characters of a refresh token.
pub const REFRESH_TOKEN_LENGTH: usize = 64;

/// The days for which an access token is good.
pub const ACCESS_TOKEN_EXPIRY_DAYS: i64 = 30;

/// The days for which a refresh token is good.
pub const REFRESH_TOKEN_EXPIRY_DAYS: i64 = 90;

/// The tokens that a user gets.
#[derive(Debug, PartialEq)]
pub struct AuthResponse {
    pub token: String,
    pub refresh_token: String,
    pub expires_at: Timestamp,
    pub user_id: i32,
}

/// The name and the password of a user.
#[derive(Debug, PartialEq)]
pub struct Login {
    pub username: String,
    pub password: String,
}

/// The token for which a user wants new ones.
#[derive(Debug, PartialEq)]
pub struct TokenRefresh {
    pub refresh_token: String,
}

/// What is stored of the tokens of a user.
#[derive(Debug, PartialEq)]
pub struct TokenRecord {
    pub user_id: i32,
    pub token_hash: Vec<u8>,
    pub refresh_token_hash: Vec<u8>,
    pub expires_at: Timestamp,
    pub refresh_expires_at: Timestamp,
}

/// What is stored of a user.
#[derive(Debug, PartialEq)]
pub struct UserRow {
    pub id: i32,
    pub password_hash: String,
}

/// New tokens, and what is stored of them.
#[derive(Debug, PartialEq)]
pub struct IssuedTokens {
    pub record: TokenRecord,
    pub response: AuthResponse,
}

/// Letters and digits.
pub open spec fn is_token(token: Seq<char>, length: nat) -> bool {
    &&& token.len() == length
    &&& forall|i: int| 0 <= i < length ==> outside::is_token_char(#[trigger] token[i])
}

/// A new token of so many letters and digits, left to chance.
pub fn generate_secure_token(length: usize) -> (r: String)
    requires
        length <= isize::MAX,
    ensures
        is_token(r@, length as nat),
{
    outside::random_alphanumeric(length)
}

/// What is stored of a token.
pub open spec fn token_digest(token: Seq<char>) -> Seq<u8> {
    outside::sha256_digest(encode_utf8(token))
}

/// What is stored of a token.
pub fn hash_token(token: &str) -> (r: Vec<u8>)
    ensures
        r@ == token_digest(token@),
        r@.len() == 32,
{
    outside::sha256(token.as_bytes())
}

/// The name under which a user is stored.
pub fn normalized_username(username: &str) -> (r: String)
    ensures
        r@ == outside::lowercase(username@),
{
    outside::to_lowercase(username)
}

/// The tokens and what is stored of them belong together: digests are stored, and the refresh
/// token is good for longer.
pub open spec fn is_issue(
    issued: IssuedTokens,
    user_id: i32,
    access_token: Seq<char>,
    refresh_token: Seq<char>,
    now: Timestamp,
) -> bool {
    &&& issued.response.token@ == access_token
    &&& issued.response.refresh_token@ == refresh_token
    &&& issued.response.expires_at == now.later(30int * 86_400)
    &&& issued.response.user_id == user_id
    &&& issued.record.user_id == user_id
    &&& issued.record.token_hash@ == token_digest(access_token)
    &&& issued.record.refresh_token_hash@ == token_digest(refresh_token)
    &&& issued.record.expires_at == now.later(30int * 86_400)
    &&& issued.record.refresh_expires_at == now.later(90int * 86_400)
}

/// The tokens that a user gets at `now`, and what is stored of them.
pub fn issue_tokens(
    user_id: i32,
    access_token: String,
    refresh_token: String,
    now: Timestamp,
) -> (r: IssuedTokens)
    requires
        now.secs + 90 * 86_400 <= i64::MAX,
    ensures
        is_issue(r, user_id, access_token@, refresh_token@, now),
{
    let token_hash = hash_token(access_token.as_str());
    let refresh_token_hash = hash_token(refresh_token.as_str());
    let expires_at = now.plus_days(ACCESS_TOKEN_EXPIRY_DAYS);
    let refresh_expires_at = now.plus_days(REFRESH_TOKEN_EXPIRY_DAYS);
    IssuedTokens {
        record: TokenRecord {
            user_id,
            token_hash,
            refresh_token_hash,
            expires_at,
            refresh_expires_at,
        },
        response: AuthResponse { token: access_token, refresh_token, expires_at, user_id },
    }
}

/// New tokens for a user, left to chance.
pub fn generate_tokens(user_id: i32, now: Timestamp) -> (r: IssuedTokens)
    requires
        now.secs + 90 * 86_400 <= i64::MAX,
    ensures
        is_token(r.response.token@, 48),
        is_token(r.response.refresh_token@, 64),
        is_issue(r, user_id, r.response.token@, r.response.refresh_token@, now),
{
    let access_token = generate_secure_token(ACCESS_TOKEN_LENGTH);
    let refresh_token = generate_secure_token(REFRESH_TOKEN_LENGTH);
    issue_tokens(user_id, access_token, refresh_token, now)
}

/// Who holds the tokens that were given out is found by what is stored of them, for as long as
/// they are good, and the refresh token is good for sixty days longer.
pub proof fn law_issued_tokens_are_found(
    issued: IssuedTokens,
    user_id: i32,
    access_token: Seq<char>,
    refresh_token: Seq<char>,
    now: Timestamp,
)
    requires
        now.secs + 90 * 86_400 <= i64::MAX,
        is_issue(issued, user_id, access_token, refresh_token, now),
    ensures
        token_digest(issued.response.token@) == issued.record.token_hash@,
        token_digest(issued.response.refresh_token@) == issued.record.refresh_token_hash@,
        issued.record.user_id == issued.response.user_id,
        issued.record.expires_at == issued.response.expires_at,
        issued.record.refresh_expires_at.secs == issued.record.expires_at.secs + 60 * 86_400,
        issued.record.expires_at.secs > now.secs,
{
}

/// What is made of the attempt to check a password.
pub fn password_verdict(verdict: Result<bool, String>) -> (r: Result<bool, String>)
    ensures
        match verdict {
            Ok(fits) => r == Ok::<bool, String>(fits),
            Err(e) => r matches Err(f) && f@ == "Password verification error: "@ + e@,
        },
{
    match verdict {
        Ok(fits) => Ok(fits),
        Err(e) => Err(text::joined("Password verification error: ", e.as_str())),
    }
}

/// The verdict on a password, given what is stored of it.
pub open spec fn verdict_on(password: Seq<char>, hash: Seq<char>) -> Result<bool, Seq<char>> {
    outside::argon2_verdict(hash, encode_utf8(password), usize::BITS as nat)
}

/// Whether a password fits what is stored of it.
pub fn verify_password(password: &str, hash: &str) -> (r: Result<bool, String>)
    ensures
        match verdict_on(password@, hash@) {
            Ok(fits) => r == Ok::<bool, String>(fits),
            Err(reason) => r matches Err(e) && e@ == "Password verification error: "@ + reason,
        },
{
    password_verdict(outside::argon2_verify(hash, password.as_bytes()))
}

/// Who has logged in, given the verdict on the password.
pub fn logged_in(user_id: i32, verdict: Result<bool, String>) -> (r: Result<i32, String>)
    ensures
        match verdict {
            Ok(true) => r == Ok::<i32, String>(user_id),
            Ok(false) => r matches Err(e) && e@ == "Invalid username or password"@,
            Err(f) => r == Err::<i32, String>(f),
        },
{
    match verdict {
        Ok(true) => Ok(user_id),
        Ok(false) => Err("Invalid username or password".to_owned()),
        Err(e) => Err(e),
    }
}

/// Who has logged in, given what is stored of the user of that name. A name that nobody has is
/// answered like a wrong password.
pub fn login(form: &Login, user: Option<UserRow>) -> (r: Result<i32, String>)
    ensures
        match user {
            None => r matches Err(e) && e@ == "Invalid username or password"@,
            Some(row) => match verdict_on(form.password@, row.password_hash@) {
                Ok(true) => r == Ok::<i32, String>(row.id),
                Ok(false) => r matches Err(e) && e@ == "Invalid username or password"@,
                Err(reason) => r matches Err(e) && e@ == "Password verification error: "@ + reason,
            },
        },
{
    match user {
        None => Err("Invalid username or password".to_owned()),
        Some(row) => logged_in(
            row.id,
            verify_password(form.password.as_str(), row.password_hash.as_str()),
        ),
    }
}

/// What can fail around the tokens.
#[derive(Debug, PartialEq)]
pub enum AuthFailure {
    /// There is no connection to the database.
    Connection,
    /// The database could not be asked.
    Database { reason: String },
    /// New tokens could not be stored.
    Tokens { reason: String },
}

/// The text with which a failure is answered.
pub open spec fn auth_failure(failure: AuthFailure) -> Seq<char> {
    match failure {
        AuthFailure::Connection => "Internal Error"@,
        AuthFailure::Database { reason } => "Database error: "@ + reason@,
        AuthFailure::Tokens { reason } => "Error generating tokens: "@ + reason@,
    }
}

/// The text with which a failure is answered.
pub fn auth_failure_text(failure: &AuthFailure) -> (r: String)
    ensures
        r@ == auth_failure(*failure),
{
    match failure {
        AuthFailure::Connection => "Internal Error".to_owned(),
        AuthFailure::Database { reason } => text::joined("Database error: ", reason.as_str()),
        AuthFailure::Tokens { reason } => text::joined(
            "Error generating tokens: ",
            reason.as_str(),
        ),
    }
}

/// Who gets new tokens, given whose refresh token it is, if it is somebody's and still good.
pub open spec fn refreshed_user(user_id: Option<i32>) -> Result<i32, Seq<char>> {
    match user_id {
        Some(id) => Ok(id),
        None => Err("Invalid or expired refresh token"@),
    }
}

/// Whose refresh token it is; an error where it is nobody's, or no longer good.
pub fn refresh_token(user_id: Option<i32>) -> (r: Result<i32, String>)
    ensures
        match r {
            Ok(id) => refreshed_user(user_id) == Ok::<i32, Seq<char>>(id),
            Err(e) => refreshed_user(user_id) == Err::<i32, Seq<char>>(e@),
        },
{
    match user_id {
        Some(id) => Ok(id),
        None => Err("Invalid or expired refresh token".to_owned()),
    }
}

/// What is said when so many tokens have been removed.
pub fn remove_token(removed: u64) -> (r: String)
    ensures
        r@ == if removed == 0 {
            "Token not found"@
        } else {
            "Token successfully removed"@
        },
{
    if removed == 0 {
        "Token not found".to_owned()
    } else {
        "Token successfully removed".to_owned()
    }
}

/// What is looked up for a token. There must be one.
pub fn token_to_look_up(token: &str) -> (r: Result<Vec<u8>, String>)
    ensures
        match r {
            Ok(hash) => token@.len() > 0 && hash@ == token_digest(token@),
            Err(e) => token@.len() == 0 && e@ == "Token not provided"@,
        },
{
    if token.is_empty() {
        return Err("Token not provided".to_owned());
    }
    Ok(hash_token(token))
}

/// Who is known by a token, given whose it is, if it is somebody's and still good.
pub open spec fn known_user(user_id: Option<i32>) -> Result<i32, Seq<char>> {
    match user_id {
        Some(id) => Ok(id),
        None => Err("Token not found or expired"@),
    }
}

/// Whose token it is; an error where it is nobody's, or no longer good.
pub fn get_user_from_token(user_id: Option<i32>) -> (r: Result<i32, String>)
    ensures
        match r {
            Ok(id) => known_user(user_id) == Ok::<i32, Seq<char>>(id),
            Err(e) => known_user(user_id) == Err::<i32, Seq<char>>(e@),
        },
{
    match user_id {
        Some(id) => Ok(id),
        None => Err("Token not found or expired".to_owned()),
    }
}

/// Whether a token is somebody's, given whose it is, if that could be found out.
pub fn is_authenticated(user_id: Option<i32>) -> (r: bool)
    ensures
        r == (user_id matches Some(id) && id > 0),
{
    match user_id {
        Some(id) => id > 0,
        None => false,
    }
}

/// The records of tokens with a new one. A user has one record, which the new one replaces.
pub open spec fn with_record(
    table: Map<i32, TokenRecord>,
    record: TokenRecord,
) -> Map<i32, TokenRecord> {
    table.insert(record.user_id, record)
}

/// The records of tokens without those of a token that is removed.
pub open spec fn without_token(table: Map<i32, TokenRecord>, token: Seq<char>) -> Map<
    i32,
    TokenRecord,
> {
    table.restrict(Set::new(|u: i32| table[u].token_hash@ != token_digest(token)))
}

/// The token is the user's, and still good.
pub open spec fn holds_token(
    table: Map<i32, TokenRecord>,
    user_id: i32,
    token: Seq<char>,
    now: Timestamp,
) -> bool {
    &&& table.contains_key(user_id)
    &&& table[user_id].token_hash@ == token_digest(token)
    &&& now.is_before(table[user_id].expires_at)
}

/// The refresh token is the user's, and still good.
pub open spec fn holds_refresh_token(
    table: Map<i32, TokenRecord>,
    user_id: i32,
    token: Seq<char>,
    now: Timestamp,
) -> bool {
    &&& table.contains_key(user_id)
    &&& table[user_id].refresh_token_hash@ == token_digest(token)
    &&& now.is_before(table[user_id].refresh_expires_at)
}

/// Whose token it is, if it is somebody's and still good.
pub open spec fn holder(table: Map<i32, TokenRecord>, token: Seq<char>, now: Timestamp) -> Option<
    i32,
> {
    if exists|u: i32| holds_token(table, u, token, now) {
        Some(choose|u: i32| holds_token(table, u, token, now))
    } else {
        None
    }
}

/// Whose refresh token it is, if it is somebody's and still good.
pub open spec fn refresh_holder(
    table: Map<i32, TokenRecord>,
    token: Seq<char>,
    now: Timestamp,
) -> Option<i32> {
    if exists|u: i32| holds_refresh_token(table, u, token, now) {
        Some(choose|u: i32| holds_refresh_token(table, u, token, now))
    } else {
        None
    }
}

/// No other user has a token with that digest which is still good.
pub open spec fn is_of_no_other(
    table: Map<i32, TokenRecord>,
    user_id: i32,
    token: Seq<char>,
    now: Timestamp,
) -> bool {
    forall|u: i32| #[trigger] holds_token(table, u, token, now) ==> u == user_id
}

/// No other user has a refresh token with that digest which is still good.
pub open spec fn refreshes_no_other(
    table: Map<i32, TokenRecord>,
    user_id: i32,
    token: Seq<char>,
    now: Timestamp,
) -> bool {
    forall|u: i32| #[trigger] holds_refresh_token(table, u, token, now) ==> u == user_id
}

/// A user who logs in is known by the new token for as long as it is good, and no longer by an
/// earlier one, where the digests differ.
pub proof fn law_a_login_ends_the_earlier_token(
    table: Map<i32, TokenRecord>,
    first: IssuedTokens,
    second: IssuedTokens,
    user_id: i32,
    first_issue: Timestamp,
    second_issue: Timestamp,
    now: Timestamp,
)
    requires
        is_issue(
            first,
            user_id,
            first.response.token@,
            first.response.refresh_token@,
            first_issue,
        ),
        is_issue(
            second,
            user_id,
            second.response.token@,
            second.response.refresh_token@,
            second_issue,
        ),
        token_digest(first.response.token@) != token_digest(second.response.token@),
        is_of_no_other(table, user_id, first.response.token@, now),
        is_of_no_other(table, user_id, second.response.token@, now),
    ensures
        ({
            let once = with_record(table, first.record);
            let twice = with_record(once, second.record);
            &&& now.is_before(first_issue.later(30int * 86_400)) ==> known_user(
                holder(once, first.response.token@, now),
            ) == Ok::<i32, Seq<char>>(user_id)
            &&& now.is_before(second_issue.later(30int * 86_400)) ==> known_user(
                holder(twice, second.response.token@, now),
            ) == Ok::<i32, Seq<char>>(user_id)
            &&& known_user(holder(twice, first.response.token@, now)) == Err::<i32, Seq<char>>(
                "Token not found or expired"@,
            )
        }),
{
    let once = with_record(table, first.record);
    let twice = with_record(once, second.record);
    let old_token = first.response.token@;
    let new_token = second.response.token@;
    assert forall|u: i32| holds_token(once, u, old_token, now) implies u == user_id by {
        assert(u != user_id ==> holds_token(table, u, old_token, now));
    }
    assert forall|u: i32| holds_token(twice, u, new_token, now) implies u == user_id by {
        assert(u != user_id ==> holds_token(table, u, new_token, now));
    }
    assert forall|u: i32| !holds_token(twice, u, old_token, now) by {
        if holds_token(twice, u, old_token, now) {
            assert(u != user_id ==> holds_token(table, u, old_token, now));
        }
    }
    if now.is_before(first_issue.later(30int * 86_400)) {
        assert(holds_token(once, user_id, old_token, now));
    }
    if now.is_before(second_issue.later(30int * 86_400)) {
        assert(holds_token(twice, user_id, new_token, now));
    }
}

/// A refresh token is good once: who got new tokens for it gets none for it again, but gets new
/// ones for the new refresh token, where the digests differ.
pub proof fn law_a_refresh_token_is_good_once(
    table: Map<i32, TokenRecord>,
    used: Seq<char>,
    issued: IssuedTokens,
    user_id: i32,
    issue: Timestamp,
    now: Timestamp,
)
    requires
        refreshed_user(refresh_holder(table, used, issue)) == Ok::<i32, Seq<char>>(user_id),
        is_issue(
            issued,
            user_id,
            issued.response.token@,
            issued.response.refresh_token@,
            issue,
        ),
        token_digest(issued.response.refresh_token@) != token_digest(used),
        refreshes_no_other(table, user_id, used, now),
        refreshes_no_other(table, user_id, issued.response.refresh_token@, now),
    ensures
        ({
            let after = with_record(table, issued.record);
            &&& holds_refresh_token(table, user_id, used, issue)
            &&& issued.response.user_id == user_id
            &&& refreshed_user(refresh_holder(after, used, now)) == Err::<i32, Seq<char>>(
                "Invalid or expired refresh token"@,
            )
            &&& now.is_before(issue.later(90int * 86_400)) ==> refreshed_user(
                refresh_holder(after, issued.response.refresh_token@, now),
            ) == Ok::<i32, Seq<char>>(user_id)
        }),
{
    let after = with_record(table, issued.record);
    let fresh = issued.response.refresh_token@;
    assert forall|u: i32| !holds_refresh_token(after, u, used, now) by {
        if holds_refresh_token(after, u, used, now) {
            assert(u != user_id ==> holds_refresh_token(table, u, used, now));
        }
    }
    assert forall|u: i32| holds_refresh_token(after, u, fresh, now) implies u == user_id by {
        assert(u != user_id ==> holds_refresh_token(table, u, fresh, now));
    }
    if now.is_before(issue.later(90int * 86_400)) {
        assert(holds_refresh_token(after, user_id, fresh, now));
    }
}

/// A token that has been removed is nobody's, and other tokens stay whose they are.
pub proof fn law_removed_tokens_are_nobodys(
    table: Map<i32, TokenRecord>,
    token: Seq<char>,
    other: Seq<char>,
    user_id: i32,
    now: Timestamp,
)
    requires
        token_digest(other) != token_digest(token),
    ensures
        known_user(holder(without_token(table, token), token, now)) == Err::<i32, Seq<char>>(
            "Token not found or expired"@,
        ),
        holds_token(without_token(table, token), user_id, other, now) <==> holds_token(
            table,
            user_id,
            other,
            now,
        ),
{
}

/// A token is good for thirty days from the moment at which it was given out, to the moment, and the
/// refresh token that comes with it for ninety.
pub proof fn law_tokens_are_good_for_their_days(
    table: Map<i32, TokenRecord>,
    issued: IssuedTokens,
    user_id: i32,
    issue: Timestamp,
    now: Timestamp,
)
    requires
        issue.secs + 7_776_000 <= i64::MAX,
        is_issue(
            issued,
            user_id,
            issued.response.token@,
            issued.response.refresh_token@,
            issue,
        ),
    ensures
        holds_token(
            with_record(table, issued.record),
            user_id,
            issued.response.token@,
            now,
        ) <==> now.secs - issue.secs < 2_592_000 || (now.secs - issue.secs == 2_592_000 && now.nanos
            < issue.nanos),
        holds_refresh_token(
            with_record(table, issued.record),
            user_id,
            issued.response.refresh_token@,
            now,
        ) <==> now.secs - issue.secs < 7_776_000 || (now.secs - issue.secs == 7_776_000 && now.nanos
            < issue.nanos),
{
}

/// What is stored of the tokens of one user changes nothing for the others: each of them holds the
/// tokens that they held.
pub proof fn law_other_users_keep_their_tokens(
    table: Map<i32, TokenRecord>,
    record: TokenRecord,
    user_id: i32,
    token: Seq<char>,
    now: Timestamp,
)
    requires
        record.user_id != user_id,
    ensures
        holds_token(with_record(table, record), user_id, token, now) <==> holds_token(
            table,
            user_id,
            token,
            now,
        ),
        holds_refresh_token(with_record(table, record), user_id, token, now)
            <==> holds_refresh_token(table, user_id, token, now),
{
}

/// A token has as many letters and digits as it was asked for, all of them ASCII: its bytes are as many.
pub proof fn law_tokens_are_ascii(token: Seq<char>, length: nat, i: int)
    requires
        is_token(token, length),
    ensures
        token.len() == length,
        encode_utf8(token).len() == length,
        0 <= i < length ==> ('A' <= token[i] && token[i] <= 'Z') || ('a' <= token[i] && token[i]
            <= 'z') || ('0' <= token[i] && token[i] <= '9'),
{
    assert(is_ascii_chars(token)) by {
        assert forall|i: int| 0 <= i < token.len() implies '\0' <= #[trigger] token[i]
            <= '\u{7f}' by {
            assert(outside::is_token_char(token[i]));
        }
    }
    is_ascii_chars_encode_utf8(token);
    if 0 <= i < length {
        assert(outside::is_token_char(token[i]));
    }
}

/// What is stored of a token is the SHA-256 digest of all its bytes, and a password is held against what
/// is stored of it with all its bytes.
pub proof fn law_all_bytes_of_a_secret_count(secret: Seq<char>, hash: Seq<char>)
    ensures
        token_digest(secret) == outside::sha256_digest(encode_utf8(secret)),
        verdict_on(secret, hash) == outside::argon2_verdict(
            hash,
            encode_utf8(secret),
            usize::BITS as nat,
        ),
{
}

/// A failure is answered with its reason, where there is one.
pub proof fn law_failures_carry_their_reason(failure: AuthFailure)
    ensures
        failure matches AuthFailure::Database { reason } ==> text::is_part_of(
            reason@,
            auth_failure(failure),
        ),
        failure matches AuthFailure::Tokens { reason } ==> text::is_part_of(
            reason@,
            auth_failure(failure),
        ),
{
    match failure {
        AuthFailure::Database { reason } => {
            text::law_parts_are_put_together("Database error: "@, reason@, Seq::empty());
            assert("Database error: "@ + reason@ + Seq::empty() =~= "Database error: "@ + reason@);
        },
        AuthFailure::Tokens { reason } => {
            text::law_parts_are_put_together("Error generating tokens: "@, reason@, Seq::empty());
            assert("Error generating tokens: "@ + reason@ + Seq::empty()
                =~= "Error generating tokens: "@ + reason@);
        },
        _ => {},
    }
}

} // verus!
