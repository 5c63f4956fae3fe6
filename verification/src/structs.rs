//! The records that the service exchanges with its clients and its database.
use vstd::hash_map::StringHashMap;
use vstd::prelude::*;

use crate::clock::Timestamp;

verus! {

/// A field of a notetype.
#[derive(Debug, PartialEq)]
pub struct NotetypeField {
    pub description: String,
    pub font: String,
    pub id: Option<i64>,
    pub name: String,
    pub ord: i32,
    pub rtl: bool,
    pub size: i32,
    pub sticky: bool,
    pub tag: Option<i32>,
}

/// A card template of a notetype.
#[derive(Debug, PartialEq)]
pub struct NotetypeTemplate {
    pub afmt: String,
    pub bafmt: String,
    pub bfont: String,
    pub bqfmt: String,
    pub bsize: i32,
    pub id: Option<i64>,
    pub name: String,
    pub ord: i32,
    pub qfmt: String,
}

/// Which fields a card needs.
#[derive(Debug, PartialEq)]
pub struct CardRequirement {
    pub card_ord: i32,
    pub kind: String,
    pub field_ords: Vec<u32>,
}

/// A notetype: the fields and the templates that its notes share.
#[allow(non_snake_case)]
#[derive(Debug, PartialEq)]
pub struct Notetype {
    pub crowdanki_uuid: String,
    pub css: String,
    pub flds: Vec<NotetypeField>,
    pub latexPost: String,
    pub latexPre: String,
    pub latexsvg: bool,
    pub name: String,
    pub originalStockKind: Option<i32>,
    pub req: Vec<CardRequirement>,
    pub sortf: i32,
    pub tmpls: Vec<NotetypeTemplate>,
    pub type_: i32,
}

/// A note. Its model is named by the notetype's `crowdanki_uuid`.
#[derive(Debug, PartialEq)]
pub struct Note {
    pub fields: Vec<String>,
    pub guid: String,
    pub note_model_uuid: String,
    pub tags: Vec<String>,
}

/// A deck with its subdecks.
#[derive(Debug, PartialEq)]
pub struct AnkiDeck {
    pub crowdanki_uuid: String,
    pub children: Vec<AnkiDeck>,
    pub desc: String,
    pub name: String,
    pub note_models: Option<Vec<Notetype>>,
    pub notes: Vec<Note>,
    pub media_files: Vec<String>,
}

/// Up to when a client has a deck's changes.
#[derive(Debug, PartialEq)]
pub struct UpdateInfo {
    pub timestamp: String,
}

/// When a deck was last changed.
#[derive(Debug, PartialEq)]
pub struct DeckUpdateInfo {
    pub deck_id: u64,
    pub deck_guid: String,
    pub deck_update: Timestamp,
    pub parent: Option<u64>,
}

/// A field of a note model, and whether suggestions may not touch it.
#[derive(Debug, PartialEq)]
pub struct NoteModelFieldInfo {
    pub id: i64,
    pub name: String,
    pub protected: bool,
}

/// A note model with some of its fields.
#[derive(Debug, PartialEq)]
pub struct NoteModel {
    pub id: i64,
    pub fields: Vec<NoteModelFieldInfo>,
    pub name: String,
}

/// The credentials of a Google service account.
#[derive(Debug, PartialEq)]
pub struct GoogleServiceAccount {
    pub account_type: String,
    pub project_id: String,
    pub private_key_id: String,
    pub private_key: String,
    pub client_email: String,
    pub client_id: String,
    pub auth_uri: String,
    pub token_uri: String,
    pub auth_provider_x509_cert_url: String,
    pub client_x509_cert_url: String,
}

/// Where a deck's media lie on Google Drive.
#[derive(Debug, PartialEq)]
pub struct GDriveInfo {
    pub service_account: GoogleServiceAccount,
    pub folder_id: String,
}

impl GDriveInfo {
    /// No field holds anything: the deck's media do not lie on Google Drive.
    pub open spec fn is_blank(self) -> bool {
        let account = self.service_account;
        &&& account.account_type@.len() == 0
        &&& account.project_id@.len() == 0
        &&& account.private_key_id@.len() == 0
        &&& account.private_key@.len() == 0
        &&& account.client_email@.len() == 0
        &&& account.client_id@.len() == 0
        &&& account.auth_uri@.len() == 0
        &&& account.token_uri@.len() == 0
        &&& account.auth_provider_x509_cert_url@.len() == 0
        &&& account.client_x509_cert_url@.len() == 0
        &&& self.folder_id@.len() == 0
    }
}

impl Default for GDriveInfo {
    fn default() -> (r: Self)
        ensures
            r.is_blank(),
    {
        GDriveInfo {
            service_account: GoogleServiceAccount {
                account_type: String::new(),
                project_id: String::new(),
                private_key_id: String::new(),
                private_key: String::new(),
                client_email: String::new(),
                client_id: String::new(),
                auth_uri: String::new(),
                token_uri: String::new(),
                auth_provider_x509_cert_url: String::new(),
                client_x509_cert_url: String::new(),
            },
            folder_id: String::new(),
        }
    }
}

/// What a client gets that asks for a deck's changes.
#[derive(Debug, PartialEq)]
pub struct UpdateInfoResponse {
    pub gdrive: GDriveInfo,
    pub protected_fields: Vec<NoteModel>,
    pub deck: AnkiDeck,
    pub changelog: String,
    pub deck_hash: String,
    pub optional_tags: Vec<String>,
    pub deleted_notes: Vec<String>,
    pub stats_enabled: bool,
}

/// The request to publish a new deck; the deck is JSON text.
#[derive(Debug, PartialEq)]
pub struct CreateDeckReq {
    pub deck: String,
    pub username: String,
}

/// A suggestion of changes to a deck.
#[derive(Debug, PartialEq)]
pub struct SubmitCardReq {
    /// The human-readable hash of the deck.
    pub remote_deck: String,
    /// The path of the deck, as Anki writes it.
    pub deck_path: String,
    /// The name that the user gave the topmost deck.
    pub new_name: String,
    /// The deck's content as JSON text.
    pub deck: String,
    pub rationale: i32,
    pub commit_text: String,
    pub token: String,
    pub force_overwrite: bool,
}

/// A suggestion to remove notes from a deck.
#[derive(Debug, PartialEq)]
pub struct NoteRemovalReq {
    /// The topmost deck that holds all the notes: several decks may use one note.
    pub remote_deck: String,
    pub note_guids: Vec<String>,
    pub commit_text: String,
    pub token: String,
    pub force_overwrite: bool,
}

/// A changelog message for a deck.
#[derive(Debug, PartialEq)]
pub struct SubmitChangelog {
    pub deck_hash: String,
    pub changelog: String,
    pub token: String,
}

/// The question which of some decks still exist.
#[derive(Debug, PartialEq)]
pub struct CheckDeckAliveRequest {
    pub deck_hashes: Vec<String>,
}

/// How a user gets on with a note.
#[derive(Clone, Copy, Debug, PartialEq)]
pub struct NoteStatsInfo {
    pub retention: i32,
    pub reps: i32,
    pub lapses: i32,
}

/// How a user gets on with the note of a guid.
#[derive(Debug, PartialEq)]
pub struct NoteReview {
    pub guid: String,
    pub stats: NoteStatsInfo,
}

/// How a user gets on with the notes of a deck.
#[derive(Debug, PartialEq)]
pub struct DeckReview {
    pub deck_name: String,
    pub notes: Vec<NoteReview>,
}

/// The review statistics that a user shares.
#[derive(Debug, PartialEq)]
pub struct StatsInfo {
    pub user_hash: String,
    pub deck_hash: String,
    pub review_history: Vec<DeckReview>,
}

/// A token, and the deck that it is to be used for.
#[derive(Debug, PartialEq)]
pub struct TokenInfo {
    pub token: String,
    pub deck_hash: String,
}

/// The request to subscribe to a deck, or to stop doing so.
#[derive(Debug, PartialEq)]
pub struct SubscriptionRequest {
    pub deck_hash: String,
    pub user_hash: String,
}

/// A number of the database, and the text by which it is known.
#[derive(Debug, PartialEq)]
pub struct NamedId {
    pub id: i64,
    pub name: String,
}

/// The numbers by the texts by which they are known; the last one where several have one text.
pub open spec fn ids_by_name(rows: Seq<NamedId>) -> Map<Seq<char>, i64>
    decreases rows.len(),
{
    if rows.len() == 0 {
        Map::empty()
    } else {
        ids_by_name(rows.drop_last()).insert(rows.last().name@, rows.last().id)
    }
}

/// The numbers by the texts by which they are known.
pub fn index_by_name(rows: &Vec<NamedId>) -> (r: StringHashMap<i64>)
    ensures
        r@ == ids_by_name(rows@),
{
    let mut map: StringHashMap<i64> = StringHashMap::new();
    let mut i: usize = 0;
    assert(rows@.take(0) =~= Seq::<NamedId>::empty());
    while i < rows.len()
        invariant
            i <= rows@.len(),
            map@ == ids_by_name(rows@.take(i as int)),
        decreases rows@.len() - i,
    {
        map.insert(rows[i].name.clone(), rows[i].id);
        assert(rows@.take(i + 1).drop_last() =~= rows@.take(i as int));
        i += 1;
    }
    assert(rows@.take(rows@.len() as int) =~= rows@);
    map
}

/// A media file that a client wants to upload for a note.
#[derive(Debug, PartialEq)]
pub struct MediaFileInfo {
    pub hash: String,
    pub filename: String,
    pub note_guid: String,
    pub file_size: i64,
}

impl Clone for MediaFileInfo {
    fn clone(&self) -> (r: Self)
        ensures
            r == *self,
    {
        MediaFileInfo {
            hash: self.hash.clone(),
            filename: self.filename.clone(),
            note_guid: self.note_guid.clone(),
            file_size: self.file_size,
        }
    }
}

/// The question which of some media files have to be uploaded.
#[derive(Debug, PartialEq)]
pub struct MediaBulkCheckRequest {
    pub token: String,
    pub deck_hash: String,
    pub files: Vec<MediaFileInfo>,
}

/// A media file that is stored already.
#[derive(Debug, PartialEq)]
pub struct MediaExistingFile {
    pub hash: String,
    pub media_id: i64,
}

/// A media file that is to be uploaded, and the address for it.
#[derive(Debug, PartialEq)]
pub struct MediaMissingFile {
    pub hash: String,
    pub filename: String,
    pub note_id: i64,
    pub file_size: i64,
    pub presigned_url: Option<String>,
}

impl Clone for MediaMissingFile {
    fn clone(&self) -> (r: Self)
        ensures
            r == *self,
    {
        MediaMissingFile {
            hash: self.hash.clone(),
            filename: self.filename.clone(),
            note_id: self.note_id,
            file_size: self.file_size,
            presigned_url: match &self.presigned_url {
                Some(url) => Some(url.clone()),
                None => None,
            },
        }
    }
}

/// Which files are stored, which are to be uploaded, and which were refused.
#[derive(Debug, PartialEq)]
pub struct MediaBulkCheckResponse {
    pub existing_files: Vec<MediaExistingFile>,
    pub missing_files: Vec<MediaMissingFile>,
    pub failed_files: Vec<MediaFileInfo>,
    pub batch_id: Option<String>,
}

/// The claim that some files of a batch have been uploaded.
#[derive(Debug, PartialEq)]
pub struct MediaBulkConfirmRequest {
    pub batch_id: String,
    pub confirmed_files: Vec<String>,
}

/// What became of an uploaded file.
#[derive(Debug, PartialEq)]
pub struct MediaProcessedFile {
    pub hash: String,
    pub media_id: i64,
    pub success: bool,
    pub error: Option<String>,
}

/// What became of the files of a batch.
#[derive(Debug, PartialEq)]
pub struct MediaBulkConfirmResponse {
    pub processed_files: Vec<MediaProcessedFile>,
}

/// The request for the addresses of some media files of a deck.
#[derive(Debug, PartialEq)]
pub struct MediaManifestRequest {
    pub user_token: String,
    pub deck_hash: String,
    pub filenames: Vec<String>,
}

/// A media file and the address from which it can be downloaded.
#[derive(Debug, PartialEq)]
pub struct MediaDownloadItem {
    pub filename: String,
    pub download_url: String,
}

/// The addresses of some media files, and until when they are good.
#[derive(Debug, PartialEq)]
pub struct MediaManifestResponse {
    pub files: Vec<MediaDownloadItem>,
    pub file_count: i32,
    pub expires_at: String,
}

/// An SVG file that is to be made harmless.
#[derive(Debug, PartialEq)]
pub struct SvgFile {
    pub filename: String,
    pub content: String,
}

/// The request to make some SVG files harmless.
#[derive(Debug, PartialEq)]
pub struct SvgSanitizeRequest {
    pub svg_files: Vec<SvgFile>,
}

/// A harmless SVG file and the hash of its content.
#[derive(Debug, PartialEq)]
pub struct SanitizedSvgItem {
    pub content: String,
    pub filename: String,
    pub hash: String,
}

/// The SVG files of a request that could be made harmless.
#[derive(Debug, PartialEq)]
pub struct SvgSanitizeResponse {
    pub sanitized_files: Vec<SanitizedSvgItem>,
}

/// A number is known by the text of each row, and it is that of the last row with this text; by any
/// other text no number is known.
pub proof fn law_the_last_row_of_a_name_counts(rows: Seq<NamedId>, name: Seq<char>, i: int)
    requires
        0 <= i < rows.len() ==> rows[i].name@ == name,
        i < rows.len(),
        forall|j: int| 0 <= j < rows.len() && i < j ==> (#[trigger] rows[j]).name@ != name,
    ensures
        ids_by_name(rows).contains_key(name) == (0 <= i),
        0 <= i ==> ids_by_name(rows)[name] == rows[i].id,
    decreases rows.len(),
{
    if rows.len() > 0 && i < rows.len() - 1 {
        let shorter = rows.drop_last();
        assert forall|j: int| 0 <= j < shorter.len() implies #[trigger] shorter[j] == rows[j] by {}
        assert(rows[rows.len() - 1].name@ != name);
        law_the_last_row_of_a_name_counts(shorter, name, i);
    }
}

impl GDriveInfo {
    /// Of blank data there is one kind only: where two are blank, they are alike in every text.
    pub proof fn law_blank_data_are_alike(self, other: GDriveInfo)
        requires
            self.is_blank(),
            other.is_blank(),
        ensures
            ({
                let a = self.service_account;
                let b = other.service_account;
                &&& a.account_type@ == b.account_type@
                &&& a.project_id@ == b.project_id@
                &&& a.private_key_id@ == b.private_key_id@
                &&& a.private_key@ == b.private_key@
                &&& a.client_email@ == b.client_email@
                &&& a.client_id@ == b.client_id@
                &&& a.auth_uri@ == b.auth_uri@
                &&& a.token_uri@ == b.token_uri@
                &&& a.auth_provider_x509_cert_url@ == b.auth_provider_x509_cert_url@
                &&& a.client_x509_cert_url@ == b.client_x509_cert_url@
                &&& self.folder_id@ == other.folder_id@
                &&& self.folder_id@ == Seq::<char>::empty()
            }),
    {
        let a = self.service_account;
        let b = other.service_account;
        assert(a.account_type@ =~= b.account_type@);
        assert(a.project_id@ =~= b.project_id@);
        assert(a.private_key_id@ =~= b.private_key_id@);
        assert(a.private_key@ =~= b.private_key@);
        assert(a.client_email@ =~= b.client_email@);
        assert(a.client_id@ =~= b.client_id@);
        assert(a.auth_uri@ =~= b.auth_uri@);
        assert(a.token_uri@ =~= b.token_uri@);
        assert(a.auth_provider_x509_cert_url@ =~= b.auth_provider_x509_cert_url@);
        assert(a.client_x509_cert_url@ =~= b.client_x509_cert_url@);
        assert(self.folder_id@ =~= other.folder_id@);
    }
}

} // verus!
