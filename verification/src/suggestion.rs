//! Suggestions of changes to a deck.
use vstd::prelude::*;

use crate::deck_import;
use crate::outside;
use crate::push::NotetypeCache;
use crate::structs::{AnkiDeck, Note, Notetype};
use crate::text;

verus! {

/// The pattern of a tag that only some decks have; the group names what the decks choose by.
pub const OPTIONAL_TAG_PATTERN: &'static str =
    r"AnkiCollab_Optional::(?P<tag_group>[^:]+)(::(?P<subtag>[^:]+))?";

/// The pattern of what clients append to the names of decks.
pub const SUFFIX_PATTERN: &'static str = r"\s?\(AnkiCollab\)(_\d+)?";

/// The group that a tag names, given what a search for one in the tag found.
pub open spec fn group_found(found: Result<Option<Option<Seq<char>>>, Seq<char>>) -> Result<
    Option<Seq<char>>,
    Seq<char>,
> {
    match found {
        Ok(Some(group)) => Ok(group),
        Ok(None) => Ok(None),
        Err(e) => Err(e),
    }
}

/// The group that a tag names, which a deck must have for the tag to be valid. A tag that names
/// none is not valid.
pub fn optional_tag_group(tag: &str) -> (r: Result<Option<String>, String>)
    ensures
        match r {
            Ok(group) => group_found(
                outside::regex_first_group(OPTIONAL_TAG_PATTERN@, tag@, "tag_group"@),
            ) == Ok::<Option<Seq<char>>, Seq<char>>(outside::option_text(group)),
            Err(e) => group_found(
                outside::regex_first_group(OPTIONAL_TAG_PATTERN@, tag@, "tag_group"@),
            ) == Err::<Option<Seq<char>>, Seq<char>>(e@),
        },
        r matches Ok(Some(group)) ==> text::is_part_of(group@, tag@),
{
    let found = outside::regex_first_capture(OPTIONAL_TAG_PATTERN, tag, "tag_group");
    captured_group(found)
}

/// The group that was found in a tag.
pub fn captured_group(found: Result<Option<Option<String>>, String>) -> (r: Result<
    Option<String>,
    String,
>)
    ensures
        match found {
            Ok(Some(group)) => r == Ok::<Option<String>, String>(group),
            Ok(None) => r == Ok::<Option<String>, String>(None),
            Err(e) => r == Err::<Option<String>, String>(e),
        },
{
    match found {
        Ok(Some(group)) => Ok(group),
        Ok(None) => Ok(None),
        Err(e) => Err(e),
    }
}

/// The topmost deck of a note; an error where there is none.
pub fn topmost_deck(id: Option<i64>) -> (r: Result<i64, String>)
    ensures
        match r {
            Ok(n) => id == Some(n),
            Err(e) => id is None && e@ == "No deck found for note"@,
        },
{
    match id {
        Some(n) => Ok(n),
        None => Err("No deck found for note".to_owned()),
    }
}

/// Which tags a note gets, and which it loses.
#[derive(Debug, PartialEq)]
pub struct TagChanges {
    pub added: Vec<String>,
    pub removed: Vec<String>,
}

/// Those of the texts of a list that are not in another one.
pub open spec fn not_in(list: Seq<String>, other: Seq<String>) -> Seq<String> {
    list.filter(|s: String| !text::texts(other).contains(s@))
}

fn texts_not_in(list: &Vec<String>, other: &Vec<String>) -> (r: Vec<String>)
    ensures
        r@ == not_in(list@, other@),
{
    let mut out: Vec<String> = Vec::new();
    let ghost absent = |s: String| !text::texts(other@).contains(s@);
    let mut i: usize = 0;
    reveal(Seq::filter);
    while i < list.len()
        invariant
            i <= list@.len(),
            absent == (|s: String| !text::texts(other@).contains(s@)),
            out@ == list@.take(i as int).filter(absent),
        decreases list@.len() - i,
    {
        proof {
            assert(list@.take(i + 1) =~= list@.take(i as int).push(list@[i as int]));
            list@.take(i as int).lemma_filter_push(list@[i as int], absent);
        }
        if !text::is_in(other, list[i].as_str()) {
            out.push(list[i].clone());
        }
        i += 1;
    }
    assert(list@.take(list@.len() as int) =~= list@);
    out
}

/// Which tags a note gets, and which it loses, when its old tags are to become the new ones.
pub fn tag_changes(old_tags: &Vec<String>, new_tags: &Vec<String>) -> (r: TagChanges)
    ensures
        r.added@ == not_in(new_tags@, old_tags@),
        r.removed@ == not_in(old_tags@, new_tags@),
{
    TagChanges {
        added: texts_not_in(new_tags, old_tags),
        removed: texts_not_in(old_tags, new_tags),
    }
}

/// What is left when the texts of a list that are in another one are left out.
proof fn lemma_not_in(list: Seq<String>, other: Seq<String>)
    ensures
        text::texts(not_in(list, other)).to_set() == text::texts(list).to_set().difference(
            text::texts(other).to_set(),
        ),
    decreases list.len(),
{
    let absent = |s: String| !text::texts(other).contains(s@);
    reveal(Seq::filter);
    if list.len() == 0 {
        assert(text::texts(not_in(list, other)).to_set() =~= text::texts(
            list,
        ).to_set().difference(text::texts(other).to_set()));
    } else {
        let shorter = list.drop_last();
        let last = list.last();
        lemma_not_in(shorter, other);
        let left = text::texts(not_in(shorter, other));
        assert(text::texts(list) =~= text::texts(shorter).push(last@));
        assert(absent(last) ==> text::texts(not_in(list, other)) =~= left.push(last@));
        assert(!absent(last) ==> not_in(list, other) =~= not_in(shorter, other));
        assert forall|x: Seq<char>| #[trigger] text::texts(not_in(list, other)).to_set().contains(
            x,
        ) <==> text::texts(list).to_set().difference(text::texts(other).to_set()).contains(x) by {
            vstd::seq_lib::lemma_seq_contains_after_push(text::texts(shorter), last@, x);
            vstd::seq_lib::lemma_seq_contains_after_push(left, last@, x);
            assert(left.to_set().contains(x) <==> text::texts(shorter).to_set().difference(
                text::texts(other).to_set(),
            ).contains(x));
        }
        assert(text::texts(not_in(list, other)).to_set() =~= text::texts(
            list,
        ).to_set().difference(text::texts(other).to_set()));
    }
}

/// Old tags without those that a note loses, and with those that it gets, are the new tags.
pub proof fn law_tag_changes_lead_to_the_new_tags(old_tags: Seq<String>, new_tags: Seq<String>)
    ensures
        text::texts(old_tags).to_set().difference(
            text::texts(not_in(old_tags, new_tags)).to_set(),
        ).union(text::texts(not_in(new_tags, old_tags)).to_set()) == text::texts(
            new_tags,
        ).to_set(),
{
    lemma_not_in(old_tags, new_tags);
    lemma_not_in(new_tags, old_tags);
    assert(text::texts(old_tags).to_set().difference(
        text::texts(not_in(old_tags, new_tags)).to_set(),
    ).union(text::texts(not_in(new_tags, old_tags)).to_set()) =~= text::texts(new_tags).to_set());
}

/// A change to a field of a note.
#[derive(Debug, PartialEq)]
pub enum FieldChange {
    /// The field goes.
    Remove { position: u32 },
    /// The content is added, next to another one that may be there.
    Add { position: u32, content: String },
    /// The content takes the place of another one that may be there.
    Replace { position: u32, content: String },
}

/// A change to a field of a note.
pub enum Change {
    Remove { position: u32 },
    Add { position: u32, content: Seq<char> },
    Replace { position: u32, content: Seq<char> },
}

/// What a change stands for.
pub open spec fn change_of(c: FieldChange) -> Change {
    match c {
        FieldChange::Remove { position } => Change::Remove { position },
        FieldChange::Add { position, content } => Change::Add { position, content: content@ },
        FieldChange::Replace { position, content } => Change::Replace {
            position,
            content: content@,
        },
    }
}

/// What the changes stand for.
pub open spec fn changes_of(list: Seq<FieldChange>) -> Seq<Change> {
    list.map_values(|c: FieldChange| change_of(c))
}

/// The changes that overwrite the fields of a note: an empty field goes, any other one takes the
/// place of what is there, with its content cleaned.
pub open spec fn overwriting(fields: Seq<String>, cleaned: Seq<Seq<char>>) -> Seq<Change> {
    Seq::new(
        fields.len(),
        |i: int|
            if fields[i]@.len() == 0 {
                Change::Remove { position: i as u32 }
            } else {
                Change::Replace { position: i as u32, content: cleaned[i] }
            },
    )
}

/// The changes to the fields of a note that is not reviewed yet: an empty field goes, one that is
/// there takes on the new content, and one that is not there is added.
pub open spec fn revising(
    fields: Seq<String>,
    cleaned: Seq<Seq<char>>,
    present: Seq<bool>,
) -> Seq<Change> {
    Seq::new(
        fields.len(),
        |i: int|
            if fields[i]@.len() == 0 {
                Change::Remove { position: i as u32 }
            } else if present[i] {
                Change::Replace { position: i as u32, content: cleaned[i] }
            } else {
                Change::Add { position: i as u32, content: cleaned[i] }
            },
    )
}

/// The changes that are suggested for the first `n` fields of a reviewed note: each field that is
/// not empty, or that is there, is added.
pub open spec fn suggesting(
    fields: Seq<String>,
    cleaned: Seq<Seq<char>>,
    present: Seq<bool>,
    n: int,
) -> Seq<Change>
    decreases n,
{
    if n <= 0 {
        Seq::empty()
    } else {
        let before = suggesting(fields, cleaned, present, n - 1);
        if fields[n - 1]@.len() > 0 || present[n - 1] {
            before.push(
                Change::Add { position: (n - 1) as u32, content: cleaned[n - 1] },
            )
        } else {
            before
        }
    }
}

/// The changes that overwrite the fields of a note.
pub fn overwrite_fields(fields: &Vec<String>, cleaned: &Vec<String>) -> (r: Vec<FieldChange>)
    requires
        cleaned@.len() == fields@.len(),
    ensures
        changes_of(r@) == overwriting(fields@, text::texts(cleaned@)),
{
    let mut out: Vec<FieldChange> = Vec::new();
    let mut i: usize = 0;
    while i < fields.len()
        invariant
            i <= fields@.len(),
            cleaned@.len() == fields@.len(),
            changes_of(out@) == overwriting(fields@, text::texts(cleaned@)).take(i as int),
        decreases fields@.len() - i,
    {
        let ghost before = out@;
        let position: u32 = i as u32;
        let change = if fields[i].as_str().is_empty() {
            FieldChange::Remove { position }
        } else {
            FieldChange::Replace { position, content: cleaned[i].clone() }
        };
        out.push(change);
        assert(changes_of(out@) =~= changes_of(before).push(change_of(change)));
        assert(changes_of(out@) =~= overwriting(fields@, text::texts(cleaned@)).take(i + 1));
        i += 1;
    }
    assert(overwriting(fields@, text::texts(cleaned@)).take(fields@.len() as int) =~= overwriting(
        fields@,
        text::texts(cleaned@),
    ));
    out
}

/// The changes to the fields of a note that is not reviewed yet.
pub fn revise_fields(fields: &Vec<String>, cleaned: &Vec<String>, present: &Vec<bool>) -> (r: Vec<
    FieldChange,
>)
    requires
        cleaned@.len() == fields@.len(),
        present@.len() == fields@.len(),
    ensures
        changes_of(r@) == revising(fields@, text::texts(cleaned@), present@),
{
    let mut out: Vec<FieldChange> = Vec::new();
    let mut i: usize = 0;
    while i < fields.len()
        invariant
            i <= fields@.len(),
            cleaned@.len() == fields@.len(),
            present@.len() == fields@.len(),
            changes_of(out@) == revising(fields@, text::texts(cleaned@), present@).take(i as int),
        decreases fields@.len() - i,
    {
        let ghost before = out@;
        let position: u32 = i as u32;
        let change = if fields[i].as_str().is_empty() {
            FieldChange::Remove { position }
        } else if present[i] {
            FieldChange::Replace { position, content: cleaned[i].clone() }
        } else {
            FieldChange::Add { position, content: cleaned[i].clone() }
        };
        out.push(change);
        assert(changes_of(out@) =~= changes_of(before).push(change_of(change)));
        assert(changes_of(out@) =~= revising(fields@, text::texts(cleaned@), present@).take(i + 1));
        i += 1;
    }
    assert(revising(fields@, text::texts(cleaned@), present@).take(fields@.len() as int) =~= revising(
        fields@,
        text::texts(cleaned@),
        present@,
    ));
    out
}

/// The changes that are suggested for the fields of a reviewed note.
pub fn suggest_fields(fields: &Vec<String>, cleaned: &Vec<String>, present: &Vec<bool>) -> (r: Vec<
    FieldChange,
>)
    requires
        cleaned@.len() == fields@.len(),
        present@.len() == fields@.len(),
    ensures
        changes_of(r@) == suggesting(fields@, text::texts(cleaned@), present@, fields@.len() as int),
{
    let mut out: Vec<FieldChange> = Vec::new();
    let mut i: usize = 0;
    assert(changes_of(out@) =~= Seq::empty());
    while i < fields.len()
        invariant
            i <= fields@.len(),
            cleaned@.len() == fields@.len(),
            present@.len() == fields@.len(),
            changes_of(out@) == suggesting(fields@, text::texts(cleaned@), present@, i as int),
        decreases fields@.len() - i,
    {
        if !fields[i].as_str().is_empty() || present[i] {
            let ghost before = out@;
            let change = FieldChange::Add { position: i as u32, content: cleaned[i].clone() };
            out.push(change);
            assert(changes_of(out@) =~= changes_of(before).push(change_of(change)));
        }
        i += 1;
    }
    out
}

/// How the tags of a note change.
#[derive(Clone, Copy, Debug, PartialEq, Eq, Structural)]
pub enum TagHandling {
    /// The changes are suggested with a commit.
    Suggest { commit: i32 },
    /// The changes are made with a commit, to the tags that are reviewed or to those that are not.
    Force { commit: i32, reviewed: bool },
}

/// What becomes of the tags that a note loses.
#[derive(Clone, Copy, Debug, PartialEq, Eq, Structural)]
pub enum TagRemoval {
    /// That they go is suggested.
    Suggest,
    /// They are deleted.
    Delete,
}

/// How the tags of a note come to be the new ones: which are added and whether these count as
/// reviewed, which go and how, and with which commit.
#[derive(Debug, PartialEq)]
pub struct TagPlan {
    pub added: Vec<String>,
    pub reviewed: bool,
    pub removed: Vec<String>,
    pub removal: TagRemoval,
    pub commit: i32,
}

impl TagHandling {
    /// The new tags are compared with those old ones that are reviewed, or with those that are
    /// not.
    pub open spec fn is_of_reviewed(self) -> bool {
        match self {
            TagHandling::Suggest { .. } => true,
            TagHandling::Force { reviewed, .. } => reviewed,
        }
    }

    /// The tags that are added count as reviewed.
    pub open spec fn adds_reviewed(self) -> bool {
        match self {
            TagHandling::Suggest { .. } => false,
            TagHandling::Force { reviewed, .. } => reviewed,
        }
    }

    /// What becomes of the tags that go.
    pub open spec fn removal(self) -> TagRemoval {
        match self {
            TagHandling::Suggest { .. } => TagRemoval::Suggest,
            TagHandling::Force { .. } => TagRemoval::Delete,
        }
    }

    /// The commit with which the tags change.
    pub open spec fn commit(self) -> i32 {
        match self {
            TagHandling::Suggest { commit } => commit,
            TagHandling::Force { commit, .. } => commit,
        }
    }

    /// Whether the new tags are compared with the old ones that are reviewed, or with the others.
    pub fn compares_reviewed(&self) -> (r: bool)
        ensures
            r == self.is_of_reviewed(),
    {
        match self {
            TagHandling::Suggest { .. } => true,
            TagHandling::Force { reviewed, .. } => *reviewed,
        }
    }
}

/// How tags are stored, given those that are added and those that go, both cleaned.
pub fn tag_plan(added: Vec<String>, removed: Vec<String>, handling: TagHandling) -> (r: TagPlan)
    ensures
        r.added == added,
        r.reviewed == handling.adds_reviewed(),
        r.removed == removed,
        r.removal == handling.removal(),
        r.commit == handling.commit(),
{
    match handling {
        TagHandling::Suggest { commit } => TagPlan {
            added,
            reviewed: false,
            removed,
            removal: TagRemoval::Suggest,
            commit,
        },
        TagHandling::Force { commit, reviewed } => TagPlan {
            added,
            reviewed,
            removed,
            removal: TagRemoval::Delete,
            commit,
        },
    }
}

/// How the old tags of a note come to be the new ones. `approved` says of each tag that the note
/// gets whether it is stored; one that is not is left out. The tags of the plan are cleaned.
pub fn plan_tag_changes(
    old_tags: &Vec<String>,
    new_tags: &Vec<String>,
    approved: &Vec<bool>,
    handling: TagHandling,
) -> (r: TagPlan)
    requires
        approved@.len() == not_in(new_tags@, old_tags@).len(),
    ensures
        text::texts(r.added@) == cleaned_texts(
            crate::push::approved_tags(
                not_in(new_tags@, old_tags@),
                approved@,
                approved@.len() as int,
            ),
        ),
        r.reviewed == handling.adds_reviewed(),
        text::texts(r.removed@) == cleaned_texts(text::texts(not_in(old_tags@, new_tags@))),
        r.removal == handling.removal(),
        r.commit == handling.commit(),
{
    let changes = tag_changes(old_tags, new_tags);
    let added = crate::push::keep_approved(&changes.added, approved);
    tag_plan(clean_fields(&added), clean_fields(&changes.removed), handling)
}

/// Where all tags that a note gets are approved, its old tags without those that go, and with those
/// that are added, are the new tags, before any of them is cleaned.
pub proof fn law_planned_tags_are_the_new_tags(
    old_tags: Seq<String>,
    new_tags: Seq<String>,
    approved: Seq<bool>,
)
    requires
        approved.len() == not_in(new_tags, old_tags).len(),
        forall|i: int| 0 <= i < approved.len() ==> #[trigger] approved[i],
    ensures
        text::texts(old_tags).to_set().difference(
            text::texts(not_in(old_tags, new_tags)).to_set(),
        ).union(
            crate::push::approved_tags(
                not_in(new_tags, old_tags),
                approved,
                approved.len() as int,
            ).to_set(),
        ) == text::texts(new_tags).to_set(),
{
    let added = not_in(new_tags, old_tags);
    crate::push::law_approved_tags_are_all_stored(added, approved, approved.len() as int);
    assert(text::texts(added).take(added.len() as int) =~= text::texts(added));
    law_tag_changes_lead_to_the_new_tags(old_tags, new_tags);
}

/// Texts, cleaned.
pub open spec fn cleaned_texts(list: Seq<Seq<char>>) -> Seq<Seq<char>> {
    list.map_values(|s: Seq<char>| outside::sanitized_html(s))
}

/// The texts of fields or tags, cleaned.
pub fn clean_fields(fields: &Vec<String>) -> (r: Vec<String>)
    ensures
        text::texts(r@) == cleaned_texts(text::texts(fields@)),
        r@.len() == fields@.len(),
{
    let mut out: Vec<String> = Vec::new();
    let mut i: usize = 0;
    while i < fields.len()
        invariant
            i <= fields@.len(),
            text::texts(out@) == cleaned_texts(text::texts(fields@).take(i as int)),
        decreases fields@.len() - i,
    {
        let ghost before = out@;
        let cleaned = outside::sanitize_html(fields[i].as_str());
        out.push(cleaned);
        assert(text::texts(out@) =~= text::texts(before).push(cleaned@));
        assert(text::texts(out@) =~= cleaned_texts(text::texts(fields@).take(i + 1)));
        i += 1;
    }
    assert(text::texts(fields@).take(fields@.len() as int) =~= text::texts(fields@));
    assert(text::texts(out@).len() == out@.len());
    out
}

/// What becomes of the place of a note.
#[derive(Clone, Copy, Debug, PartialEq, Eq, Structural)]
pub enum NoteMove {
    /// It stays.
    Stay,
    /// It moves to the new deck.
    Move,
    /// The move is suggested.
    Suggest,
}

/// What is done to a note that the database knows.
#[derive(Debug, PartialEq)]
pub struct NoteUpdate {
    pub fields: Vec<FieldChange>,
    pub tags: TagHandling,
    pub location: NoteMove,
    pub message: String,
}

/// What is done to overwrite a note; an error where there is none, or where it was deleted.
/// The contents of the fields are cleaned.
pub fn overwrite_note(
    found: bool,
    note: &Note,
    note_id: i64,
    commit: i32,
    new_deck: i64,
    old_deck: i64,
) -> (r: Result<NoteUpdate, String>)
    ensures
        match r {
            Err(e) => !found && e@ == "note not found or deleted"@,
            Ok(update) => {
                &&& found
                &&& changes_of(update.fields@) == overwriting(
                    note.fields@,
                    cleaned_texts(text::texts(note.fields@)),
                )
                &&& update.tags == (TagHandling::Force { commit, reviewed: true })
                &&& update.location == if new_deck != old_deck {
                    NoteMove::Move
                } else {
                    NoteMove::Stay
                }
                &&& update.message@ == "Updating the existing card "@ + text::signed_decimal(
                    note_id as int,
                ) + " with the new information!"@
            },
        },
{
    if !found {
        return Err("note not found or deleted".to_owned());
    }
    let number = text::signed_decimal_text(note_id);
    let mut message = text::joined("Updating the existing card ", number.as_str());
    message.append(" with the new information!");
    Ok(
        NoteUpdate {
            fields: overwrite_fields(&note.fields, &clean_fields(&note.fields)),
            tags: TagHandling::Force { commit, reviewed: true },
            location: if new_deck != old_deck {
                NoteMove::Move
            } else {
                NoteMove::Stay
            },
            message,
        },
    )
}

/// What is done to a note for which changes are suggested; an error where there is none, or where
/// it was deleted. `reviewed` says whether the note is reviewed, `present` which of its fields are
/// there, and `old_commit` with which commit its tags came, if any. A note that is not reviewed yet
/// is changed at once. The contents of the fields are cleaned.
pub fn update_note(
    reviewed: Option<bool>,
    note: &Note,
    present: &Vec<bool>,
    note_id: i64,
    commit: i32,
    old_commit: Option<i32>,
    new_deck: i64,
    old_deck: i64,
) -> (r: Result<NoteUpdate, String>)
    requires
        present@.len() == note.fields@.len(),
    ensures
        match r {
            Err(e) => reviewed is None && e@ == "note not found or deleted"@,
            Ok(update) => {
                &&& reviewed is Some
                &&& changes_of(update.fields@) == if reviewed == Some(true) {
                    suggesting(
                        note.fields@,
                        cleaned_texts(text::texts(note.fields@)),
                        present@,
                        note.fields@.len() as int,
                    )
                } else {
                    revising(
                        note.fields@,
                        cleaned_texts(text::texts(note.fields@)),
                        present@,
                    )
                }
                &&& update.tags == if reviewed == Some(true) {
                    TagHandling::Suggest { commit }
                } else {
                    TagHandling::Force {
                        commit: match old_commit {
                            Some(c) => c,
                            None => commit,
                        },
                        reviewed: false,
                    }
                }
                &&& update.location == if new_deck == old_deck {
                    NoteMove::Stay
                } else if reviewed == Some(true) {
                    NoteMove::Suggest
                } else {
                    NoteMove::Move
                }
                &&& update.message@ == "Suggested the new information to the existing card "@
                    + text::signed_decimal(note_id as int)
            },
        },
{
    let is_reviewed = match reviewed {
        None => {
            return Err("note not found or deleted".to_owned());
        },
        Some(is_reviewed) => is_reviewed,
    };
    let number = text::signed_decimal_text(note_id);
    let message = text::joined(
        "Suggested the new information to the existing card ",
        number.as_str(),
    );
    let cleaned = clean_fields(&note.fields);
    let fields = if is_reviewed {
        suggest_fields(&note.fields, &cleaned, present)
    } else {
        revise_fields(&note.fields, &cleaned, present)
    };
    let tags = if is_reviewed {
        TagHandling::Suggest { commit }
    } else {
        TagHandling::Force {
            commit: match old_commit {
                Some(c) => c,
                None => commit,
            },
            reviewed: false,
        }
    };
    let location = if new_deck == old_deck {
        NoteMove::Stay
    } else if is_reviewed {
        NoteMove::Suggest
    } else {
        NoteMove::Move
    };
    Ok(NoteUpdate { fields, tags, location, message })
}

/// Nothing of a reviewed note is removed or replaced by a suggestion.
pub proof fn law_suggestions_only_add(
    fields: Seq<String>,
    cleaned: Seq<Seq<char>>,
    present: Seq<bool>,
    n: int,
)
    requires
        0 <= n <= fields.len(),
    ensures
        forall|k: int|
            0 <= k < suggesting(fields, cleaned, present, n).len() ==> (#[trigger] suggesting(
                fields,
                cleaned,
                present,
                n,
            )[k]) is Add,
    decreases n,
{
    if n > 0 {
        law_suggestions_only_add(fields, cleaned, present, n - 1);
        let before = suggesting(fields, cleaned, present, n - 1);
        let after = suggesting(fields, cleaned, present, n);
        assert forall|k: int| 0 <= k < after.len() implies (#[trigger] after[k]) is Add by {
            if k < before.len() {
                assert(after[k] == before[k]);
            }
        }
    }
}

/// A path without what clients append to the names of decks, given what is left of it when that
/// is taken out; an error where nothing is left.
pub fn named_path(left: Result<String, String>) -> (r: Result<String, String>)
    ensures
        match left {
            Ok(path) => if path@.len() == 0 {
                r matches Err(e) && e@ == "Error occurred: Deckname is ill-formed."@
            } else {
                r == Ok::<String, String>(path)
            },
            Err(e) => r == Err::<String, String>(e),
        },
{
    match left {
        Err(e) => Err(e),
        Ok(path) => {
            if path.as_str().is_empty() {
                Err("Error occurred: Deckname is ill-formed.".to_owned())
            } else {
                Ok(path)
            }
        },
    }
}

/// What is left of a path without what clients append to the names of decks; an error where that
/// is nothing.
pub open spec fn without_suffix(path: Seq<char>) -> Result<Seq<char>, Seq<char>> {
    match outside::regex_replaced(SUFFIX_PATTERN@, path, ""@) {
        Ok(left) => if left.len() == 0 {
            Err("Error occurred: Deckname is ill-formed."@)
        } else {
            Ok(left)
        },
        Err(e) => Err(e),
    }
}

/// What is left of a path without what clients append to the names of decks.
pub fn remove_ankicollab_suffix(raw_deck_path: &str) -> (r: Result<String, String>)
    ensures
        match r {
            Ok(path) => without_suffix(raw_deck_path@) == Ok::<Seq<char>, Seq<char>>(path@),
            Err(e) => without_suffix(raw_deck_path@) == Err::<Seq<char>, Seq<char>>(e@),
        },
        r matches Ok(path) ==> path@.len() > 0 && exists|i: int, j: int|
            #![trigger raw_deck_path@.take(i), raw_deck_path@.skip(j)]
            0 <= i <= j <= raw_deck_path@.len() && path@ == raw_deck_path@.take(i)
                + raw_deck_path@.skip(j),
{
    proof {
        reveal_strlit("");
    }
    named_path(outside::regex_replace(SUFFIX_PATTERN, raw_deck_path, ""))
}

/// The name of a deck without what clients append to it; the name as it is where nothing would be
/// left of it.
pub open spec fn plain_name(name: Seq<char>) -> Seq<char> {
    match without_suffix(name) {
        Ok(left) => left,
        Err(_) => name,
    }
}

/// The deck is the other one with plain names, its own and those of all decks below it.
pub open spec fn has_plain_names(deck: AnkiDeck, other: AnkiDeck) -> bool
    decreases other,
{
    &&& deck.name@ == plain_name(other.name@)
    &&& deck.crowdanki_uuid == other.crowdanki_uuid
    &&& deck.desc == other.desc
    &&& deck.note_models == other.note_models
    &&& deck.notes == other.notes
    &&& deck.media_files == other.media_files
    &&& deck.children@.len() == other.children@.len()
    &&& forall|i: int|
        0 <= i < other.children@.len() ==> has_plain_names(
            deck.children@[i],
            #[trigger] other.children@[i],
        )
}

/// Gives a deck and all decks below it their plain names.
pub fn update_deck_names(deck: &mut AnkiDeck)
    ensures
        has_plain_names(*final(deck), *old(deck)),
    decreases *old(deck),
{
    if let Ok(name) = remove_ankicollab_suffix(deck.name.as_str()) {
        deck.name = name;
    }
    let total = deck.children.len();
    let mut i: usize = 0;
    while i < total
        invariant
            i <= total,
            total == deck.children@.len(),
            deck.name@ == plain_name(old(deck).name@),
            deck.crowdanki_uuid == old(deck).crowdanki_uuid,
            deck.desc == old(deck).desc,
            deck.note_models == old(deck).note_models,
            deck.notes == old(deck).notes,
            deck.media_files == old(deck).media_files,
            deck.children@.len() == old(deck).children@.len(),
            forall|j: int|
                0 <= j < i ==> has_plain_names(
                    deck.children@[j],
                    #[trigger] old(deck).children@[j],
                ),
            forall|j: int|
                i <= j < total ==> deck.children@[j] == #[trigger] old(deck).children@[j],
        decreases total - i,
    {
        assert(deck.children@[i as int] == old(deck).children@[i as int]);
        assert(decreases_to!(*old(deck) => old(deck).children@[i as int]));
        update_deck_names(&mut deck.children[i]);
        i += 1;
    }
}

/// The name of the deck of a hash; an error where there is none.
pub fn original_name(name: Option<String>) -> (r: Result<String, String>)
    ensures
        match r {
            Ok(n) => name == Some(n),
            Err(e) => name is None && e@ == "Deck not found"@,
        },
{
    match name {
        Some(n) => Ok(n),
        None => Err("Deck not found".to_owned()),
    }
}

/// The path of a deck as the database has it: a plain path in which the first occurrence of the
/// name that the user gave the deck is replaced by its own name.
pub fn fix_deck_name(raw_deck_path: &str, alternate_name: &str, name: Option<String>) -> (r: Result<
    String,
    String,
>)
    ensures
        match without_suffix(raw_deck_path@) {
            Err(e) => r matches Err(f) && f@ == e,
            Ok(path) => match name {
                None => r matches Err(f) && f@ == "Deck not found"@,
                Some(n) => r matches Ok(fixed) && fixed@ == text::replaced_first(
                    path,
                    alternate_name@,
                    n@,
                ),
            },
        },
{
    match remove_ankicollab_suffix(raw_deck_path) {
        Err(e) => Err(e),
        Ok(path) => match original_name(name) {
            Err(e) => Err(e),
            Ok(n) => Ok(text::replace_first(path.as_str(), alternate_name, n.as_str())),
        },
    }
}

/// What is stored as the text of a commit.
pub fn commit_info(commit_text: &str) -> (r: String)
    ensures
        r@ == outside::sanitized_html(commit_text@),
{
    outside::sanitize_html(commit_text)
}

/// The path of the deck above that of a path: the path up to its last separator.
pub open spec fn path_above(path: Seq<char>) -> Seq<char> {
    let parts = text::pieces(path, "::"@);
    text::interleaved(parts.drop_last(), "::"@)
}

/// The path of the deck above that of a path.
pub fn parent_path(deck_path: &str) -> (r: String)
    ensures
        r@ == path_above(deck_path@),
{
    proof {
        reveal_strlit("::");
    }
    let layers = text::split_text(deck_path, "::");
    let count: usize = layers.len() - 1;
    assert(text::texts(layers@).take(count as int) =~= text::texts(layers@).drop_last());
    text::join_first(&layers, count, "::")
}

/// The deck above a subdeck is the one in whose path the name of the subdeck was appended, where
/// that path does not end in a colon and the name holds no separator.
pub proof fn law_above_a_subdeck_is_its_deck(path: Seq<char>, name: Seq<char>)
    requires
        path.len() == 0 || path.last() != ':',
        !text::is_part_of("::"@, name),
    ensures
        path_above(deck_import::subdeck_path(path, name)) == path,
{
    assert("::"@ =~= seq![':', ':']) by {
        reveal_strlit("::");
    }
    text::law_appended_piece_is_the_last(path, ':', name);
    text::law_pieces_make_up_the_text(path, seq![':', ':']);
    let parts = text::pieces(path, seq![':', ':']);
    assert(parts.push(name).drop_last() =~= parts);
}

/// What is known of the path of a deck.
#[derive(Clone, Copy, Debug, PartialEq, Eq, Structural)]
pub struct PathLookup {
    /// The number of the deck of the path.
    pub deck_id: Option<i64>,
    /// The owner of the topmost deck.
    pub owner: Option<i32>,
    /// The number of the deck above.
    pub parent_id: Option<i64>,
}

/// Where notes for the deck of a path go: into that deck, or into a new one below the deck above
/// it, which the owner of the topmost deck will own.
pub fn sanity_check(deck_path: &str, lookup: PathLookup) -> (r: Result<(Option<i64>, i32), String>)
    ensures
        match lookup.deck_id {
            Some(id) => r == Ok::<(Option<i64>, i32), String>((Some(id), 0)),
            None => if path_above(deck_path@).len() == 0 || lookup.owner is None {
                r matches Err(e) && e@ == "Deck does not exist"@
            } else {
                match lookup.parent_id {
                    None => r matches Err(e) && e@ == "Parent Deck does not exist"@,
                    Some(id) => r == Ok::<(Option<i64>, i32), String>((Some(id), lookup.owner->0)),
                }
            },
        },
{
    match lookup.deck_id {
        Some(id) => Ok((Some(id), 0)),
        None => {
            let above = parent_path(deck_path);
            if above.as_str().is_empty() {
                return Err("Deck does not exist".to_owned());
            }
            match lookup.owner {
                None => Err("Deck does not exist".to_owned()),
                Some(owner) => match lookup.parent_id {
                    None => Err("Parent Deck does not exist".to_owned()),
                    Some(id) => Ok((Some(id), owner)),
                },
            }
        },
    }
}

/// What is known of a deck for which notetypes are suggested.
#[derive(Clone, Copy, Debug, PartialEq, Eq, Structural)]
pub struct NotetypeRule {
    pub owner: i32,
    /// Only notetypes that the owner has may be used.
    pub restricted: bool,
}

/// Among whose notetypes those of a suggestion must be found; nobody's where the deck takes any
/// notetype. There must be such a deck.
pub fn sanity_check_notetypes(rule: Option<NotetypeRule>) -> (r: Result<Option<i32>, String>)
    ensures
        match rule {
            None => r matches Err(e) && e@ == "Deck does not exist"@,
            Some(n) => r == Ok::<Option<i32>, String>(
                if n.restricted {
                    Some(n.owner)
                } else {
                    None
                },
            ),
        },
{
    match rule {
        None => Err("Deck does not exist".to_owned()),
        Some(n) => {
            if n.restricted {
                Ok(Some(n.owner))
            } else {
                Ok(None)
            }
        },
    }
}

/// The guid of the stored notetype for one of a suggestion; where there is none, the suggestion is
/// refused with the guid under which the client knows it.
pub fn permitted_notetype(uuid: &str, existing_guid: String) -> (r: Result<String, String>)
    ensures
        match r {
            Ok(guid) => existing_guid@.len() > 0 && guid == existing_guid,
            Err(e) => existing_guid@.len() == 0 && e@ == uuid@,
        },
{
    if existing_guid.as_str().is_empty() {
        Err(uuid.to_owned())
    } else {
        Ok(existing_guid)
    }
}

/// The notetypes that a deck holds itself.
pub open spec fn own_models(deck: AnkiDeck) -> Seq<Notetype> {
    match deck.note_models {
        Some(models) => models@,
        None => Seq::empty(),
    }
}

/// The notetypes of a deck and of all decks below it, each deck before those below it.
pub open spec fn models_within(deck: AnkiDeck) -> Seq<Notetype>
    decreases deck,
{
    own_models(deck) + models_within_all(deck.children@)
}

/// The notetypes of some decks and of all decks below them.
pub open spec fn models_within_all(decks: Seq<AnkiDeck>) -> Seq<Notetype>
    decreases decks,
{
    if decks.len() == 0 {
        Seq::empty()
    } else {
        models_within(decks[0]) + models_within_all(decks.skip(1))
    }
}

/// The notetypes that are referred to.
pub open spec fn referred(list: Seq<&Notetype>) -> Seq<Notetype> {
    list.map_values(|m: &Notetype| *m)
}

/// Appends the notetypes of a deck and of all decks below it.
fn append_models<'a>(list: &mut Vec<&'a Notetype>, deck: &'a AnkiDeck)
    ensures
        referred(final(list)@) == referred(old(list)@) + models_within(*deck),
    decreases deck,
{
    let ghost before = referred(list@);
    if let Some(models) = &deck.note_models {
        let mut j: usize = 0;
        while j < models.len()
            invariant
                j <= models@.len(),
                referred(list@) == before + models@.take(j as int),
            decreases models@.len() - j,
        {
            let ghost so_far = list@;
            list.push(&models[j]);
            assert(referred(list@) =~= referred(so_far).push(models@[j as int]));
            assert(models@.take(j + 1) =~= models@.take(j as int).push(models@[j as int]));
            assert(referred(list@) =~= before + models@.take(j + 1));
            j += 1;
        }
        assert(models@.take(models@.len() as int) =~= models@);
    }
    assert(referred(list@) =~= before + own_models(*deck));
    let ghost children = deck.children@;
    let ghost whole = before + models_within(*deck);
    let mut i: usize = 0;
    proof {
        assert(children.skip(0) =~= children);
        assert(referred(list@) + models_within_all(children.skip(0)) =~= whole);
    }
    while i < deck.children.len()
        invariant
            i <= deck.children@.len(),
            children == deck.children@,
            referred(list@) + models_within_all(children.skip(i as int)) == whole,
        decreases deck.children@.len() - i,
    {
        let child = &deck.children[i];
        let ghost so_far = referred(list@);
        proof {
            assert(children.skip(i as int)[0] == *child);
            assert(children.skip(i as int).skip(1) =~= children.skip(i + 1));
            assert(decreases_to!(deck => deck.children@[i as int]));
        }
        append_models(list, child);
        assert(so_far + (models_within(*child) + models_within_all(children.skip(i + 1)))
            =~= so_far + models_within(*child) + models_within_all(children.skip(i + 1)));
        i += 1;
    }
    assert(children.skip(children.len() as int) =~= Seq::<AnkiDeck>::empty());
    assert(referred(list@) =~= whole);
}

/// The check of the notetypes of a suggestion, for a deck that takes only notetypes that its owner
/// has.
pub struct NotetypeCheck<'a> {
    pub models: Vec<&'a Notetype>,
    pub at: usize,
}

impl<'a> NotetypeCheck<'a> {
    /// The notetypes up to the place of the check are known.
    pub open spec fn wf(self, cache: Map<Seq<char>, Seq<char>>) -> bool {
        &&& self.at <= self.models@.len()
        &&& forall|i: int|
            0 <= i < self.at ==> cache.contains_key((#[trigger] self.models@[i]).crowdanki_uuid@)
    }

    /// The check of the notetypes of a deck and of all decks below it.
    pub fn new(deck: &'a AnkiDeck) -> (r: Self)
        ensures
            referred(r.models@) == models_within(*deck),
            r.at == 0,
            forall|cache: Map<Seq<char>, Seq<char>>| #[trigger] r.wf(cache),
    {
        let mut models: Vec<&'a Notetype> = Vec::new();
        assert(referred(models@) =~= Seq::empty());
        append_models(&mut models, deck);
        assert(referred(models@) =~= models_within(*deck));
        NotetypeCheck { models, at: 0 }
    }

    /// The next notetype for which the owner's is to be found; none when all notetypes are known.
    pub fn next(&mut self, cache: &NotetypeCache) -> (r: Option<&'a Notetype>)
        requires
            old(self).wf(cache@),
        ensures
            final(self).wf(cache@),
            final(self).models == old(self).models,
            final(self).at >= old(self).at,
            match r {
                Some(model) => {
                    &&& final(self).at < final(self).models@.len()
                    &&& *model == *final(self).models@[final(self).at as int]
                    &&& !cache@.contains_key(model.crowdanki_uuid@)
                },
                None => forall|i: int|
                    0 <= i < final(self).models@.len() ==> cache@.contains_key(
                        (#[trigger] final(self).models@[i]).crowdanki_uuid@,
                    ),
            },
    {
        while self.at < self.models.len()
            invariant
                self.wf(cache@),
                self.models == old(self).models,
                self.at >= old(self).at,
            decreases self.models@.len() - self.at,
        {
            let model: &'a Notetype = self.models[self.at];
            if cache.get(model.crowdanki_uuid.as_str()).is_none() {
                return Some(model);
            }
            self.at = self.at + 1;
        }
        None
    }

    /// Takes the guid of the owner's notetype for the one at the place of the check, which is
    /// known from then on; where there is none, the suggestion is refused with the guid under
    /// which the client knows it.
    pub fn on_existing(&mut self, cache: &mut NotetypeCache, existing_guid: String) -> (r: Result<
        (),
        String,
    >)
        requires
            old(self).wf(old(cache)@),
            old(self).at < old(self).models@.len(),
        ensures
            final(self).wf(final(cache)@),
            final(self).models == old(self).models,
            ({
                let uuid = old(self).models@[old(self).at as int].crowdanki_uuid@;
                match r {
                    Ok(()) => {
                        &&& existing_guid@.len() > 0
                        &&& final(cache)@ == old(cache)@.insert(uuid, existing_guid@)
                        &&& final(self).at == old(self).at + 1
                    },
                    Err(e) => {
                        &&& existing_guid@.len() == 0
                        &&& e@ == uuid
                        &&& final(cache)@ == old(cache)@
                        &&& final(self).at == old(self).at
                    },
                }
            }),
    {
        let total = self.models.len();
        assert(self.at < total);
        let model: &'a Notetype = self.models[self.at];
        match permitted_notetype(model.crowdanki_uuid.as_str(), existing_guid) {
            Ok(guid) => {
                cache.insert(model.crowdanki_uuid.clone(), guid);
                self.at = self.at + 1;
                Ok(())
            },
            Err(e) => Err(e),
        }
    }
}

/// Each suggested change carries the cleaned content of the field at its own position: a field that is
/// not empty, or that is there. The positions rise, and no such field is passed over.
pub proof fn law_suggestions_stand_at_their_fields(
    fields: Seq<String>,
    cleaned: Seq<Seq<char>>,
    present: Seq<bool>,
    n: int,
)
    requires
        0 <= n <= fields.len(),
        n <= u32::MAX + 1,
    ensures
        forall|k: int|
            0 <= k < suggesting(fields, cleaned, present, n).len() ==> {
                let change = #[trigger] suggesting(fields, cleaned, present, n)[k];
                change matches Change::Add { position, content } && position < n && content
                    == cleaned[position as int] && (fields[position as int]@.len() > 0
                    || present[position as int])
            },
        forall|a: int, b: int|
            0 <= a < b < suggesting(fields, cleaned, present, n).len() ==> (#[trigger] suggesting(
                fields,
                cleaned,
                present,
                n,
            )[a])->Add_position < (#[trigger] suggesting(
                fields,
                cleaned,
                present,
                n,
            )[b])->Add_position,
        forall|p: int|
            0 <= p < n && ((#[trigger] fields[p])@.len() > 0 || present[p]) ==> exists|k: int|
                0 <= k < suggesting(fields, cleaned, present, n).len() && (#[trigger] suggesting(
                    fields,
                    cleaned,
                    present,
                    n,
                )[k])->Add_position == p,
    decreases n,
{
    if n > 0 {
        law_suggestions_stand_at_their_fields(fields, cleaned, present, n - 1);
        let before = suggesting(fields, cleaned, present, n - 1);
        let after = suggesting(fields, cleaned, present, n);
        assert forall|k: int| 0 <= k < after.len() implies {
            let change = #[trigger] after[k];
            change matches Change::Add { position, content } && position < n && content
                == cleaned[position as int] && (fields[position as int]@.len() > 0
                || present[position as int])
        } by {
            if k < before.len() {
                assert(after[k] == before[k]);
            }
        }
        assert forall|a: int, b: int| 0 <= a < b < after.len() implies (
        #[trigger] after[a])->Add_position < (#[trigger] after[b])->Add_position by {
            assert(after[a] == before[a]);
            if b < before.len() {
                assert(after[b] == before[b]);
            }
        }
        assert forall|p: int|
            0 <= p < n && ((#[trigger] fields[p])@.len() > 0 || present[p]) implies exists|k: int|
            0 <= k < after.len() && (#[trigger] after[k])->Add_position == p by {
            if p < n - 1 {
                let k = choose|k: int|
                    0 <= k < before.len() && (#[trigger] before[k])->Add_position == p;
                assert(after[k] == before[k]);
            } else {
                assert(after[after.len() - 1]->Add_position == p);
            }
        }
    }
}

/// A note that is overwritten, or that is not reviewed yet, gets one change for each field, at its
/// position: an empty field goes, and any other one gets its cleaned content.
pub proof fn law_every_field_is_changed(
    fields: Seq<String>,
    cleaned: Seq<Seq<char>>,
    present: Seq<bool>,
    p: int,
)
    requires
        0 <= p < fields.len() <= u32::MAX,
    ensures
        overwriting(fields, cleaned).len() == fields.len(),
        revising(fields, cleaned, present).len() == fields.len(),
        fields[p]@.len() == 0 ==> overwriting(fields, cleaned)[p] == (Change::Remove {
            position: p as u32,
        }) && revising(fields, cleaned, present)[p] == (Change::Remove { position: p as u32 }),
        fields[p]@.len() > 0 ==> overwriting(fields, cleaned)[p] == (Change::Replace {
            position: p as u32,
            content: cleaned[p],
        }),
        fields[p]@.len() > 0 && present[p] ==> revising(fields, cleaned, present)[p] == (
        Change::Replace { position: p as u32, content: cleaned[p] }),
        fields[p]@.len() > 0 && !present[p] ==> revising(fields, cleaned, present)[p] == (
        Change::Add { position: p as u32, content: cleaned[p] }),
{
}

/// What is suggested waits for a review and deletes nothing; what is forced is done at once, to tags of
/// the same kind as those that it is compared with.
pub proof fn law_suggested_tags_wait_for_a_review(commit: i32, reviewed: bool)
    ensures
        ({
            let h = TagHandling::Suggest { commit };
            !h.adds_reviewed() && h.is_of_reviewed() && h.removal() == TagRemoval::Suggest
                && h.commit() == commit
        }),
        ({
            let h = TagHandling::Force { commit, reviewed };
            h.adds_reviewed() == reviewed && h.is_of_reviewed() == reviewed && h.removal()
                == TagRemoval::Delete && h.commit() == commit
        }),
{
}

/// A tag is among those that a note gets exactly where it is a new one and no old one, and among those
/// that it loses exactly where it is an old one and no new one.
pub proof fn law_tags_that_come_and_go(old_tags: Seq<String>, new_tags: Seq<String>, tag: Seq<char>)
    ensures
        text::texts(not_in(new_tags, old_tags)).contains(tag) <==> text::texts(new_tags).contains(
            tag,
        ) && !text::texts(old_tags).contains(tag),
        text::texts(not_in(old_tags, new_tags)).contains(tag) <==> text::texts(old_tags).contains(
            tag,
        ) && !text::texts(new_tags).contains(tag),
{
    lemma_not_in(old_tags, new_tags);
    lemma_not_in(new_tags, old_tags);
    assert(text::texts(not_in(new_tags, old_tags)).to_set().contains(tag) <==> text::texts(
        new_tags,
    ).to_set().difference(text::texts(old_tags).to_set()).contains(tag));
    assert(text::texts(not_in(old_tags, new_tags)).to_set().contains(tag) <==> text::texts(
        old_tags,
    ).to_set().difference(text::texts(new_tags).to_set()).contains(tag));
}

/// Each text is cleaned at its own place.
pub proof fn law_texts_are_cleaned_one_by_one(list: Seq<Seq<char>>, i: int)
    requires
        0 <= i < list.len(),
    ensures
        cleaned_texts(list).len() == list.len(),
        cleaned_texts(list)[i] == outside::sanitized_html(list[i]),
{
}

/// The notetypes of a deck are its own, and behind them those of each subdeck with all decks below it, in
/// the order of the subdecks.
pub proof fn law_no_notetype_is_passed_over(
    deck: AnkiDeck,
    first: Seq<AnkiDeck>,
    child: AnkiDeck,
    second: Seq<AnkiDeck>,
)
    requires
        deck.children@ == first + seq![child] + second,
    ensures
        models_within(deck) == (match deck.note_models {
            Some(models) => models@,
            None => Seq::empty(),
        }) + models_within_all(first) + models_within(child) + models_within_all(second),
        models_within_all(Seq::empty()).len() == 0,
{
    lemma_models_in_parts(first + seq![child], second);
    lemma_models_in_parts(first, seq![child]);
    let one = seq![child];
    assert(one[0] == child);
    assert(one.skip(1) =~= Seq::<AnkiDeck>::empty());
    assert(models_within_all(one.skip(1)) =~= Seq::empty());
    assert(models_within_all(one) =~= models_within(child));
    assert(models_within(deck) =~= own_models(deck) + models_within_all(first) + models_within(child)
        + models_within_all(second));
}

proof fn lemma_models_in_parts(first: Seq<AnkiDeck>, second: Seq<AnkiDeck>)
    ensures
        models_within_all(first + second) == models_within_all(first) + models_within_all(second),
    decreases first.len(),
{
    if first.len() == 0 {
        assert(first + second =~= second);
        assert(models_within_all(first) + models_within_all(second) =~= models_within_all(second));
    } else {
        let rest = first.skip(1);
        lemma_models_in_parts(rest, second);
        assert((first + second)[0] == first[0]);
        assert((first + second).skip(1) =~= rest + second);
        assert(models_within_all(first + second) =~= models_within_all(first) + models_within_all(
            second,
        ));
    }
}

/// A deck whose path has no separator has none above it.
pub proof fn law_nothing_is_above_a_topmost_deck(path: Seq<char>)
    requires
        !text::is_part_of("::"@, path),
    ensures
        path_above(path).len() == 0,
{
    text::lemma_find_from(path, "::"@, 0);
    if let Some(i) = text::find_from(path, "::"@, 0) {
        assert(text::occurs_at(path, "::"@, i));
    }
    assert(text::pieces(path, "::"@) == seq![path]);
    assert(seq![path].drop_last() =~= Seq::<Seq<char>>::empty());
}

/// The plain name of a deck is what the removal of the suffix leaves of it, if that is anything, and the
/// name itself otherwise; it is never empty but for an empty name.
pub proof fn law_plain_names_are_not_empty(name: Seq<char>)
    ensures
        name.len() > 0 ==> plain_name(name).len() > 0,
        outside::regex_replaced(SUFFIX_PATTERN@, name, ""@) matches Ok(left) ==> plain_name(name)
            == if left.len() > 0 {
            left
        } else {
            name
        },
        outside::regex_replaced(SUFFIX_PATTERN@, name, ""@) is Err ==> plain_name(name) == name,
{
}

/// Each change stands for one of its own kind, at its own position and with its own content.
pub proof fn law_changes_stand_for_themselves(list: Seq<FieldChange>, i: int)
    requires
        0 <= i < list.len(),
    ensures
        changes_of(list).len() == list.len(),
        list[i] matches FieldChange::Remove { position } ==> changes_of(list)[i] == (
        Change::Remove { position }),
        list[i] matches FieldChange::Add { position, content } ==> changes_of(list)[i] == (
        Change::Add { position, content: content@ }),
        list[i] matches FieldChange::Replace { position, content } ==> changes_of(list)[i] == (
        Change::Replace { position, content: content@ }),
{
}

/// A tag names a group exactly where the search found one; that there is none is no failure.
pub proof fn law_groups_are_found_or_not(
    found: Result<Option<Option<Seq<char>>>, Seq<char>>,
    group: Seq<char>,
)
    ensures
        group_found(found) == Ok::<Option<Seq<char>>, Seq<char>>(Some(group)) <==> found == Ok::<
            Option<Option<Seq<char>>>,
            Seq<char>,
        >(Some(Some(group))),
        group_found(found) is Err <==> found is Err,
        group_found(found) is Err ==> group_found(found)->Err_0 == found->Err_0,
{
}

/// What is left of a path is what the pattern leaves of it, and never nothing: that is refused.
pub proof fn law_ill_formed_paths_are_refused(path: Seq<char>, left: Seq<char>)
    ensures
        without_suffix(path) == Ok::<Seq<char>, Seq<char>>(left) <==> left.len() > 0
            && outside::regex_replaced(SUFFIX_PATTERN@, path, ""@) == Ok::<Seq<char>, Seq<char>>(
            left,
        ),
        outside::regex_replaced(SUFFIX_PATTERN@, path, ""@) == Ok::<Seq<char>, Seq<char>>(
            Seq::empty(),
        ) ==> without_suffix(path) == Err::<Seq<char>, Seq<char>>(
            "Error occurred: Deckname is ill-formed."@,
        ),
{
    if let Ok(rest) = outside::regex_replaced(SUFFIX_PATTERN@, path, ""@) {
        if rest.len() == 0 {
            assert(rest =~= Seq::<char>::empty());
        }
    }
}

/// A deck with plain names is the other one in all but the names: it has the same notes, notetypes and
/// media, and the same subdecks at the same places.
pub proof fn law_only_names_are_made_plain(deck: AnkiDeck, other: AnkiDeck, i: int)
    requires
        has_plain_names(deck, other),
    ensures
        deck.name@ == plain_name(other.name@),
        deck.crowdanki_uuid == other.crowdanki_uuid,
        deck.desc == other.desc,
        deck.notes == other.notes,
        deck.note_models == other.note_models,
        deck.media_files == other.media_files,
        deck.children@.len() == other.children@.len(),
        0 <= i < other.children@.len() ==> has_plain_names(deck.children@[i], other.children@[i]),
{
}

/// The tags that come or go stand in their order, each as often as it does: those of a list are those of
/// its first part, and behind them those of the rest; and a single tag is among them exactly where it
/// is not in the other list.
pub proof fn law_tags_stand_in_order(
    first: Seq<String>,
    rest: Seq<String>,
    tag: String,
    other: Seq<String>,
)
    ensures
        not_in(first + rest, other) == not_in(first, other) + not_in(rest, other),
        not_in(seq![tag], other) == if text::texts(other).contains(tag@) {
            Seq::empty()
        } else {
            seq![tag]
        },
{
    let wanted = |s: String| !text::texts(other).contains(s@);
    Seq::filter_distributes_over_add(first, rest, wanted);
    reveal(Seq::filter);
    let one = seq![tag];
    assert(one.drop_last() =~= Seq::<String>::empty());
    assert(one.last() == tag);
    assert(Seq::<String>::empty().filter(wanted) =~= Seq::empty());
    assert(not_in(one, other) =~= if text::texts(other).contains(tag@) {
        Seq::empty()
    } else {
        one
    });
}

/// The tags that only some decks have begin as those that need an approval do: behind that stand a group
/// and, if any, what is below it. What clients append to a name is the name of the service in brackets,
/// behind one space or none, and a number or none.
pub proof fn law_optional_tags_need_an_approval()
    ensures
        OPTIONAL_TAG_PATTERN@ == crate::push::OPTIONAL_TAG_PREFIX@ + "(?P<tag_group>[^:]+)"@
            + "(::(?P<subtag>[^:]+))?"@,
        SUFFIX_PATTERN@ == "\\s?"@ + "\\(AnkiCollab\\)"@ + "(_\\d+)?"@,
{
    reveal_strlit("AnkiCollab_Optional::");
    reveal_strlit("(?P<tag_group>[^:]+)");
    reveal_strlit("(::(?P<subtag>[^:]+))?");
    reveal_strlit(r"AnkiCollab_Optional::(?P<tag_group>[^:]+)(::(?P<subtag>[^:]+))?");
    reveal_strlit("\\s?");
    reveal_strlit("\\(AnkiCollab\\)");
    reveal_strlit("(_\\d+)?");
    reveal_strlit(r"\s?\(AnkiCollab\)(_\d+)?");
    assert(OPTIONAL_TAG_PATTERN@ =~= crate::push::OPTIONAL_TAG_PREFIX@ + "(?P<tag_group>[^:]+)"@
        + "(::(?P<subtag>[^:]+))?"@);
    assert(SUFFIX_PATTERN@ =~= "\\s?"@ + "\\(AnkiCollab\\)"@ + "(_\\d+)?"@);
}

} // verus!
