//! How a deck's notes, and its subdecks, get into the database.
use vstd::hash_map::StringHashMap;
use vstd::prelude::*;

use crate::outside;
use crate::structs::{Note, Notetype};
use crate::text;

verus! {

/// The triggers of the database rest while more notes than this are stored.
pub const BULK_THRESHOLD: usize = 5000;

/// The most notes that are stored in one transaction.
pub const NOTE_BATCH: usize = 250;

/// What a tag begins with that only some decks have.
pub const OPTIONAL_TAG_PREFIX: &'static str = "AnkiCollab_Optional::";

/// The guids of the stored notetypes, by the guids under which clients know them.
pub struct NotetypeCache {
    map: StringHashMap<String>,
}

impl View for NotetypeCache {
    type V = Map<Seq<char>, Seq<char>>;

    closed spec fn view(&self) -> Map<Seq<char>, Seq<char>> {
        Map::new(|k: Seq<char>| self.map@.contains_key(k), |k: Seq<char>| self.map@[k]@)
    }
}

impl NotetypeCache {
    /// No notetype is known.
    pub fn new() -> (r: Self)
        ensures
            r@ == Map::<Seq<char>, Seq<char>>::empty(),
    {
        let r = NotetypeCache { map: StringHashMap::new() };
        assert(r@ =~= Map::<Seq<char>, Seq<char>>::empty());
        r
    }

    /// The guid of the stored notetype.
    pub fn get(&self, uuid: &str) -> (r: Option<String>)
        ensures
            match r {
                Some(guid) => self@.contains_key(uuid@) && guid@ == self@[uuid@],
                None => !self@.contains_key(uuid@),
            },
    {
        match self.map.get(uuid) {
            Some(guid) => Some(guid.clone()),
            None => None,
        }
    }

    /// Takes the guid of the stored notetype.
    pub fn insert(&mut self, uuid: String, guid: String)
        ensures
            final(self)@ == old(self)@.insert(uuid@, guid@),
    {
        self.map.insert(uuid, guid);
        assert(self@ =~= old(self)@.insert(uuid@, guid@));
    }
}

/// The deck into which notes are put. There must be one.
pub fn deck_for_notes(deck: Option<i64>) -> (r: Result<i64, String>)
    ensures
        match r {
            Ok(id) => deck == Some(id),
            Err(e) => deck is None && e@ == "Deck ID is None"@,
        },
{
    match deck {
        Some(id) => Ok(id),
        None => Err("Deck ID is None".to_owned()),
    }
}

/// The places of notes in a list are places of it.
pub open spec fn are_places(chosen: Seq<usize>, len: nat) -> bool {
    forall|i: int| 0 <= i < chosen.len() ==> (#[trigger] chosen[i]) < len
}

/// The guids of the notetypes of the chosen notes, in their order. The first note whose notetype
/// is not known is an error.
pub fn resolve_notetypes(notes: &Vec<Note>, chosen: &Vec<usize>, cache: &NotetypeCache) -> (r:
    Result<Vec<String>, String>)
    requires
        are_places(chosen@, notes@.len()),
    ensures
        match r {
            Ok(guids) => {
                &&& guids@.len() == chosen@.len()
                &&& forall|i: int| #![trigger guids@[i]]
                    0 <= i < chosen@.len() ==> cache@.contains_key(
                        notes@[chosen@[i] as int].note_model_uuid@,
                    ) && guids@[i]@ == cache@[notes@[chosen@[i] as int].note_model_uuid@]
            },
            Err(e) => exists|i: int|
                0 <= i < chosen@.len() && !cache@.contains_key(
                    notes@[#[trigger] chosen@[i] as int].note_model_uuid@,
                ) && e@ == "Note type not found in cache: "@
                    + notes@[chosen@[i] as int].note_model_uuid@ && forall|j: int|
                    0 <= j < i ==> cache@.contains_key(
                        notes@[#[trigger] chosen@[j] as int].note_model_uuid@,
                    ),
        },
{
    let mut guids: Vec<String> = Vec::new();
    let mut i: usize = 0;
    while i < chosen.len()
        invariant
            i <= chosen@.len(),
            are_places(chosen@, notes@.len()),
            guids@.len() == i,
            forall|j: int| #![trigger guids@[j]]
                0 <= j < i ==> cache@.contains_key(notes@[chosen@[j] as int].note_model_uuid@)
                    && guids@[j]@ == cache@[notes@[chosen@[j] as int].note_model_uuid@],
            forall|j: int|
                0 <= j < i ==> cache@.contains_key(
                    notes@[#[trigger] chosen@[j] as int].note_model_uuid@,
                ),
        decreases chosen@.len() - i,
    {
        let note = &notes[chosen[i]];
        match cache.get(note.note_model_uuid.as_str()) {
            Some(guid) => {
                guids.push(guid);
            },
            None => {
                return Err(
                    text::joined(
                        "Note type not found in cache: ",
                        note.note_model_uuid.as_str(),
                    ),
                );
            },
        }
        i += 1;
    }
    Ok(guids)
}

/// Whether so many notes are stored that the triggers of the database rest meanwhile.
pub fn is_bulk(count: usize) -> (r: bool)
    ensures
        r == (count > 5000),
{
    count > BULK_THRESHOLD
}

/// The number under which a note was stored; an error where it was not.
pub fn stored_note(guid: &str, id: Option<i64>) -> (r: Result<i64, String>)
    ensures
        match r {
            Ok(n) => id == Some(n),
            Err(e) => id is None && e@ == "Error inserting note "@ + guid@
                + ": notetype does not exist"@,
        },
{
    match id {
        Some(n) => Ok(n),
        None => {
            let mut message = text::joined("Error inserting note ", guid);
            message.append(": notetype does not exist");
            Err(message)
        },
    }
}

/// A field that is stored.
#[derive(Debug, PartialEq)]
pub struct NewNoteField {
    pub position: u32,
    pub content: String,
}

/// Some fields, and the query that stores them.
#[derive(Debug, PartialEq)]
pub struct FieldInsert {
    pub query: String,
    pub fields: Vec<NewNoteField>,
}

/// Some tags, and the query that stores them.
#[derive(Debug, PartialEq)]
pub struct TagInsert {
    pub query: String,
    pub tags: Vec<String>,
}

/// A field at a position.
pub struct PlacedField {
    pub position: int,
    pub content: Seq<char>,
}

/// The fields that the records stand for.
pub open spec fn placed_fields(list: Seq<NewNoteField>) -> Seq<PlacedField> {
    list.map_values(
        |f: NewNoteField| PlacedField { position: f.position as int, content: f.content@ },
    )
}

/// Those of the first `n` fields that are neither protected nor empty, at their positions.
pub open spec fn stored_fields(fields: Seq<String>, protected: Seq<u32>, n: int) -> Seq<
    PlacedField,
>
    decreases n,
{
    if n <= 0 {
        Seq::empty()
    } else {
        let before = stored_fields(fields, protected, n - 1);
        if protected.contains((n - 1) as u32) || fields[n - 1]@.len() == 0 {
            before
        } else {
            before.push(PlacedField { position: n - 1, content: fields[n - 1]@ })
        }
    }
}

/// How many of the fields of a note there is room for in its notetype, whose last field is at
/// `max_position`.
pub open spec fn fitting(len: nat, max_position: u32) -> int {
    if len > max_position + 1 {
        max_position + 1
    } else {
        len as int
    }
}

/// The beginning of the query that stores fields.
pub open spec fn field_query_head() -> Seq<char> {
    "INSERT INTO fields (note, position, content, reviewed, creator_ip, commit) VALUES "@
}

/// The beginning of the query that stores tags.
pub open spec fn tag_query_head() -> Seq<char> {
    "INSERT INTO tags (note, content, reviewed, creator_ip, action, commit) VALUES "@
}

/// The number of a parameter, as a query writes it.
pub open spec fn parameter(n: nat) -> Seq<char> {
    "$"@ + text::decimal(n)
}

/// The six parameters of the field number `n`.
pub open spec fn field_group(n: nat) -> Seq<char> {
    "("@ + parameter(6 * n + 1) + ", "@ + parameter(6 * n + 2) + ", "@ + parameter(6 * n + 3)
        + ", "@ + parameter(6 * n + 4) + ", "@ + parameter(6 * n + 5) + ", "@ + parameter(6 * n + 6)
        + ")"@
}

/// The five parameters of the tag number `n`.
pub open spec fn tag_group(n: nat) -> Seq<char> {
    "("@ + parameter(5 * n + 1) + ", "@ + parameter(5 * n + 2) + ", "@ + parameter(5 * n + 3)
        + ", "@ + parameter(5 * n + 4) + ", true, "@ + parameter(5 * n + 5) + ")"@
}

/// The parameters of the first `count` fields, with commas between them.
pub open spec fn field_groups(count: nat) -> Seq<char>
    decreases count,
{
    if count == 0 {
        Seq::empty()
    } else if count == 1 {
        field_group(0)
    } else {
        field_groups((count - 1) as nat) + ","@ + field_group((count - 1) as nat)
    }
}

/// The parameters of the first `count` tags, with commas between them.
pub open spec fn tag_groups(count: nat) -> Seq<char>
    decreases count,
{
    if count == 0 {
        Seq::empty()
    } else if count == 1 {
        tag_group(0)
    } else {
        tag_groups((count - 1) as nat) + ","@ + tag_group((count - 1) as nat)
    }
}

/// Those of the first `n` tags that were approved.
pub open spec fn approved_tags(tags: Seq<String>, approved: Seq<bool>, n: int) -> Seq<Seq<char>>
    decreases n,
{
    if n <= 0 {
        Seq::empty()
    } else if approved[n - 1] {
        approved_tags(tags, approved, n - 1).push(tags[n - 1]@)
    } else {
        approved_tags(tags, approved, n - 1)
    }
}

/// Appends a parameter to a query.
fn append_parameter(query: &mut String, n: u64)
    ensures
        final(query)@ == old(query)@ + parameter(n as nat),
{
    let digits = text::decimal_text(n);
    query.append("$");
    query.append(digits.as_str());
    assert(query@ =~= old(query)@ + ("$"@ + text::decimal(n as nat)));
}

/// Appends the six parameters of a field to a query.
fn append_field_group(query: &mut String, n: u64)
    requires
        n <= u32::MAX,
    ensures
        final(query)@ == old(query)@ + field_group(n as nat),
{
    let base: u64 = 6 * n;
    query.append("(");
    append_parameter(query, base + 1);
    query.append(", ");
    append_parameter(query, base + 2);
    query.append(", ");
    append_parameter(query, base + 3);
    query.append(", ");
    append_parameter(query, base + 4);
    query.append(", ");
    append_parameter(query, base + 5);
    query.append(", ");
    append_parameter(query, base + 6);
    query.append(")");
    assert(query@ =~= old(query)@ + field_group(n as nat));
}

/// Appends the five parameters of a tag to a query.
fn append_tag_group(query: &mut String, n: u64)
    requires
        5 * n + 5 <= u64::MAX,
    ensures
        final(query)@ == old(query)@ + tag_group(n as nat),
{
    let base: u64 = 5 * n;
    query.append("(");
    append_parameter(query, base + 1);
    query.append(", ");
    append_parameter(query, base + 2);
    query.append(", ");
    append_parameter(query, base + 3);
    query.append(", ");
    append_parameter(query, base + 4);
    query.append(", true, ");
    append_parameter(query, base + 5);
    query.append(")");
    assert(query@ =~= old(query)@ + tag_group(n as nat));
}

/// Whether a position is among some.
fn is_protected(protected: &Vec<u32>, position: u32) -> (r: bool)
    ensures
        r == protected@.contains(position),
{
    let mut i: usize = 0;
    while i < protected.len()
        invariant
            i <= protected@.len(),
            forall|j: int| 0 <= j < i ==> protected@[j] != position,
        decreases protected@.len() - i,
    {
        if protected[i] == position {
            return true;
        }
        i += 1;
    }
    false
}

/// What is stored of the fields of a note: as many as its notetype has, without those that are
/// protected and those that are empty. Nothing where none is left.
pub fn plan_fields(fields: &Vec<String>, protected: &Vec<u32>, max_position: u32) -> (r: Option<
    FieldInsert,
>)
    ensures
        ({
            let kept = stored_fields(
                fields@,
                protected@,
                fitting(fields@.len(), max_position),
            );
            match r {
                Some(insert) => {
                    &&& kept.len() > 0
                    &&& placed_fields(insert.fields@) == kept
                    &&& insert.query@ == field_query_head() + field_groups(kept.len())
                },
                None => kept.len() == 0,
            }
        }),
{
    let mut kept: Vec<NewNoteField> = Vec::new();
    let mut query =
        "INSERT INTO fields (note, position, content, reviewed, creator_ip, commit) VALUES ".to_owned();
    let ghost total = fitting(fields@.len(), max_position);
    let mut i: usize = 0;
    assert(placed_fields(kept@) =~= Seq::empty());
    assert(query@ =~= field_query_head() + field_groups(0));
    while i < fields.len() && i as u64 <= max_position as u64
        invariant
            i <= total,
            total == fitting(fields@.len(), max_position),
            placed_fields(kept@) == stored_fields(fields@, protected@, i as int),
            kept@.len() <= i,
            query@ == field_query_head() + field_groups(kept@.len()),
        decreases total - i,
    {
        let position: u32 = i as u32;
        let field = &fields[i];
        if !is_protected(protected, position) && !field.as_str().is_empty() {
            let ghost before = kept@;
            let count: u64 = kept.len() as u64;
            if count > 0 {
                query.append(",");
            }
            append_field_group(&mut query, count);
            kept.push(NewNoteField { position, content: field.clone() });
            assert(placed_fields(kept@) =~= placed_fields(before).push(
                PlacedField { position: i as int, content: field@ },
            ));
            assert(query@ =~= field_query_head() + field_groups(kept@.len()));
        }
        i += 1;
    }
    if kept.len() == 0 {
        None
    } else {
        Some(FieldInsert { query, fields: kept })
    }
}

/// Whether a tag is one that only some decks have.
pub fn needs_approval(tag: &str) -> (r: bool)
    ensures
        r == "AnkiCollab_Optional::"@.is_prefix_of(tag@),
{
    text::begins_with(tag, OPTIONAL_TAG_PREFIX)
}

/// Whether a tag is stored, given whether it is valid for the deck: one that only some decks have must
/// be.
pub fn is_approved(tag: &str, valid: bool) -> (r: bool)
    ensures
        r == (valid || !"AnkiCollab_Optional::"@.is_prefix_of(tag@)),
{
    valid || !needs_approval(tag)
}

/// Those of some tags that were approved, in their order.
pub fn keep_approved(tags: &Vec<String>, approved: &Vec<bool>) -> (r: Vec<String>)
    requires
        approved@.len() == tags@.len(),
    ensures
        text::texts(r@) == approved_tags(tags@, approved@, tags@.len() as int),
{
    let mut kept: Vec<String> = Vec::new();
    let mut i: usize = 0;
    assert(text::texts(kept@) =~= Seq::empty());
    while i < tags.len()
        invariant
            i <= tags@.len(),
            approved@.len() == tags@.len(),
            text::texts(kept@) == approved_tags(tags@, approved@, i as int),
        decreases tags@.len() - i,
    {
        if approved[i] {
            let ghost before = kept@;
            kept.push(tags[i].clone());
            assert(text::texts(kept@) =~= text::texts(before).push(tags@[i as int]@));
        }
        i += 1;
    }
    kept
}

/// What is stored of the tags of a note: those that were approved, numbered among themselves.
/// Nothing where none is left.
pub fn plan_tags(tags: &Vec<String>, approved: &Vec<bool>) -> (r: Option<TagInsert>)
    requires
        approved@.len() == tags@.len(),
        5 * tags@.len() <= u64::MAX,
    ensures
        ({
            let kept = approved_tags(tags@, approved@, tags@.len() as int);
            match r {
                Some(insert) => {
                    &&& kept.len() > 0
                    &&& text::texts(insert.tags@) == kept
                    &&& insert.query@ == tag_query_head() + tag_groups(kept.len())
                },
                None => kept.len() == 0,
            }
        }),
{
    let mut kept: Vec<String> = Vec::new();
    let mut query =
        "INSERT INTO tags (note, content, reviewed, creator_ip, action, commit) VALUES ".to_owned();
    let mut i: usize = 0;
    assert(text::texts(kept@) =~= Seq::empty());
    assert(query@ =~= tag_query_head() + tag_groups(0));
    while i < tags.len()
        invariant
            i <= tags@.len(),
            approved@.len() == tags@.len(),
            5 * tags@.len() <= u64::MAX,
            text::texts(kept@) == approved_tags(tags@, approved@, i as int),
            kept@.len() <= i,
            query@ == tag_query_head() + tag_groups(kept@.len()),
        decreases tags@.len() - i,
    {
        if approved[i] {
            let ghost before = kept@;
            if kept.len() > 0 {
                query.append(",");
            }
            append_tag_group(&mut query, kept.len() as u64);
            kept.push(tags[i].clone());
            assert(text::texts(kept@) =~= text::texts(before).push(tags@[i as int]@));
            assert(query@ =~= tag_query_head() + tag_groups(kept@.len()));
        }
        i += 1;
    }
    if kept.len() == 0 {
        None
    } else {
        Some(TagInsert { query, tags: kept })
    }
}

/// What is stored of a new note, in this order.
#[derive(Debug, PartialEq)]
pub struct NotePlan {
    pub fields: Option<FieldInsert>,
    /// Whether the note and its decks count as changed.
    pub touch: bool,
    pub tags: Option<TagInsert>,
}

/// What is stored of a new note. It counts as changed at once if it was reviewed.
pub fn plan_note(
    note: &Note,
    protected: &Vec<u32>,
    max_position: u32,
    approved: &Vec<bool>,
    reviewed: bool,
) -> (r: NotePlan)
    requires
        approved@.len() == note.tags@.len(),
        5 * note.tags@.len() <= u64::MAX,
    ensures
        r.touch == reviewed,
        ({
            let kept = stored_fields(
                note.fields@,
                protected@,
                fitting(note.fields@.len(), max_position),
            );
            match r.fields {
                Some(insert) => {
                    &&& kept.len() > 0
                    &&& placed_fields(insert.fields@) == kept
                    &&& insert.query@ == field_query_head() + field_groups(kept.len())
                },
                None => kept.len() == 0,
            }
        }),
        ({
            let kept = approved_tags(note.tags@, approved@, note.tags@.len() as int);
            match r.tags {
                Some(insert) => {
                    &&& kept.len() > 0
                    &&& text::texts(insert.tags@) == kept
                    &&& insert.query@ == tag_query_head() + tag_groups(kept.len())
                },
                None => kept.len() == 0,
            }
        }),
{
    NotePlan {
        fields: plan_fields(&note.fields, protected, max_position),
        touch: reviewed,
        tags: plan_tags(&note.tags, approved),
    }
}

/// No protected field and no empty one is stored, nor one for which the notetype has no place, and
/// each of the others is.
pub proof fn law_stored_fields(fields: Seq<String>, protected: Seq<u32>, n: int)
    requires
        0 <= n <= fields.len(),
        n <= u32::MAX + 1,
    ensures
        forall|k: int| #![trigger stored_fields(fields, protected, n)[k]]
            0 <= k < stored_fields(fields, protected, n).len() ==> {
                let f = stored_fields(fields, protected, n)[k];
                &&& 0 <= f.position < n
                &&& f.content == fields[f.position]@
                &&& f.content.len() > 0
                &&& !protected.contains(f.position as u32)
            },
        forall|p: int|
            0 <= p < n && (#[trigger] fields[p])@.len() > 0 && !protected.contains(p as u32)
                ==> exists|k: int|
                0 <= k < stored_fields(fields, protected, n).len() && (#[trigger] stored_fields(
                    fields,
                    protected,
                    n,
                )[k]).position == p,
        stored_fields(fields, protected, n).len() <= n,
    decreases n,
{
    if n > 0 {
        law_stored_fields(fields, protected, n - 1);
        let before = stored_fields(fields, protected, n - 1);
        let after = stored_fields(fields, protected, n);
        assert forall|k: int| #![trigger after[k]] 0 <= k < after.len() implies {
            let f = after[k];
            &&& 0 <= f.position < n
            &&& f.content == fields[f.position]@
            &&& f.content.len() > 0
            &&& !protected.contains(f.position as u32)
        } by {
            if k < before.len() {
                assert(after[k] == before[k]);
            }
        }
        assert forall|p: int|
            0 <= p < n && (#[trigger] fields[p])@.len() > 0 && !protected.contains(
                p as u32,
            ) implies exists|k: int| 0 <= k < after.len() && (#[trigger] after[k]).position == p by {
            if p < n - 1 {
                let k = choose|k: int|
                    0 <= k < before.len() && (#[trigger] before[k]).position == p;
                assert(after[k] == before[k]);
            } else {
                assert(after[after.len() - 1].position == p);
            }
        }
    }
}

/// Where all tags are approved, all of them are stored.
pub proof fn law_approved_tags_are_all_stored(tags: Seq<String>, approved: Seq<bool>, n: int)
    requires
        0 <= n <= tags.len(),
        forall|i: int| 0 <= i < n ==> #[trigger] approved[i],
    ensures
        approved_tags(tags, approved, n) == text::texts(tags).take(n),
    decreases n,
{
    if n > 0 {
        law_approved_tags_are_all_stored(tags, approved, n - 1);
        assert(approved[n - 1]);
        assert(text::texts(tags).take(n) =~= text::texts(tags).take(n - 1).push(tags[n - 1]@));
    } else {
        assert(text::texts(tags).take(0) =~= Seq::empty());
    }
}

/// What is awaited while notes are stored.
#[derive(Clone, Copy, Debug, PartialEq, Eq, Structural)]
pub enum UnpackStage {
    /// That the triggers of the database rest.
    Rest,
    /// That a transaction begins.
    Begin,
    /// That the next note is stored, without what it holds.
    Insert,
    /// That what the note of this number holds is stored.
    Fill { note_id: i64 },
    /// That the transaction is committed.
    Commit,
    /// That the triggers of the database work again.
    Wake,
    /// Nothing: all notes are stored.
    Finished,
}

/// The storing of new notes, batch by batch.
pub struct NoteUnpack {
    /// The places of the notes in their deck.
    pub chosen: Vec<usize>,
    /// The guids of their notetypes.
    pub guids: Vec<String>,
    /// How many of them are stored.
    pub done: usize,
    pub stage: UnpackStage,
}

/// What is awaited first when `total` notes are to be stored.
pub open spec fn first_stage(total: int) -> UnpackStage {
    if total > 5000 {
        UnpackStage::Rest
    } else {
        stage_between(0, total)
    }
}

/// What is awaited when `done` of `total` notes are stored and no transaction is under way.
pub open spec fn stage_between(done: int, total: int) -> UnpackStage {
    if done < total {
        UnpackStage::Begin
    } else if total > 5000 {
        UnpackStage::Wake
    } else {
        UnpackStage::Finished
    }
}

impl NoteUnpack {
    /// The storing stands within the list, and no further than a batch reaches.
    pub open spec fn wf(self) -> bool {
        &&& self.chosen@.len() == self.guids@.len()
        &&& self.done <= self.chosen@.len()
        &&& match self.stage {
            UnpackStage::Rest => self.done == 0 && self.chosen@.len() > 5000,
            UnpackStage::Begin => self.done < self.chosen@.len() && self.done % 250 == 0,
            UnpackStage::Insert => self.done < self.chosen@.len(),
            UnpackStage::Fill { .. } => self.done < self.chosen@.len(),
            UnpackStage::Commit => self.done > 0 && (self.done % 250 == 0 || self.done
                == self.chosen@.len()),
            UnpackStage::Wake => self.done == self.chosen@.len() && self.chosen@.len() > 5000,
            UnpackStage::Finished => self.done == self.chosen@.len(),
        }
    }

    /// The same notes are stored.
    pub open spec fn same_notes(self, other: NoteUnpack) -> bool {
        self.chosen == other.chosen && self.guids == other.guids
    }

    /// The storing of the chosen notes of a deck, whose notetypes have been found.
    pub fn new(chosen: Vec<usize>, guids: Vec<String>) -> (r: Self)
        requires
            chosen@.len() == guids@.len(),
        ensures
            r.wf(),
            r.chosen == chosen,
            r.guids == guids,
            r.done == 0,
            r.stage == first_stage(chosen@.len() as int),
    {
        let stage = if is_bulk(chosen.len()) {
            UnpackStage::Rest
        } else if chosen.len() > 0 {
            UnpackStage::Begin
        } else {
            UnpackStage::Finished
        };
        NoteUnpack { chosen, guids, done: 0, stage }
    }

    /// Takes that what was awaited is done, where nothing more is to be said of it.
    pub fn on_done(&mut self)
        requires
            old(self).wf(),
            old(self).stage == UnpackStage::Rest || old(self).stage == UnpackStage::Begin
                || old(self).stage == UnpackStage::Commit || old(self).stage == UnpackStage::Wake,
        ensures
            final(self).wf(),
            final(self).same_notes(*old(self)),
            final(self).done == old(self).done,
            final(self).stage == match old(self).stage {
                UnpackStage::Rest => UnpackStage::Begin,
                UnpackStage::Begin => UnpackStage::Insert,
                UnpackStage::Commit => stage_between(
                    old(self).done as int,
                    old(self).chosen@.len() as int,
                ),
                _ => UnpackStage::Finished,
            },
    {
        self.stage = match self.stage {
            UnpackStage::Rest => UnpackStage::Begin,
            UnpackStage::Begin => UnpackStage::Insert,
            UnpackStage::Commit => {
                if self.done < self.chosen.len() {
                    UnpackStage::Begin
                } else if is_bulk(self.chosen.len()) {
                    UnpackStage::Wake
                } else {
                    UnpackStage::Finished
                }
            },
            _ => UnpackStage::Finished,
        };
    }

    /// Takes the number under which the next note was stored; an error where it was not.
    pub fn on_inserted(&mut self, guid: &str, id: Option<i64>) -> (r: Result<i64, String>)
        requires
            old(self).wf(),
            old(self).stage == UnpackStage::Insert,
        ensures
            final(self).wf(),
            final(self).same_notes(*old(self)),
            final(self).done == old(self).done,
            match r {
                Ok(n) => id == Some(n) && final(self).stage == (UnpackStage::Fill { note_id: n }),
                Err(e) => id is None && e@ == "Error inserting note "@ + guid@
                    + ": notetype does not exist"@ && final(self).stage == old(self).stage,
            },
    {
        match stored_note(guid, id) {
            Ok(n) => {
                self.stage = UnpackStage::Fill { note_id: n };
                Ok(n)
            },
            Err(e) => Err(e),
        }
    }

    /// Takes that what the note holds is stored. The transaction ends with each batch and with the
    /// last note.
    pub fn on_filled(&mut self)
        requires
            old(self).wf(),
            old(self).stage is Fill,
        ensures
            final(self).wf(),
            final(self).same_notes(*old(self)),
            final(self).done == old(self).done + 1,
            final(self).stage == if final(self).done % 250 == 0 || final(self).done
                == final(self).chosen@.len() {
                UnpackStage::Commit
            } else {
                UnpackStage::Insert
            },
    {
        let total = self.chosen.len();
        assert(self.done < total);
        self.done = self.done + 1;
        self.stage = if self.done % NOTE_BATCH == 0 || self.done == total {
            UnpackStage::Commit
        } else {
            UnpackStage::Insert
        };
    }
}

/// Where the triggers of the database are put to rest before the first note is stored, they are
/// woken again behind the last one, and only there.
pub proof fn law_triggers_are_woken(total: int)
    requires
        0 <= total,
    ensures
        first_stage(total) == UnpackStage::Rest <==> stage_between(total, total)
            == UnpackStage::Wake,
        first_stage(total) != UnpackStage::Rest ==> stage_between(total, total)
            == UnpackStage::Finished,
        forall|done: int|
            0 <= done < total ==> #[trigger] stage_between(done, total) == UnpackStage::Begin,
{
}

/// The places of the notetypes that are to be unpacked: those whose guids are not in the cache, and
/// that have not stood before in the list.
pub open spec fn new_models(models: Seq<Notetype>, known: Set<Seq<char>>, n: int) -> Seq<int>
    decreases n,
{
    if n <= 0 {
        Seq::empty()
    } else {
        let uuid = models[n - 1].crowdanki_uuid@;
        if known.contains(uuid) || exists|j: int|
            0 <= j < n - 1 && (#[trigger] models[j]).crowdanki_uuid@ == uuid {
            new_models(models, known, n - 1)
        } else {
            new_models(models, known, n - 1).push(n - 1)
        }
    }
}

/// The places of the notetypes that are to be unpacked.
pub fn models_to_unpack(models: &Vec<Notetype>, cache: &NotetypeCache) -> (r: Vec<usize>)
    ensures
        r@.map_values(|i: usize| i as int) == new_models(
            models@,
            cache@.dom(),
            models@.len() as int,
        ),
{
    let mut out: Vec<usize> = Vec::new();
    let mut i: usize = 0;
    assert(out@.map_values(|i: usize| i as int) =~= Seq::empty());
    while i < models.len()
        invariant
            i <= models@.len(),
            out@.map_values(|i: usize| i as int) == new_models(models@, cache@.dom(), i as int),
        decreases models@.len() - i,
    {
        let uuid = &models[i].crowdanki_uuid;
        let mut seen = false;
        let mut j: usize = 0;
        while j < i
            invariant
                j <= i < models@.len(),
                seen <==> exists|k: int|
                    0 <= k < j && (#[trigger] models@[k]).crowdanki_uuid@ == uuid@,
            decreases i - j,
        {
            if text::same_text(models[j].crowdanki_uuid.as_str(), uuid.as_str()) {
                seen = true;
            }
            j += 1;
        }
        let known = cache.get(uuid.as_str()).is_some();
        if !known && !seen {
            let ghost before = out@;
            out.push(i);
            assert(out@.map_values(|i: usize| i as int) =~= before.map_values(
                |i: usize| i as int,
            ).push(i as int));
        }
        i += 1;
    }
    out
}

/// A note of the database: its guid, its number and its deck.
#[derive(Debug, PartialEq)]
pub struct ExistingNote {
    pub guid: String,
    pub id: i64,
    pub deck: i64,
}

/// Where a note is stored: its number and its deck.
#[derive(Clone, Copy, Debug, PartialEq, Eq, Structural)]
pub struct NotePlace {
    pub id: i64,
    pub deck: i64,
}

/// The notes of the database by their guids; the last one where several have one guid.
pub open spec fn notes_by_guid(rows: Seq<ExistingNote>) -> Map<Seq<char>, NotePlace>
    decreases rows.len(),
{
    if rows.len() == 0 {
        Map::empty()
    } else {
        notes_by_guid(rows.drop_last()).insert(
            rows.last().guid@,
            NotePlace { id: rows.last().id, deck: rows.last().deck },
        )
    }
}

/// A note of a deck that the database knows: its place in the deck, and where it is stored.
#[derive(Clone, Copy, Debug, PartialEq, Eq, Structural)]
pub struct KnownNote {
    pub index: usize,
    pub place: NotePlace,
}

/// The first `n` notes that the database knows.
pub open spec fn known_notes(notes: Seq<Note>, stored: Map<Seq<char>, NotePlace>, n: int) -> Seq<
    (int, NotePlace),
>
    decreases n,
{
    if n <= 0 {
        Seq::empty()
    } else if stored.contains_key(notes[n - 1].guid@) {
        known_notes(notes, stored, n - 1).push((n - 1, stored[notes[n - 1].guid@]))
    } else {
        known_notes(notes, stored, n - 1)
    }
}

/// The places of the first `n` notes that the database does not know.
pub open spec fn fresh_notes(notes: Seq<Note>, stored: Map<Seq<char>, NotePlace>, n: int) -> Seq<
    int,
>
    decreases n,
{
    if n <= 0 {
        Seq::empty()
    } else if stored.contains_key(notes[n - 1].guid@) {
        fresh_notes(notes, stored, n - 1)
    } else {
        fresh_notes(notes, stored, n - 1).push(n - 1)
    }
}

/// What is to be done with the notes of a deck.
#[derive(Debug, PartialEq)]
pub struct NoteSorting {
    /// The notes that are changed, in their order, before anything is stored.
    pub known: Vec<KnownNote>,
    /// The places of the notes that are new.
    pub fresh: Vec<usize>,
    /// Whether the new notes are stored; that is not even tried where there are none but known
    /// ones.
    pub unpack: bool,
}

/// Tells the notes of a deck apart by whether the database knows them.
pub fn sort_notes(notes: &Vec<Note>, rows: &Vec<ExistingNote>) -> (r: NoteSorting)
    ensures
        r.known@.map_values(|k: KnownNote| (k.index as int, k.place)) == known_notes(
            notes@,
            notes_by_guid(rows@),
            notes@.len() as int,
        ),
        r.fresh@.map_values(|i: usize| i as int) == fresh_notes(
            notes@,
            notes_by_guid(rows@),
            notes@.len() as int,
        ),
        are_places(r.fresh@, notes@.len()),
        forall|i: int| 0 <= i < r.known@.len() ==> (#[trigger] r.known@[i]).index < notes@.len(),
        r.unpack == (rows@.len() == 0 || r.fresh@.len() > 0),
{
    let mut stored: StringHashMap<NotePlace> = StringHashMap::new();
    let mut k: usize = 0;
    assert(rows@.take(0) =~= Seq::<ExistingNote>::empty());
    while k < rows.len()
        invariant
            k <= rows@.len(),
            stored@ == notes_by_guid(rows@.take(k as int)),
        decreases rows@.len() - k,
    {
        stored.insert(rows[k].guid.clone(), NotePlace { id: rows[k].id, deck: rows[k].deck });
        assert(rows@.take(k + 1).drop_last() =~= rows@.take(k as int));
        k += 1;
    }
    assert(rows@.take(rows@.len() as int) =~= rows@);
    let mut known: Vec<KnownNote> = Vec::new();
    let mut fresh: Vec<usize> = Vec::new();
    let mut i: usize = 0;
    assert(known@.map_values(|k: KnownNote| (k.index as int, k.place)) =~= Seq::empty());
    assert(fresh@.map_values(|i: usize| i as int) =~= Seq::empty());
    while i < notes.len()
        invariant
            i <= notes@.len(),
            stored@ == notes_by_guid(rows@),
            known@.map_values(|k: KnownNote| (k.index as int, k.place)) == known_notes(
                notes@,
                stored@,
                i as int,
            ),
            fresh@.map_values(|i: usize| i as int) == fresh_notes(notes@, stored@, i as int),
            are_places(fresh@, i as nat),
            forall|j: int| 0 <= j < known@.len() ==> (#[trigger] known@[j]).index < i,
        decreases notes@.len() - i,
    {
        let ghost known_before = known@;
        let ghost fresh_before = fresh@;
        match stored.get(notes[i].guid.as_str()) {
            Some(place) => {
                known.push(KnownNote { index: i, place: *place });
                assert(known@.map_values(|k: KnownNote| (k.index as int, k.place))
                    =~= known_before.map_values(|k: KnownNote| (k.index as int, k.place)).push(
                    (i as int, stored@[notes@[i as int].guid@]),
                ));
            },
            None => {
                fresh.push(i);
                assert(fresh@.map_values(|i: usize| i as int) =~= fresh_before.map_values(
                    |i: usize| i as int,
                ).push(i as int));
            },
        }
        i += 1;
    }
    let unpack = rows.len() == 0 || fresh.len() > 0;
    NoteSorting { known, fresh, unpack }
}

/// Each note of a deck is either known or new, and is seen to once.
pub proof fn law_each_note_is_known_or_new(
    notes: Seq<Note>,
    stored: Map<Seq<char>, NotePlace>,
    n: int,
    i: int,
)
    requires
        0 <= i < n <= notes.len(),
    ensures
        known_notes(notes, stored, n).len() + fresh_notes(notes, stored, n).len() == n,
        stored.contains_key(notes[i].guid@) ==> known_notes(notes, stored, n).contains(
            (i, stored[notes[i].guid@]),
        ),
        !stored.contains_key(notes[i].guid@) ==> fresh_notes(notes, stored, n).contains(i),
    decreases n,
{
    let known = known_notes(notes, stored, n - 1);
    let fresh = fresh_notes(notes, stored, n - 1);
    if i < n - 1 {
        law_each_note_is_known_or_new(notes, stored, n - 1, i);
    } else if n > 1 {
        law_each_note_is_known_or_new(notes, stored, n - 1, 0);
    }
    let at = (n - 1, stored[notes[n - 1].guid@]);
    vstd::seq_lib::lemma_seq_contains_after_push(known, at, (i, stored[notes[i].guid@]));
    vstd::seq_lib::lemma_seq_contains_after_push(fresh, n - 1, i);
}

/// The number of the UUID that a deck has; the text of the error where it has none.
pub fn parse_deck_uuid(uuid: &str) -> (r: Result<u128, String>)
    ensures
        match r {
            Ok(n) => outside::uuid_number(uuid@) == Ok::<u128, Seq<char>>(n),
            Err(e) => outside::uuid_number(uuid@) == Err::<u128, Seq<char>>(e@),
        },
{
    outside::uuid_parse(uuid)
}

/// The name under which a new deck is published; an error where there is such a deck already.
pub fn check_deck_exists(deck_name: &str, human_hash: String, exists: bool) -> (r: Result<
    String,
    String,
>)
    ensures
        match r {
            Ok(hash) => !exists && hash == human_hash,
            Err(e) => exists && e@ == "Deck "@ + deck_name@
                + " already exists. Please submit suggestions instead."@,
        },
{
    if exists {
        let mut message = text::joined("Deck ", deck_name);
        message.append(" already exists. Please submit suggestions instead.");
        Err(message)
    } else {
        Ok(human_hash)
    }
}

/// The number of a deck that was stored; an error where it was not.
pub fn stored_deck(id: Option<i64>) -> (r: Result<i64, String>)
    ensures
        match r {
            Ok(n) => id == Some(n),
            Err(e) => id is None && e@
                == "Deck already exists. Please suggests cards instead (2)."@,
        },
{
    match id {
        Some(n) => Ok(n),
        None => Err("Deck already exists. Please suggests cards instead (2).".to_owned()),
    }
}

/// The fields that are stored stand at rising positions, none twice.
pub proof fn law_stored_fields_stand_in_order(fields: Seq<String>, protected: Seq<u32>, n: int)
    requires
        0 <= n <= fields.len(),
        n <= u32::MAX + 1,
    ensures
        forall|a: int, b: int|
            0 <= a < b < stored_fields(fields, protected, n).len() ==> (#[trigger] stored_fields(
                fields,
                protected,
                n,
            )[a]).position < (#[trigger] stored_fields(fields, protected, n)[b]).position,
    decreases n,
{
    if n > 0 {
        law_stored_fields_stand_in_order(fields, protected, n - 1);
        law_stored_fields(fields, protected, n - 1);
        let before = stored_fields(fields, protected, n - 1);
        let after = stored_fields(fields, protected, n);
        assert forall|a: int, b: int| 0 <= a < b < after.len() implies (
        #[trigger] after[a]).position < (#[trigger] after[b]).position by {
            assert(after[a] == before[a]);
            if b < before.len() {
                assert(after[b] == before[b]);
            }
        }
    }
}

/// Of a note with a notetype whose last field is at `max_position`, a field is stored exactly where it
/// is not empty, not protected, and not behind that position; its content is stored at its position.
pub proof fn law_fields_are_stored_up_to_the_last_position(
    fields: Seq<String>,
    protected: Seq<u32>,
    max_position: u32,
    p: int,
)
    requires
        0 <= p < fields.len(),
    ensures
        ({
            let stored = stored_fields(fields, protected, fitting(fields.len(), max_position));
            (exists|k: int| 0 <= k < stored.len() && (#[trigger] stored[k]).position == p
                && stored[k].content == fields[p]@) <==> p <= max_position && fields[p]@.len() > 0
                && !protected.contains(p as u32)
        }),
        ({
            let stored = stored_fields(fields, protected, fitting(fields.len(), max_position));
            forall|k: int|
                0 <= k < stored.len() ==> 0 <= (#[trigger] stored[k]).position <= max_position
                    && stored[k].position < fields.len() && stored[k].content
                    == fields[stored[k].position]@
        }),
{
    let n = fitting(fields.len(), max_position);
    let stored = stored_fields(fields, protected, n);
    law_stored_fields(fields, protected, n);
    assert forall|k: int| 0 <= k < stored.len() implies 0 <= (#[trigger] stored[k]).position
        <= max_position && stored[k].position < fields.len() && stored[k].content
        == fields[stored[k].position]@ by {
        let f = stored_fields(fields, protected, n)[k];
    }
    if p <= max_position && fields[p]@.len() > 0 && !protected.contains(p as u32) {
        assert(p < n);
        let k = choose|k: int|
            0 <= k < stored_fields(fields, protected, n).len() && (#[trigger] stored_fields(
                fields,
                protected,
                n,
            )[k]).position == p;
        assert(stored[k].position == p);
    }
}

proof fn lemma_six(
    a: Seq<char>,
    b: Seq<char>,
    c: Seq<char>,
    d: Seq<char>,
    e: Seq<char>,
    f: Seq<char>,
)
    ensures
        text::interleaved(seq![a, b, c, d, e, f], ", "@) == a + ", "@ + b + ", "@ + c + ", "@ + d
            + ", "@ + e + ", "@ + f,
        "("@ + text::interleaved(seq![a, b, c, d, e, f], ", "@) + ")"@ == "("@ + a + ", "@ + b
            + ", "@ + c + ", "@ + d + ", "@ + e + ", "@ + f + ")"@,
{
    reveal_with_fuel(text::interleaved, 7);
    let comma = ", "@;
    let open = "("@;
    assert(seq![a, b, c, d, e, f].drop_last() =~= seq![a, b, c, d, e]);
    assert(seq![a, b, c, d, e].drop_last() =~= seq![a, b, c, d]);
    assert(seq![a, b, c, d].drop_last() =~= seq![a, b, c]);
    assert(seq![a, b, c].drop_last() =~= seq![a, b]);
    assert(seq![a, b].drop_last() =~= seq![a]);
    let two = a + comma + b;
    let three = two + comma + c;
    let four = three + comma + d;
    let five = four + comma + e;
    let six = five + comma + f;
    lemma_behind(open, a, comma, b);
    lemma_behind(open, two, comma, c);
    lemma_behind(open, three, comma, d);
    lemma_behind(open, four, comma, e);
    lemma_behind(open, five, comma, f);
}

proof fn lemma_behind(open: Seq<char>, before: Seq<char>, comma: Seq<char>, next: Seq<char>)
    ensures
        open + (before + comma + next) == (open + before) + comma + next,
{
    assert(open + (before + comma + next) =~= (open + before) + comma + next);
}

/// The query that stores fields lists as many groups of six parameters as there are fields, with one
/// comma between each two. The parameters are numbered from one on without a gap.
pub proof fn law_field_queries_list_all_groups(count: nat)
    ensures
        field_groups(count) == text::interleaved(
            Seq::new(
                count,
                |n: int|
                    "("@ + text::interleaved(
                        Seq::new(6, |k: int| "$"@ + text::decimal((6 * n + k + 1) as nat)),
                        ", "@,
                    ) + ")"@,
            ),
            ","@,
        ),
    decreases count,
{
    let group = |n: int|
        "("@ + text::interleaved(
            Seq::new(6, |k: int| "$"@ + text::decimal((6 * n + k + 1) as nat)),
            ", "@,
        ) + ")"@;
    let list = Seq::new(count, group);
    assert forall|n: nat| #[trigger] field_group(n) == group(n as int) by {
        let p = Seq::new(6, |k: int| "$"@ + text::decimal((6 * (n as int) + k + 1) as nat));
        let q = seq![
            parameter(6 * n + 1),
            parameter(6 * n + 2),
            parameter(6 * n + 3),
            parameter(6 * n + 4),
            parameter(6 * n + 5),
            parameter(6 * n + 6),
        ];
        lemma_six(q[0], q[1], q[2], q[3], q[4], q[5]);
        assert(p =~= q);
    }
    if count == 1 {
        assert(list[0] == field_group(0));
    } else if count > 1 {
        law_field_queries_list_all_groups((count - 1) as nat);
        assert(list.drop_last() =~= Seq::new((count - 1) as nat, group));
        assert(list.last() == field_group((count - 1) as nat));
    }
}

/// The query that stores tags lists as many groups as there are tags, with one comma between each two.
/// A group is four parameters, the word `true`, and a fifth parameter; the parameters are numbered from
/// one on without a gap.
pub proof fn law_tag_queries_list_all_groups(count: nat)
    ensures
        tag_groups(count) == text::interleaved(
            Seq::new(
                count,
                |n: int|
                    "("@ + text::interleaved(
                        Seq::new(4, |k: int| "$"@ + text::decimal((5 * n + k + 1) as nat)).push(
                            "true"@,
                        ).push("$"@ + text::decimal((5 * n + 5) as nat)),
                        ", "@,
                    ) + ")"@,
            ),
            ","@,
        ),
    decreases count,
{
    let group = |n: int|
        "("@ + text::interleaved(
            Seq::new(4, |k: int| "$"@ + text::decimal((5 * n + k + 1) as nat)).push("true"@).push(
                "$"@ + text::decimal((5 * n + 5) as nat),
            ),
            ", "@,
        ) + ")"@;
    let list = Seq::new(count, group);
    assert forall|n: nat| #[trigger] tag_group(n) == group(n as int) by {
        let p = Seq::new(4, |k: int| "$"@ + text::decimal((5 * (n as int) + k + 1) as nat)).push(
            "true"@,
        ).push("$"@ + text::decimal((5 * (n as int) + 5) as nat));
        let q = seq![
            parameter(5 * n + 1),
            parameter(5 * n + 2),
            parameter(5 * n + 3),
            parameter(5 * n + 4),
            "true"@,
            parameter(5 * n + 5),
        ];
        lemma_six(q[0], q[1], q[2], q[3], q[4], q[5]);
        assert(p =~= q);
        let four = "("@ + q[0] + ", "@ + q[1] + ", "@ + q[2] + ", "@ + q[3];
        reveal_strlit("true");
        reveal_strlit(", ");
        reveal_strlit(", true, ");
        assert(four + ", true, "@ =~= four + ", "@ + "true"@ + ", "@);
    }
    if count == 1 {
        assert(list[0] == tag_group(0));
    } else if count > 1 {
        law_tag_queries_list_all_groups((count - 1) as nat);
        assert(list.drop_last() =~= Seq::new((count - 1) as nat, group));
        assert(list.last() == tag_group((count - 1) as nat));
    }
}

/// The tags that are stored are those that were approved, each as often as it was, in their order:
/// behind those of a first part of the tags stand those of the rest.
pub proof fn law_approved_tags_stand_in_order(
    tags: Seq<String>,
    approved: Seq<bool>,
    n: int,
    i: int,
)
    requires
        0 <= i < n <= tags.len(),
        tags.len() == approved.len(),
    ensures
        ({
            let all = approved_tags(tags, approved, n);
            let before = approved_tags(tags, approved, i);
            let behind = approved_tags(tags.skip(i + 1), approved.skip(i + 1), n - i - 1);
            all == if approved[i] {
                before + seq![tags[i]@] + behind
            } else {
                before + behind
            }
        }),
        approved_tags(tags, approved, 0).len() == 0,
        approved_tags(tags, approved, n).len() <= n,
    decreases n,
{
    let all = approved_tags(tags, approved, n);
    let before = approved_tags(tags, approved, i);
    let behind = approved_tags(tags.skip(i + 1), approved.skip(i + 1), n - i - 1);
    if i == n - 1 {
        assert(behind =~= Seq::empty());
        if i > 0 {
            law_approved_tags_stand_in_order(tags, approved, n - 1, 0);
        }
    } else {
        law_approved_tags_stand_in_order(tags, approved, n - 1, i);
        assert(tags.skip(i + 1)[n - i - 2] == tags[n - 1]);
        assert(approved.skip(i + 1)[n - i - 2] == approved[n - 1]);
    }
    assert(all =~= if approved[i] {
        before + seq![tags[i]@] + behind
    } else {
        before + behind
    });
}

/// A notetype is unpacked exactly where it is not known and none before it in the list has its guid, in
/// the order of the list: each guid that is not known is unpacked once.
pub proof fn law_each_new_notetype_is_unpacked_once(
    models: Seq<Notetype>,
    known: Set<Seq<char>>,
    n: int,
)
    requires
        0 <= n <= models.len(),
    ensures
        forall|i: int| #[trigger]
            new_models(models, known, n).contains(i) <==> 0 <= i < n && !known.contains(
                models[i].crowdanki_uuid@,
            ) && forall|j: int|
                0 <= j < i ==> (#[trigger] models[j]).crowdanki_uuid@ != models[i].crowdanki_uuid@,
        forall|a: int, b: int|
            0 <= a < b < new_models(models, known, n).len() ==> #[trigger] new_models(
                models,
                known,
                n,
            )[a] < #[trigger] new_models(models, known, n)[b],
    decreases n,
{
    if n > 0 {
        law_each_new_notetype_is_unpacked_once(models, known, n - 1);
        let before = new_models(models, known, n - 1);
        let after = new_models(models, known, n);
        assert forall|i: int| #[trigger] after.contains(i) <==> 0 <= i < n && !known.contains(
            models[i].crowdanki_uuid@,
        ) && forall|j: int|
            0 <= j < i ==> (#[trigger] models[j]).crowdanki_uuid@ != models[i].crowdanki_uuid@ by {
            assert(before.contains(i) <==> 0 <= i < n - 1 && !known.contains(
                models[i].crowdanki_uuid@,
            ) && forall|j: int|
                0 <= j < i ==> (#[trigger] models[j]).crowdanki_uuid@ != models[i].crowdanki_uuid@);
            if after.len() > before.len() {
                vstd::seq_lib::lemma_seq_contains_after_push(before, n - 1, i);
            }
        }
        assert forall|a: int, b: int| 0 <= a < b < after.len() implies #[trigger] after[a]
            < #[trigger] after[b] by {
            assert(after[a] == before[a]);
            assert(before.contains(before[a]));
            if b < before.len() {
                assert(after[b] == before[b]);
            }
        }
    }
}

/// A guid is known exactly where a row has it, and stands for what the last such row says.
pub proof fn law_the_last_row_of_a_guid_counts(rows: Seq<ExistingNote>, i: int)
    requires
        0 <= i < rows.len(),
        forall|j: int| i < j < rows.len() ==> (#[trigger] rows[j]).guid@ != rows[i].guid@,
    ensures
        notes_by_guid(rows).contains_key(rows[i].guid@),
        notes_by_guid(rows)[rows[i].guid@].id == rows[i].id,
        notes_by_guid(rows)[rows[i].guid@].deck == rows[i].deck,
        forall|guid: Seq<char>| #[trigger]
            notes_by_guid(rows).contains_key(guid) ==> exists|j: int|
                0 <= j < rows.len() && (#[trigger] rows[j]).guid@ == guid,
    decreases rows.len(),
{
    lemma_guids_of_rows(rows);
    let shorter = rows.drop_last();
    if i < rows.len() - 1 {
        assert(rows[rows.len() - 1].guid@ != rows[i].guid@);
        assert forall|j: int| i < j < shorter.len() implies (#[trigger] shorter[j]).guid@
            != shorter[i].guid@ by {
            assert(rows[j].guid@ != rows[i].guid@);
        }
        law_the_last_row_of_a_guid_counts(shorter, i);
    }
}

proof fn lemma_guids_of_rows(rows: Seq<ExistingNote>)
    ensures
        forall|guid: Seq<char>| #[trigger]
            notes_by_guid(rows).contains_key(guid) ==> exists|j: int|
                0 <= j < rows.len() && (#[trigger] rows[j]).guid@ == guid,
    decreases rows.len(),
{
    if rows.len() > 0 {
        let shorter = rows.drop_last();
        lemma_guids_of_rows(shorter);
        assert forall|guid: Seq<char>| #[trigger]
            notes_by_guid(rows).contains_key(guid) implies exists|j: int|
            0 <= j < rows.len() && (#[trigger] rows[j]).guid@ == guid by {
            if guid == rows.last().guid@ {
                assert(rows[rows.len() - 1].guid@ == guid);
            } else {
                assert(notes_by_guid(shorter).contains_key(guid));
                let j = choose|j: int| 0 <= j < shorter.len() && (#[trigger] shorter[j]).guid@ == guid;
                assert(rows[j].guid@ == guid);
            }
        }
    }
}

/// What is done to a note tells its place in the list: the notes that are known and those that are new
/// stand in the order of the list, each known one with its own number and deck.
pub proof fn law_known_and_new_notes_stand_in_order(
    notes: Seq<Note>,
    stored: Map<Seq<char>, NotePlace>,
    n: int,
)
    requires
        0 <= n <= notes.len(),
    ensures
        forall|k: int|
            0 <= k < known_notes(notes, stored, n).len() ==> {
                let (i, place) = #[trigger] known_notes(notes, stored, n)[k];
                0 <= i < n && stored.contains_key(notes[i].guid@) && place == stored[notes[i].guid@]
            },
        forall|k: int|
            0 <= k < fresh_notes(notes, stored, n).len() ==> 0 <= #[trigger] fresh_notes(
                notes,
                stored,
                n,
            )[k] < n && !stored.contains_key(notes[fresh_notes(notes, stored, n)[k]].guid@),
        forall|a: int, b: int|
            0 <= a < b < known_notes(notes, stored, n).len() ==> (#[trigger] known_notes(
                notes,
                stored,
                n,
            )[a]).0 < (#[trigger] known_notes(notes, stored, n)[b]).0,
        forall|a: int, b: int|
            0 <= a < b < fresh_notes(notes, stored, n).len() ==> #[trigger] fresh_notes(
                notes,
                stored,
                n,
            )[a] < #[trigger] fresh_notes(notes, stored, n)[b],
    decreases n,
{
    if n > 0 {
        law_known_and_new_notes_stand_in_order(notes, stored, n - 1);
        let known = known_notes(notes, stored, n - 1);
        let fresh = fresh_notes(notes, stored, n - 1);
        let all_known = known_notes(notes, stored, n);
        let all_fresh = fresh_notes(notes, stored, n);
        assert forall|k: int| 0 <= k < all_known.len() implies {
            let (i, place) = #[trigger] all_known[k];
            0 <= i < n && stored.contains_key(notes[i].guid@) && place == stored[notes[i].guid@]
        } by {
            if k < known.len() {
                assert(all_known[k] == known[k]);
            }
        }
        assert forall|k: int| 0 <= k < all_fresh.len() implies 0 <= #[trigger] all_fresh[k] < n
            && !stored.contains_key(notes[all_fresh[k]].guid@) by {
            if k < fresh.len() {
                assert(all_fresh[k] == fresh[k]);
            }
        }
        assert forall|a: int, b: int| 0 <= a < b < all_known.len() implies (
        #[trigger] all_known[a]).0 < (#[trigger] all_known[b]).0 by {
            assert(all_known[a] == known[a]);
            if b < known.len() {
                assert(all_known[b] == known[b]);
            }
        }
        assert forall|a: int, b: int| 0 <= a < b < all_fresh.len() implies #[trigger] all_fresh[a]
            < #[trigger] all_fresh[b] by {
            assert(all_fresh[a] == fresh[a]);
            if b < fresh.len() {
                assert(all_fresh[b] == fresh[b]);
            }
        }
    }
}

/// The triggers rest exactly for more than five thousand notes, and there is something to begin with
/// exactly where there is a note.
pub proof fn law_triggers_rest_for_many_notes(total: int)
    requires
        0 <= total,
    ensures
        first_stage(total) == UnpackStage::Rest <==> total > 5000,
        first_stage(total) == UnpackStage::Finished <==> total == 0,
        0 < total <= 5000 ==> first_stage(total) == UnpackStage::Begin,
{
}

/// A query names as many columns as each of its groups has parameters: first the note, then what is
/// stored of it, whether it is reviewed, where it comes from, and its commit.
pub proof fn law_queries_name_their_columns()
    ensures
        field_query_head() == "INSERT INTO fields ("@ + text::interleaved(
            seq!["note"@, "position"@, "content"@, "reviewed"@, "creator_ip"@, "commit"@],
            ", "@,
        ) + ") VALUES "@,
        tag_query_head() == "INSERT INTO tags ("@ + text::interleaved(
            seq!["note"@, "content"@, "reviewed"@, "creator_ip"@, "action"@, "commit"@],
            ", "@,
        ) + ") VALUES "@,
{
    lemma_six("note"@, "position"@, "content"@, "reviewed"@, "creator_ip"@, "commit"@);
    lemma_six("note"@, "content"@, "reviewed"@, "creator_ip"@, "action"@, "commit"@);
    reveal_strlit("INSERT INTO fields (note, position, content, reviewed, creator_ip, commit) VALUES ");
    reveal_strlit("INSERT INTO tags (note, content, reviewed, creator_ip, action, commit) VALUES ");
    reveal_strlit("INSERT INTO fields (");
    reveal_strlit("INSERT INTO tags (");
    reveal_strlit("note");
    reveal_strlit("position");
    reveal_strlit("content");
    reveal_strlit("reviewed");
    reveal_strlit("creator_ip");
    reveal_strlit("action");
    reveal_strlit("commit");
    reveal_strlit(") VALUES ");
    reveal_strlit(", ");
    assert(field_query_head() =~= "INSERT INTO fields ("@ + ("note"@ + ", "@ + "position"@ + ", "@
        + "content"@ + ", "@ + "reviewed"@ + ", "@ + "creator_ip"@ + ", "@ + "commit"@)
        + ") VALUES "@);
    assert(tag_query_head() =~= "INSERT INTO tags ("@ + ("note"@ + ", "@ + "content"@ + ", "@
        + "reviewed"@ + ", "@ + "creator_ip"@ + ", "@ + "action"@ + ", "@ + "commit"@)
        + ") VALUES "@);
}

/// A transaction ends only where 250 more notes are stored, or all of them; and nothing is left to be
/// done only where all of them are.
pub proof fn law_notes_are_stored_in_batches(unpack: NoteUnpack)
    requires
        unpack.wf(),
    ensures
        unpack.stage == UnpackStage::Commit ==> unpack.done % 250 == 0 || unpack.done
            == unpack.chosen@.len(),
        unpack.stage == UnpackStage::Begin ==> unpack.done % 250 == 0 && unpack.done
            < unpack.chosen@.len(),
        unpack.stage == UnpackStage::Wake ==> unpack.chosen@.len() > 5000,
        unpack.stage == UnpackStage::Wake || unpack.stage == UnpackStage::Finished ==> unpack.done
            == unpack.chosen@.len(),
{
}

/// A record of a field stands for its content at its position.
pub proof fn law_field_records_stand_for_themselves(list: Seq<NewNoteField>, i: int)
    requires
        0 <= i < list.len(),
    ensures
        placed_fields(list).len() == list.len(),
        placed_fields(list)[i].position == list[i].position,
        placed_fields(list)[i].content == list[i].content@,
{
}

} // verus!
