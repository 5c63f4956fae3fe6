//! What a client gets that asks for the changes of a deck.
use std::collections::HashMap;
use vstd::prelude::*;

use crate::lists;
use crate::structs::{AnkiDeck, GDriveInfo, GoogleServiceAccount, Note, NoteModel, Notetype};
use crate::structs::UpdateInfoResponse;
use crate::text;

verus! {

broadcast use vstd::std_specs::hash::group_hash_axioms;

/// A note that was changed: its number and its guid, and the guid and the number of its notetype.
#[derive(Debug, PartialEq)]
pub struct ChangedNote {
    pub id: i64,
    pub guid: String,
    pub model_guid: String,
    pub model_id: i64,
}

/// The content of a field of a note.
#[derive(Debug, PartialEq)]
pub struct FieldRow {
    pub note: i64,
    pub content: String,
    pub position: u32,
}

/// A tag of a note.
#[derive(Debug, PartialEq)]
pub struct TagRow {
    pub note: i64,
    pub content: String,
}

/// What a note holds.
pub struct NoteContent {
    pub fields: Seq<Seq<char>>,
    pub guid: Seq<char>,
    pub model_guid: Seq<char>,
    pub tags: Seq<Seq<char>>,
}

/// What a note holds.
pub open spec fn content_of(note: Note) -> NoteContent {
    NoteContent {
        fields: text::texts(note.fields@),
        guid: note.guid@,
        model_guid: note.note_model_uuid@,
        tags: text::texts(note.tags@),
    }
}

/// What the notes hold.
pub open spec fn contents_of(notes: Seq<Note>) -> Seq<NoteContent> {
    notes.map_values(|n: Note| content_of(n))
}

/// The notes to which the fields belong.
pub open spec fn field_notes(rows: Seq<FieldRow>) -> Seq<i64> {
    rows.map_values(|r: FieldRow| r.note)
}

/// The notes to which the tags belong.
pub open spec fn tag_notes(rows: Seq<TagRow>) -> Seq<i64> {
    rows.map_values(|r: TagRow| r.note)
}

/// `size` fields, empty but for those to which the rows at the places give a content; the last
/// one counts, and one for a field that there is not is passed over.
pub open spec fn filled_fields(rows: Seq<FieldRow>, places: Seq<int>, size: nat) -> Seq<Seq<char>>
    decreases places.len(),
{
    if places.len() == 0 {
        Seq::new(size, |i: int| Seq::<char>::empty())
    } else {
        let before = filled_fields(rows, places.drop_last(), size);
        let row = rows[places.last()];
        if row.position < size {
            before.update(row.position as int, row.content@)
        } else {
            before
        }
    }
}

/// What a changed note holds; nothing where it has no field at all.
pub open spec fn changed_content(
    note: ChangedNote,
    fields: Seq<FieldRow>,
    tags: Seq<TagRow>,
    size: nat,
) -> Option<NoteContent> {
    let of_fields = lists::places(field_notes(fields), note.id, fields.len() as int);
    let of_tags = lists::places(tag_notes(tags), note.id, tags.len() as int);
    if of_fields.len() == 0 {
        None
    } else {
        Some(
            NoteContent {
                fields: filled_fields(fields, of_fields, size),
                guid: note.guid@,
                model_guid: note.model_guid@,
                tags: of_tags.map_values(|i: int| tags[i].content@),
            },
        )
    }
}

/// The notes of a deck that were changed, gathered batch by batch.
pub struct ChangedNotes {
    pub notes: Vec<Note>,
    pub sizes: HashMap<i64, i32>,
    pub cursor: Option<i64>,
}

/// The number of fields of each notetype of the notes is known.
pub open spec fn sizes_are_known(batch: Seq<ChangedNote>, sizes: Map<i64, i32>) -> bool {
    forall|i: int|
        0 <= i < batch.len() ==> sizes.contains_key((#[trigger] batch[i]).model_id)
            && sizes[batch[i].model_id] >= 0
}

/// `size` empty fields.
fn empty_fields(size: usize) -> (r: Vec<String>)
    ensures
        text::texts(r@) == Seq::new(size as nat, |i: int| Seq::<char>::empty()),
{
    let mut out: Vec<String> = Vec::new();
    let mut i: usize = 0;
    while i < size
        invariant
            i <= size,
            out@.len() == i,
            forall|j: int| 0 <= j < i ==> (#[trigger] out@[j])@.len() == 0,
        decreases size - i,
    {
        out.push(String::new());
        i += 1;
    }
    assert(text::texts(out@) =~= Seq::new(size as nat, |i: int| Seq::<char>::empty())) by {
        assert forall|j: int| 0 <= j < size implies text::texts(out@)[j] =~= Seq::<char>::empty() by {
            assert(out@[j]@.len() == 0);
        }
    }
    out
}

/// The fields of a note, of which the rows at the places give the contents.
fn fill_fields(rows: &Vec<FieldRow>, places: &Vec<usize>, size: usize) -> (r: Vec<String>)
    requires
        forall|j: int| 0 <= j < places@.len() ==> (#[trigger] places@[j]) < rows@.len(),
    ensures
        text::texts(r@) == filled_fields(rows@, lists::as_places(places@), size as nat),
{
    let mut fields = empty_fields(size);
    let ghost all = lists::as_places(places@);
    let mut i: usize = 0;
    assert(all.take(0) =~= Seq::<int>::empty());
    assert(text::texts(fields@).len() == size);
    while i < places.len()
        invariant
            i <= places@.len(),
            all == lists::as_places(places@),
            forall|j: int| 0 <= j < places@.len() ==> (#[trigger] places@[j]) < rows@.len(),
            fields@.len() == size,
            text::texts(fields@) == filled_fields(rows@, all.take(i as int), size as nat),
        decreases places@.len() - i,
    {
        let row = &rows[places[i]];
        let ghost before = fields@;
        assert(all.take(i + 1).drop_last() =~= all.take(i as int));
        assert(all.take(i + 1).last() == places@[i as int] as int);
        if (row.position as usize) < size {
            let content = row.content.clone();
            fields.set(row.position as usize, content);
            assert(text::texts(fields@) =~= text::texts(before).update(
                row.position as int,
                row.content@,
            ));
        }
        i += 1;
    }
    assert(all.take(all.len() as int) =~= all);
    fields
}

impl ChangedNotes {
    /// Nothing has been gathered yet.
    pub fn new() -> (r: Self)
        ensures
            r.notes@.len() == 0,
            r.sizes@ == Map::<i64, i32>::empty(),
            r.cursor is None,
    {
        ChangedNotes { notes: Vec::new(), sizes: HashMap::new(), cursor: None }
    }

    /// The notetypes of the notes whose number of fields is not known yet, each once.
    pub fn needed_sizes(&self, batch: &Vec<ChangedNote>) -> (r: Vec<i64>)
        ensures
            r@.no_duplicates(),
            forall|model: i64| #[trigger]
                r@.contains(model) <==> !self.sizes@.contains_key(model) && exists|i: int|
                    0 <= i < batch@.len() && (#[trigger] batch@[i]).model_id == model,
    {
        let mut out: Vec<i64> = Vec::new();
        let mut i: usize = 0;
        while i < batch.len()
            invariant
                i <= batch@.len(),
                out@.no_duplicates(),
                forall|model: i64| #[trigger]
                    out@.contains(model) <==> !self.sizes@.contains_key(model) && exists|k: int|
                        0 <= k < i && (#[trigger] batch@[k]).model_id == model,
            decreases batch@.len() - i,
        {
            let model = batch[i].model_id;
            let ghost before = out@;
            if !self.sizes.contains_key(&model) && !lists::holds(&out, model) {
                out.push(model);
            }
            assert forall|m: i64| #[trigger]
                out@.contains(m) <==> !self.sizes@.contains_key(m) && exists|k: int|
                    0 <= k < i + 1 && (#[trigger] batch@[k]).model_id == m by {
                vstd::seq_lib::lemma_seq_contains_after_push(before, model, m);
                assert(batch@[i as int].model_id == model);
                if before.contains(m) {
                    let k = choose|k: int| 0 <= k < i && (#[trigger] batch@[k]).model_id == m;
                    assert(batch@[k].model_id == m);
                }
            }
            i += 1;
        }
        out
    }

    /// Takes the number of fields of a notetype.
    pub fn learn_size(&mut self, model_id: i64, size: i32)
        ensures
            final(self).notes == old(self).notes,
            final(self).cursor == old(self).cursor,
            final(self).sizes@ == old(self).sizes@.insert(model_id, size),
    {
        self.sizes.insert(model_id, size);
    }

    /// Whether the number of fields of each notetype of the notes is known.
    pub fn knows_sizes(&self, batch: &Vec<ChangedNote>) -> (r: bool)
        ensures
            r == sizes_are_known(batch@, self.sizes@),
    {
        let mut i: usize = 0;
        while i < batch.len()
            invariant
                i <= batch@.len(),
                forall|j: int|
                    0 <= j < i ==> self.sizes@.contains_key((#[trigger] batch@[j]).model_id)
                        && self.sizes@[batch@[j].model_id] >= 0,
            decreases batch@.len() - i,
        {
            match self.sizes.get(&batch[i].model_id) {
                Some(size) => {
                    if *size < 0 {
                        return false;
                    }
                },
                None => {
                    return false;
                },
            }
            i += 1;
        }
        true
    }

    /// Takes a batch of changed notes with their fields and tags. The notes that have a field are
    /// added in their order, and the next batch begins behind the last of them.
    pub fn take_batch(
        &mut self,
        batch: &Vec<ChangedNote>,
        field_rows: &Vec<FieldRow>,
        tag_rows: &Vec<TagRow>,
    )
        requires
            sizes_are_known(batch@, old(self).sizes@),
            batch@.len() > 0,
        ensures
            contents_of(final(self).notes@) == contents_of(old(self).notes@) + batch@.filter_map(
                |n: ChangedNote|
                    changed_content(
                        n,
                        field_rows@,
                        tag_rows@,
                        old(self).sizes@[n.model_id] as nat,
                    ),
            ),
            final(self).sizes == old(self).sizes,
            final(self).cursor == Some(batch@.last().id),
    {
        let ghost sizes = self.sizes@;
        let ghost content = |n: ChangedNote|
            changed_content(n, field_rows@, tag_rows@, sizes[n.model_id] as nat);
        let mut field_keys: Vec<i64> = Vec::new();
        let mut f: usize = 0;
        while f < field_rows.len()
            invariant
                f <= field_rows@.len(),
                field_keys@ == field_notes(field_rows@).take(f as int),
            decreases field_rows@.len() - f,
        {
            field_keys.push(field_rows[f].note);
            f += 1;
        }
        let mut tag_keys: Vec<i64> = Vec::new();
        let mut t: usize = 0;
        while t < tag_rows.len()
            invariant
                t <= tag_rows@.len(),
                tag_keys@ == tag_notes(tag_rows@).take(t as int),
            decreases tag_rows@.len() - t,
        {
            tag_keys.push(tag_rows[t].note);
            t += 1;
        }
        assert(field_keys@ =~= field_notes(field_rows@));
        assert(tag_keys@ =~= tag_notes(tag_rows@));
        let fields_map = lists::group_places(&field_keys);
        let tags_map = lists::group_places(&tag_keys);
        let mut i: usize = 0;
        proof {
            reveal(Seq::filter_map);
            assert(batch@.take(0) =~= Seq::<ChangedNote>::empty());
            assert(contents_of(self.notes@) + batch@.take(0).filter_map(content) =~= contents_of(
                self.notes@,
            ));
        }
        while i < batch.len()
            invariant
                i <= batch@.len(),
                sizes == old(self).sizes@,
                self.sizes == old(self).sizes,
                self.cursor == old(self).cursor,
                sizes_are_known(batch@, sizes),
                content == (|n: ChangedNote|
                    changed_content(n, field_rows@, tag_rows@, sizes[n.model_id] as nat)),
                field_keys@ == field_notes(field_rows@),
                tag_keys@ == tag_notes(tag_rows@),
                lists::are_groups(fields_map@, field_keys@, field_keys@.len() as int),
                lists::are_groups(tags_map@, tag_keys@, tag_keys@.len() as int),
                contents_of(self.notes@) == contents_of(old(self).notes@) + batch@.take(
                    i as int,
                ).filter_map(content),
            decreases batch@.len() - i,
        {
            let note = &batch[i];
            let ghost before = self.notes@;
            proof {
                reveal(Seq::filter_map);
                assert(batch@.take(i + 1).drop_last() =~= batch@.take(i as int));
                assert(batch@.take(i + 1).last() == *note);
                lists::lemma_places(field_keys@, note.id, field_keys@.len() as int);
                lists::lemma_places(tag_keys@, note.id, tag_keys@.len() as int);
            }
            let size: usize = match self.sizes.get(&note.model_id) {
                Some(size) => *size as usize,
                None => 0,
            };
            match fields_map.get(&note.id) {
                Some(places) => {
                    assert(lists::as_places(places@) == lists::places(
                        field_keys@,
                        note.id,
                        field_keys@.len() as int,
                    ));
                    assert forall|j: int| 0 <= j < places@.len() implies (#[trigger] places@[j])
                        < field_rows@.len() by {
                        assert(lists::as_places(places@)[j] == places@[j] as int);
                    }
                    let fields = fill_fields(field_rows, places, size);
                    let mut tags: Vec<String> = Vec::new();
                    let ghost of_tags = lists::places(
                        tag_keys@,
                        note.id,
                        tag_keys@.len() as int,
                    );
                    if let Some(tag_places) = tags_map.get(&note.id) {
                        assert(lists::as_places(tag_places@) == of_tags);
                        let mut k: usize = 0;
                        while k < tag_places.len()
                            invariant
                                k <= tag_places@.len(),
                                of_tags == lists::as_places(tag_places@),
                                tag_keys@.len() == tag_rows@.len(),
                                forall|j: int|
                                    0 <= j < of_tags.len() ==> 0 <= #[trigger] of_tags[j]
                                        < tag_rows@.len(),
                                text::texts(tags@) == of_tags.take(k as int).map_values(
                                    |i: int| tag_rows@[i].content@,
                                ),
                            decreases tag_places@.len() - k,
                        {
                            assert(of_tags[k as int] == tag_places@[k as int] as int);
                            let tag = tag_rows[tag_places[k]].content.clone();
                            let ghost tags_before = tags@;
                            tags.push(tag);
                            assert(text::texts(tags@) =~= text::texts(tags_before).push(tag@));
                            assert(text::texts(tags@) =~= of_tags.take(k + 1).map_values(
                                |i: int| tag_rows@[i].content@,
                            ));
                            k += 1;
                        }
                        assert(of_tags.take(of_tags.len() as int) =~= of_tags);
                    }
                    assert(text::texts(tags@) =~= of_tags.map_values(
                        |i: int| tag_rows@[i].content@,
                    ));
                    let whole = Note {
                        fields,
                        guid: note.guid.clone(),
                        note_model_uuid: note.model_guid.clone(),
                        tags,
                    };
                    assert(content(*note) == Some(content_of(whole)));
                    self.notes.push(whole);
                    assert(contents_of(self.notes@) =~= contents_of(before).push(
                        content_of(whole),
                    ));
                },
                None => {
                    assert(content(*note) is None);
                },
            }
            i += 1;
        }
        assert(batch@.take(batch@.len() as int) =~= batch@);
        let last: usize = batch.len() - 1;
        self.cursor = Some(batch[last].id);
        assert(content =~= |n: ChangedNote|
            changed_content(n, field_rows@, tag_rows@, old(self).sizes@[n.model_id] as nat));
    }
}

/// A note gets as many fields as its notetype has, and each of them is empty or what a row of the
/// note says of that field.
pub proof fn law_fields_fit_the_notetype(rows: Seq<FieldRow>, places: Seq<int>, size: nat)
    ensures
        filled_fields(rows, places, size).len() == size,
        forall|p: int| #![trigger filled_fields(rows, places, size)[p]]
            0 <= p < size ==> filled_fields(rows, places, size)[p].len() == 0 || exists|j: int|
                0 <= j < places.len() && rows[#[trigger] places[j]].position == p
                    && rows[places[j]].content@ == filled_fields(rows, places, size)[p],
    decreases places.len(),
{
    if places.len() > 0 {
        let shorter = places.drop_last();
        law_fields_fit_the_notetype(rows, shorter, size);
        let before = filled_fields(rows, shorter, size);
        let after = filled_fields(rows, places, size);
        assert forall|p: int| #![trigger after[p]] 0 <= p < size implies after[p].len() == 0
            || exists|j: int|
            0 <= j < places.len() && rows[#[trigger] places[j]].position == p
                && rows[places[j]].content@ == after[p] by {
            if p == rows[places.last()].position {
                assert(rows[places[places.len() - 1]].position == p);
            } else {
                assert(after[p] == before[p]);
                if before[p].len() != 0 {
                    let j = choose|j: int|
                        0 <= j < shorter.len() && rows[#[trigger] shorter[j]].position == p
                            && rows[shorter[j]].content@ == before[p];
                    assert(places[j] == shorter[j]);
                }
            }
        }
    }
}

/// A deck of the database.
#[derive(Debug, PartialEq)]
pub struct DeckRow {
    pub id: i64,
    pub name: String,
    pub description: String,
    pub crowdanki_uuid: String,
    pub owner: i32,
}

/// The deck that was asked for; an error where there is none, or none that was changed.
pub fn found_deck(row: Option<DeckRow>) -> (r: Result<DeckRow, String>)
    ensures
        match r {
            Ok(deck) => row == Some(deck),
            Err(e) => row is None && e@ == "No deck found"@,
        },
{
    match row {
        Some(deck) => Ok(deck),
        None => Err("No deck found".to_owned()),
    }
}

/// A deck with what it holds.
pub fn assemble_deck(
    row: DeckRow,
    children: Vec<AnkiDeck>,
    note_models: Vec<Notetype>,
    notes: Vec<Note>,
    media_files: Vec<String>,
) -> (r: AnkiDeck)
    ensures
        r.crowdanki_uuid == row.crowdanki_uuid,
        r.children == children,
        r.desc == row.description,
        r.name == row.name,
        r.note_models == Some(note_models),
        r.notes == notes,
        r.media_files == media_files,
{
    AnkiDeck {
        crowdanki_uuid: row.crowdanki_uuid,
        children,
        desc: row.description,
        name: row.name,
        note_models: Some(note_models),
        notes,
        media_files,
    }
}

/// A deck whose subdecks are still being gathered.
pub struct OpenDeck {
    pub row: DeckRow,
    pub note_models: Vec<Notetype>,
    pub notes: Vec<Note>,
    pub media_files: Vec<String>,
    /// The subdecks that have been gathered, in their order.
    pub children: Vec<AnkiDeck>,
    /// The subdecks that are still to be gathered; the last one is next.
    pub pending: Vec<DeckRow>,
}

/// What is to be done next to gather a deck.
#[derive(Debug, PartialEq)]
pub enum GatherStep {
    /// What this deck holds is to be asked for.
    Load { row: DeckRow },
    /// Nothing: a deck has been put into the one above it.
    Joined,
    /// Nothing: the topmost deck has been gathered.
    Finished { deck: AnkiDeck },
}

/// A deck that is gathered with its subdecks, one after the other.
pub struct DeckGathering {
    /// The decks that are being gathered, each below the one before it.
    pub open: Vec<OpenDeck>,
}

/// The deck that an open one becomes when its subdecks have been gathered.
pub open spec fn is_closed_deck(deck: AnkiDeck, open: OpenDeck) -> bool {
    &&& deck.crowdanki_uuid == open.row.crowdanki_uuid
    &&& deck.children == open.children
    &&& deck.desc == open.row.description
    &&& deck.name == open.row.name
    &&& deck.note_models == Some(open.note_models)
    &&& deck.notes == open.notes
    &&& deck.media_files == open.media_files
}

/// An open deck of which nothing but what it holds itself has been gathered.
pub open spec fn is_opened(
    open: OpenDeck,
    row: DeckRow,
    notes: Seq<Note>,
    note_models: Seq<Notetype>,
    media_files: Seq<String>,
    subdecks: Seq<DeckRow>,
) -> bool {
    &&& open.row == row
    &&& open.notes@ == notes
    &&& open.note_models@ == note_models
    &&& open.media_files@ == media_files
    &&& open.children@.len() == 0
    &&& open.pending@ == subdecks.reverse()
}

/// The gathering goes on: to the next subdeck of the last deck, or, where it has none left, up to
/// the deck above it.
pub open spec fn is_gather_step(
    before: Seq<OpenDeck>,
    after: Seq<OpenDeck>,
    step: GatherStep,
) -> bool {
    let last = before.last();
    let above = before.drop_last();
    if last.pending@.len() > 0 {
        &&& step == (GatherStep::Load { row: last.pending@.last() })
        &&& after.drop_last() == above
        &&& after.len() == before.len()
        &&& after.last().pending@ == last.pending@.drop_last()
        &&& after.last() == (OpenDeck { pending: after.last().pending, ..last })
    } else if above.len() == 0 {
        &&& step matches GatherStep::Finished { deck } && is_closed_deck(deck, last)
        &&& after.len() == 0
    } else {
        &&& step is Joined
        &&& after.len() == above.len()
        &&& after.drop_last() == above.drop_last()
        &&& after.last().children@.len() == above.last().children@.len() + 1
        &&& after.last().children@.drop_last() == above.last().children@
        &&& is_closed_deck(after.last().children@.last(), last)
        &&& after.last() == (OpenDeck { children: after.last().children, ..above.last() })
    }
}

impl DeckGathering {
    /// Nothing has been gathered yet.
    pub fn new() -> (r: Self)
        ensures
            r.open@.len() == 0,
    {
        DeckGathering { open: Vec::new() }
    }

    /// Takes what a deck holds, and its subdecks that were changed. Notes that could not be had
    /// are left out.
    pub fn on_loaded(
        &mut self,
        row: DeckRow,
        notes: Option<Vec<Note>>,
        note_models: Vec<Notetype>,
        media_files: Vec<String>,
        subdecks: Vec<DeckRow>,
    )
        ensures
            final(self).open@.len() == old(self).open@.len() + 1,
            final(self).open@.drop_last() == old(self).open@,
            is_opened(
                final(self).open@.last(),
                row,
                match notes {
                    Some(list) => list@,
                    None => Seq::empty(),
                },
                note_models@,
                media_files@,
                subdecks@,
            ),
    {
        let mut rest = subdecks;
        let mut pending: Vec<DeckRow> = Vec::new();
        assert(rest@.take(rest@.len() as int) =~= subdecks@);
        while rest.len() > 0
            invariant
                rest@.len() <= subdecks@.len(),
                rest@ == subdecks@.take(rest@.len() as int),
                pending@ == subdecks@.reverse().take(subdecks@.len() - rest@.len()),
            decreases rest@.len(),
        {
            let ghost before = rest@;
            if let Some(row) = rest.pop() {
                pending.push(row);
            }
            assert(rest@ =~= subdecks@.take(rest@.len() as int));
            assert(pending@ =~= subdecks@.reverse().take(subdecks@.len() - rest@.len()));
        }
        assert(pending@ =~= subdecks@.reverse());
        let held = match notes {
            Some(list) => list,
            None => Vec::new(),
        };
        self.open.push(
            OpenDeck {
                row,
                note_models,
                notes: held,
                media_files,
                children: Vec::new(),
                pending,
            },
        );
        assert(self.open@.drop_last() =~= old(self).open@);
    }

    /// Goes on: to the next subdeck of the last deck, or, where it has none left, up to the deck
    /// above it.
    pub fn step(&mut self) -> (r: GatherStep)
        requires
            old(self).open@.len() > 0,
        ensures
            is_gather_step(old(self).open@, final(self).open@, r),
    {
        match self.open.pop() {
            None => GatherStep::Joined,
            Some(mut last) => {
                assert(self.open@ =~= old(self).open@.drop_last());
                match last.pending.pop() {
                    Some(row) => {
                        self.open.push(last);
                        assert(self.open@.drop_last() =~= old(self).open@.drop_last());
                        GatherStep::Load { row }
                    },
                    None => {
                        let deck = assemble_deck(
                            last.row,
                            last.children,
                            last.note_models,
                            last.notes,
                            last.media_files,
                        );
                        match self.open.pop() {
                            None => GatherStep::Finished { deck },
                            Some(mut above) => {
                                let ghost children = above.children@;
                                above.children.push(deck);
                                assert(above.children@.drop_last() =~= children);
                                self.open.push(above);
                                assert(self.open@.drop_last() =~= old(
                                    self,
                                ).open@.drop_last().drop_last());
                                GatherStep::Joined
                            },
                        }
                    },
                }
            },
        }
    }
}

/// A deck of the database with what it holds and all changed decks below it.
pub struct DeckTree {
    pub row: DeckRow,
    pub notes: Seq<Note>,
    pub note_models: Seq<Notetype>,
    pub media_files: Seq<String>,
    pub subdecks: Seq<DeckTree>,
}

/// The rows of some decks.
pub open spec fn rows_of(decks: Seq<DeckTree>) -> Seq<DeckRow> {
    decks.map_values(|t: DeckTree| t.row)
}

/// The deck is the one of the database, with what it holds and all decks below it in their order.
pub open spec fn is_deck_of(deck: AnkiDeck, tree: DeckTree) -> bool
    decreases tree,
{
    &&& deck.crowdanki_uuid == tree.row.crowdanki_uuid
    &&& deck.desc == tree.row.description
    &&& deck.name == tree.row.name
    &&& deck.note_models matches Some(models) && models@ == tree.note_models
    &&& deck.notes@ == tree.notes
    &&& deck.media_files@ == tree.media_files
    &&& deck.children@.len() == tree.subdecks.len()
    &&& forall|i: int|
        0 <= i < tree.subdecks.len() ==> is_deck_of(
            deck.children@[i],
            #[trigger] tree.subdecks[i],
        )
}

/// The open deck is on the way to the one of the database: the first subdecks have been gathered,
/// and those from number `next` on are still to be gathered.
pub open spec fn is_on_the_way(open: OpenDeck, tree: DeckTree, next: int) -> bool {
    &&& open.row == tree.row
    &&& open.notes@ == tree.notes
    &&& open.note_models@ == tree.note_models
    &&& open.media_files@ == tree.media_files
    &&& open.children@.len() <= next <= tree.subdecks.len()
    &&& forall|i: int|
        0 <= i < open.children@.len() ==> is_deck_of(
            open.children@[i],
            #[trigger] tree.subdecks[i],
        )
    &&& open.pending@.reverse() == rows_of(tree.subdecks.skip(next))
}

/// The open decks are on the way to the first of the decks of the database, each of which is the
/// next subdeck of the one before it. `loading` says that the next subdeck of the last one has been
/// asked for.
pub open spec fn are_on_the_way(
    open: Seq<OpenDeck>,
    trees: Seq<DeckTree>,
    loading: bool,
) -> bool {
    &&& open.len() == trees.len()
    &&& forall|k: int|
        0 <= k < open.len() ==> is_on_the_way(
            #[trigger] open[k],
            trees[k],
            open[k].children@.len() + if k < open.len() - 1 || loading {
                1int
            } else {
                0
            },
        )
    &&& forall|k: int|
        0 <= k < open.len() - 1 ==> trees[k].subdecks[(#[trigger] open[k]).children@.len() as int]
            == trees[k + 1]
}

/// The subdeck that is gathered next.
pub open spec fn next_subdeck(open: Seq<OpenDeck>, trees: Seq<DeckTree>) -> DeckTree {
    trees.last().subdecks[open.last().children@.len() as int]
}

/// A step of the gathering leads on: it asks for the next subdeck, or goes up, or ends with the
/// topmost deck of the database, with what it holds and all decks below it in their order.
pub proof fn law_gathering_leads_to_the_deck(
    before: Seq<OpenDeck>,
    after: Seq<OpenDeck>,
    step: GatherStep,
    trees: Seq<DeckTree>,
)
    requires
        before.len() > 0,
        are_on_the_way(before, trees, false),
        is_gather_step(before, after, step),
    ensures
        match step {
            GatherStep::Load { row } => are_on_the_way(after, trees, true) && row == next_subdeck(
                after,
                trees,
            ).row,
            GatherStep::Joined => are_on_the_way(after, trees.drop_last(), false),
            GatherStep::Finished { deck } => is_deck_of(deck, trees[0]),
        },
{
    let n = before.len() - 1;
    let last = before.last();
    let tree = trees.last();
    let c = last.children@.len() as int;
    assert(is_on_the_way(before[n], trees[n], c));
    assert(rows_of(tree.subdecks.skip(c)).len() == last.pending@.len());
    if last.pending@.len() > 0 {
        assert(last.pending@.reverse()[0] == last.pending@.last());
        assert(rows_of(tree.subdecks.skip(c))[0] == tree.subdecks[c].row);
        assert(after.last().pending@.reverse() =~= last.pending@.reverse().skip(1));
        assert(rows_of(tree.subdecks.skip(c)).skip(1) =~= rows_of(tree.subdecks.skip(c + 1)));
        assert forall|k: int| 0 <= k < after.len() implies is_on_the_way(
            #[trigger] after[k],
            trees[k],
            after[k].children@.len() + 1int,
        ) by {
            if k < n {
                assert(after[k] == after.drop_last()[k]);
                assert(before[k] == before.drop_last()[k]);
            }
        }
        assert forall|k: int| 0 <= k < after.len() - 1 implies trees[k].subdecks[(
        #[trigger] after[k]).children@.len() as int] == trees[k + 1] by {
            assert(after[k] == after.drop_last()[k]);
            assert(before[k] == before.drop_last()[k]);
        }
    } else if n > 0 {
        let above = before.drop_last();
        let upper = trees.drop_last();
        let m = n - 1;
        let d = before[m].children@.len() as int;
        assert(is_on_the_way(before[m], trees[m], d + 1));
        assert(trees[m].subdecks[d] == trees[m + 1]);
        assert(after.last().children@[d] == after.last().children@.last());
        assert(is_deck_of(after.last().children@[d], tree));
        assert forall|i: int| 0 <= i < d + 1 implies is_deck_of(
            after.last().children@[i],
            #[trigger] trees[m].subdecks[i],
        ) by {
            if i < d {
                assert(after.last().children@[i] == after.last().children@.drop_last()[i]);
            }
        }
        assert forall|k: int| 0 <= k < after.len() implies is_on_the_way(
            #[trigger] after[k],
            upper[k],
            after[k].children@.len() + if k < after.len() - 1 {
                1int
            } else {
                0
            },
        ) by {
            if k < m {
                assert(after[k] == after.drop_last()[k]);
                assert(before[k] == above.drop_last()[k]);
            }
        }
        assert forall|k: int| 0 <= k < after.len() - 1 implies upper[k].subdecks[(
        #[trigger] after[k]).children@.len() as int] == upper[k + 1] by {
            assert(after[k] == after.drop_last()[k]);
            assert(before[k] == above.drop_last()[k]);
        }
    }
}

/// When what the topmost deck or the next subdeck holds has been taken, the gathering is on the way
/// with it.
pub proof fn law_loaded_decks_are_gathered(
    before: Seq<OpenDeck>,
    after: Seq<OpenDeck>,
    trees: Seq<DeckTree>,
    tree: DeckTree,
)
    requires
        are_on_the_way(before, trees, true),
        before.len() > 0 ==> tree == next_subdeck(before, trees),
        after.len() == before.len() + 1,
        after.drop_last() == before,
        is_opened(
            after.last(),
            tree.row,
            tree.notes,
            tree.note_models,
            tree.media_files,
            rows_of(tree.subdecks),
        ),
    ensures
        are_on_the_way(after, trees.push(tree), false),
{
    let all = trees.push(tree);
    let n = before.len() as int;
    assert(tree.subdecks.skip(0) =~= tree.subdecks);
    assert(after.last().pending@.reverse() =~= rows_of(tree.subdecks));
    assert forall|k: int| 0 <= k < after.len() implies is_on_the_way(
        #[trigger] after[k],
        all[k],
        after[k].children@.len() + if k < after.len() - 1 {
            1int
        } else {
            0
        },
    ) by {
        if k < n {
            assert(after[k] == after.drop_last()[k]);
            assert(before[k] == after[k]);
        }
    }
    assert forall|k: int| 0 <= k < after.len() - 1 implies all[k].subdecks[(
    #[trigger] after[k]).children@.len() as int] == all[k + 1] by {
        assert(after[k] == after.drop_last()[k]);
        if k < n - 1 {
            assert(before[k] == after[k]);
        }
    }
}

/// Where the media of a deck lie on Google Drive, which is nowhere if nothing is known of it.
pub fn gdrive_info(account: Option<(GoogleServiceAccount, String)>) -> (r: GDriveInfo)
    ensures
        match account {
            Some((service_account, folder_id)) => r.service_account == service_account
                && r.folder_id == folder_id,
            None => r.is_blank(),
        },
{
    match account {
        Some((service_account, folder_id)) => GDriveInfo { service_account, folder_id },
        None => Default::default(),
    }
}

/// A message of the changelog, and when it was written.
#[derive(Debug, PartialEq)]
pub struct ChangelogRow {
    pub message: String,
    pub timestamp: String,
}

/// The first `n` messages, each below its date.
pub open spec fn changelog(rows: Seq<ChangelogRow>, n: int) -> Seq<char>
    decreases n,
{
    if n <= 0 {
        Seq::empty()
    } else {
        changelog(rows, n - 1) + "--- Changes from "@ + rows[n - 1].timestamp@ + ": ---\n"@ + rows[n
            - 1].message@ + "\n\n"@
    }
}

/// The messages of the changelog, each below its date.
pub fn changelog_text(rows: &Vec<ChangelogRow>) -> (r: String)
    ensures
        r@ == changelog(rows@, rows@.len() as int),
{
    let mut out = String::new();
    let mut i: usize = 0;
    while i < rows.len()
        invariant
            i <= rows@.len(),
            out@ == changelog(rows@, i as int),
        decreases rows@.len() - i,
    {
        out.append("--- Changes from ");
        out.append(rows[i].timestamp.as_str());
        out.append(": ---\n");
        out.append(rows[i].message.as_str());
        out.append("\n\n");
        i += 1;
    }
    out
}

/// What is known of a deck besides its content.
pub struct DeckExtras {
    pub gdrive: GDriveInfo,
    pub protected_fields: Vec<NoteModel>,
    pub changelog: Vec<ChangelogRow>,
    pub optional_tags: Vec<String>,
    pub deleted_notes: Vec<String>,
    pub stats_enabled: bool,
}

/// What a client gets that asks for the changes of the deck of a hash.
pub fn assemble_update(deck_hash: &str, deck: AnkiDeck, extras: DeckExtras) -> (r:
    UpdateInfoResponse)
    ensures
        r.gdrive == extras.gdrive,
        r.protected_fields == extras.protected_fields,
        r.deck == deck,
        r.changelog@ == changelog(extras.changelog@, extras.changelog@.len() as int),
        r.deck_hash@ == deck_hash@,
        r.optional_tags == extras.optional_tags,
        r.deleted_notes == extras.deleted_notes,
        r.stats_enabled == extras.stats_enabled,
{
    let changelog = changelog_text(&extras.changelog);
    UpdateInfoResponse {
        gdrive: extras.gdrive,
        protected_fields: extras.protected_fields,
        deck,
        changelog,
        deck_hash: deck_hash.to_owned(),
        optional_tags: extras.optional_tags,
        deleted_notes: extras.deleted_notes,
        stats_enabled: extras.stats_enabled,
    }
}

/// The search for deleted notes in a deck and its subdecks, one deck after the other.
pub struct DeletedNotes {
    /// The decks that are still to be searched; the last one is next.
    pub pending: Vec<i64>,
    /// The guids found so far.
    pub guids: Vec<String>,
}

impl DeletedNotes {
    /// A search that begins with a deck.
    pub fn new(deck_id: i64) -> (r: Self)
        ensures
            r.pending@ == seq![deck_id],
            r.guids@.len() == 0,
    {
        DeletedNotes { pending: vec![deck_id], guids: Vec::new() }
    }

    /// The deck that is to be searched next; nothing where all have been.
    pub fn next_deck(&mut self) -> (r: Option<i64>)
        ensures
            final(self).guids == old(self).guids,
            match r {
                Some(deck_id) => old(self).pending@.len() > 0 && deck_id
                    == old(self).pending@.last() && final(self).pending@
                    == old(self).pending@.drop_last(),
                None => old(self).pending@.len() == 0 && final(self).pending@
                    == old(self).pending@,
            },
    {
        self.pending.pop()
    }

    /// Takes the guids of the deleted notes of the deck that was searched, and its subdecks that
    /// were changed, which are searched before anything else.
    pub fn on_deck(&mut self, guids: &Vec<String>, subdecks: &Vec<i64>)
        ensures
            final(self).guids@ == old(self).guids@ + guids@,
            final(self).pending@ == old(self).pending@ + subdecks@.reverse(),
    {
        let mut i: usize = 0;
        while i < guids.len()
            invariant
                i <= guids@.len(),
                self.pending == old(self).pending,
                self.guids@ == old(self).guids@ + guids@.take(i as int),
            decreases guids@.len() - i,
        {
            self.guids.push(guids[i].clone());
            assert(self.guids@ =~= old(self).guids@ + guids@.take(i + 1));
            i += 1;
        }
        assert(guids@.take(guids@.len() as int) =~= guids@);
        let total = subdecks.len();
        let mut k: usize = 0;
        while k < total
            invariant
                k <= total,
                total == subdecks@.len(),
                self.guids@ == old(self).guids@ + guids@,
                self.pending@ == old(self).pending@ + subdecks@.reverse().take(k as int),
            decreases total - k,
        {
            self.pending.push(subdecks[total - 1 - k]);
            assert(self.pending@ =~= old(self).pending@ + subdecks@.reverse().take(k + 1));
            k += 1;
        }
        assert(subdecks@.reverse().take(total as int) =~= subdecks@.reverse());
    }
}

/// A deck with the guids of its deleted notes, and its subdecks.
pub struct DeckNode {
    pub guids: Seq<Seq<char>>,
    pub subdecks: Seq<DeckNode>,
}

/// The guids of the deleted notes of some decks, of each deck before those of its subdecks.
pub open spec fn deleted_in(decks: Seq<DeckNode>) -> Seq<Seq<char>>
    decreases decks,
{
    if decks.len() == 0 {
        Seq::empty()
    } else {
        decks[0].guids + deleted_in(decks[0].subdecks) + deleted_in(decks.skip(1))
    }
}

/// The decks of some numbers.
pub open spec fn nodes_of(ids: Seq<i64>, decks: spec_fn(i64) -> DeckNode) -> Seq<DeckNode> {
    ids.map_values(decks)
}

/// To search one deck and go on with its subdecks finds the same guids in the same order as to
/// search it with all below it: what was found so far, and behind it what is still to be found in
/// the decks that are `pending`, stays the same. `decks` gives to each number the deck that has it.
pub proof fn law_search_finds_each_deck_before_its_subdecks(
    decks: spec_fn(i64) -> DeckNode,
    found: Seq<Seq<char>>,
    pending: Seq<i64>,
    guids: Seq<String>,
    subdecks: Seq<i64>,
)
    requires
        pending.len() > 0,
        decks(pending.last()).guids == text::texts(guids),
        decks(pending.last()).subdecks == nodes_of(subdecks, decks),
    ensures
        found + text::texts(guids) + deleted_in(
            nodes_of((pending.drop_last() + subdecks.reverse()).reverse(), decks),
        ) == found + deleted_in(nodes_of(pending.reverse(), decks)),
{
    let top = decks(pending.last());
    let all = nodes_of(pending.reverse(), decks);
    let rest = nodes_of(pending.drop_last().reverse(), decks);
    let after = nodes_of((pending.drop_last() + subdecks.reverse()).reverse(), decks);
    assert(all[0] == top);
    assert(all.skip(1) =~= rest);
    assert(after =~= top.subdecks + rest);
    lemma_deleted_in_parts(top.subdecks, rest);
    assert(found + top.guids + (deleted_in(top.subdecks) + deleted_in(rest)) =~= found + (
    top.guids + deleted_in(top.subdecks) + deleted_in(rest)));
}

proof fn lemma_deleted_in_parts(first: Seq<DeckNode>, second: Seq<DeckNode>)
    ensures
        deleted_in(first + second) == deleted_in(first) + deleted_in(second),
    decreases first.len(),
{
    if first.len() == 0 {
        assert(first + second =~= second);
        assert(deleted_in(first) + deleted_in(second) =~= deleted_in(second));
    } else {
        lemma_deleted_in_parts(first.skip(1), second);
        assert((first + second)[0] == first[0]);
        assert((first + second).skip(1) =~= first.skip(1) + second);
        let head = first[0].guids + deleted_in(first[0].subdecks);
        assert(head + (deleted_in(first.skip(1)) + deleted_in(second)) =~= head + deleted_in(
            first.skip(1),
        ) + deleted_in(second));
    }
}

/// The number of a user; an error where there is no such user.
pub fn found_user(id: Option<i32>) -> (r: Result<i32, String>)
    ensures
        match r {
            Ok(n) => id == Some(n),
            Err(e) => id is None && e@ == "User doesnt exist"@,
        },
{
    match id {
        Some(n) => Ok(n),
        None => Err("User doesnt exist".to_owned()),
    }
}

/// Which of the decks that a client knows there are no longer.
pub fn missing_decks(deck_hashes: &Vec<String>, existing: &Vec<String>) -> (r: Vec<String>)
    ensures
        r@ == deck_hashes@.filter(|h: String| !text::texts(existing@).contains(h@)),
{
    let known = text::set_of(existing);
    let ghost gone = |h: String| !text::texts(existing@).contains(h@);
    let mut out: Vec<String> = Vec::new();
    let mut i: usize = 0;
    reveal(Seq::filter);
    while i < deck_hashes.len()
        invariant
            i <= deck_hashes@.len(),
            known@ == text::texts(existing@).to_set(),
            gone == (|h: String| !text::texts(existing@).contains(h@)),
            out@ == deck_hashes@.take(i as int).filter(gone),
        decreases deck_hashes@.len() - i,
    {
        let hash = &deck_hashes[i];
        proof {
            assert(deck_hashes@.take(i + 1) =~= deck_hashes@.take(i as int).push(*hash));
            deck_hashes@.take(i as int).lemma_filter_push(*hash, gone);
        }
        if !known.contains(hash.as_str()) {
            out.push(hash.clone());
        }
        i += 1;
    }
    assert(deck_hashes@.take(deck_hashes@.len() as int) =~= deck_hashes@);
    out
}

proof fn lemma_tags_of_note(tags: Seq<TagRow>, id: i64, n: int)
    requires
        0 <= n <= tags.len(),
    ensures
        lists::places(tag_notes(tags), id, n).map_values(|i: int| tags[i].content@) == tags.take(
            n,
        ).filter(|t: TagRow| t.note == id).map_values(|t: TagRow| t.content@),
    decreases n,
{
    let own = |t: TagRow| t.note == id;
    let content = |t: TagRow| t.content@;
    let at = |i: int| tags[i].content@;
    reveal(Seq::filter);
    if n > 0 {
        lemma_tags_of_note(tags, id, n - 1);
        let shorter = tags.take(n - 1);
        assert(tags.take(n) =~= shorter.push(tags[n - 1]));
        shorter.lemma_filter_push(tags[n - 1], own);
        let places = lists::places(tag_notes(tags), id, n - 1);
        assert(tag_notes(tags)[n - 1] == tags[n - 1].note);
        if tags[n - 1].note == id {
            assert(places.push(n - 1).map_values(at) =~= places.map_values(at).push(
                tags[n - 1].content@,
            ));
            assert(shorter.filter(own).push(tags[n - 1]).map_values(content)
                =~= shorter.filter(own).map_values(content).push(tags[n - 1].content@));
        }
    } else {
        assert(tags.take(0).filter(own).map_values(content) =~= Seq::empty());
        assert(lists::places(tag_notes(tags), id, 0).map_values(at) =~= Seq::empty());
    }
}

/// The last row that speaks of a field counts, and a field of which no row speaks is empty.
pub proof fn law_the_last_row_of_a_field_counts(
    rows: Seq<FieldRow>,
    places: Seq<int>,
    size: nat,
    p: int,
)
    requires
        0 <= p < size,
    ensures
        filled_fields(rows, places, size).len() == size,
        forall|k: int|
            0 <= k < places.len() && rows[#[trigger] places[k]].position == p && (forall|j: int|
                k < j < places.len() ==> rows[#[trigger] places[j]].position != p)
                ==> filled_fields(rows, places, size)[p] == rows[places[k]].content@,
        (forall|k: int| 0 <= k < places.len() ==> rows[#[trigger] places[k]].position != p)
            ==> filled_fields(rows, places, size)[p].len() == 0,
    decreases places.len(),
{
    if places.len() > 0 {
        let shorter = places.drop_last();
        let last = places.len() - 1;
        law_the_last_row_of_a_field_counts(rows, shorter, size, p);
        let before = filled_fields(rows, shorter, size);
        let after = filled_fields(rows, places, size);
        assert(after.len() == size);
        assert(places.last() == places[last]);
        assert forall|k: int|
            0 <= k < places.len() && rows[#[trigger] places[k]].position == p && (forall|j: int|
                k < j < places.len() ==> rows[#[trigger] places[j]].position
                    != p) implies after[p] == rows[places[k]].content@ by {
            if k < last {
                assert(rows[places[last]].position != p);
                assert(shorter[k] == places[k]);
                assert forall|j: int| k < j < shorter.len() implies rows[
                    #[trigger] shorter[j]
                ].position != p by {
                    assert(places[j] == shorter[j]);
                }
            }
        }
        if forall|k: int| 0 <= k < places.len() ==> rows[#[trigger] places[k]].position != p {
            assert(rows[places[last]].position != p);
            assert forall|k: int| 0 <= k < shorter.len() implies rows[
                #[trigger] shorter[k]
            ].position != p by {
                assert(places[k] == shorter[k]);
            }
        }
    }
}

/// A changed note is sent exactly where there is a row for one of its fields. It has its own guids, all
/// its tags in the order of their rows, and as many fields as its notetype; a field holds what the last
/// row of the note for it says, and is empty where there is none.
pub proof fn law_sent_notes_are_whole(
    note: ChangedNote,
    fields: Seq<FieldRow>,
    tags: Seq<TagRow>,
    size: nat,
    p: int,
)
    ensures
        changed_content(note, fields, tags, size) is Some <==> exists|j: int|
            0 <= j < fields.len() && (#[trigger] fields[j]).note == note.id,
        changed_content(note, fields, tags, size) matches Some(content) ==> {
            &&& content.guid == note.guid@
            &&& content.model_guid == note.model_guid@
            &&& content.tags == tags.filter(|t: TagRow| t.note == note.id).map_values(
                |t: TagRow| t.content@,
            )
            &&& content.fields.len() == size
            &&& 0 <= p < size ==> forall|j: int|
                0 <= j < fields.len() && (#[trigger] fields[j]).note == note.id
                    && fields[j].position == p && (forall|l: int|
                    j < l < fields.len() && (#[trigger] fields[l]).note == note.id
                        ==> fields[l].position != p) ==> content.fields[p] == fields[j].content@
            &&& 0 <= p < size && (forall|j: int|
                0 <= j < fields.len() && (#[trigger] fields[j]).note == note.id
                    ==> fields[j].position != p) ==> content.fields[p].len() == 0
        },
{
    let n = fields.len() as int;
    let keys = field_notes(fields);
    let of_fields = lists::places(keys, note.id, n);
    lists::law_places_are_all_indices(keys, note.id, n);
    lemma_tags_of_note(tags, note.id, tags.len() as int);
    assert(tags.take(tags.len() as int) =~= tags);
    law_fields_fit_the_notetype(fields, of_fields, size);
    if 0 <= p < size {
        law_the_last_row_of_a_field_counts(fields, of_fields, size, p);
    }
    if of_fields.len() > 0 {
        assert(of_fields.contains(of_fields[0]));
        assert(fields[of_fields[0]].note == note.id);
    }
    assert forall|j: int| 0 <= j < n && (#[trigger] fields[j]).note == note.id implies exists|k: int|
        0 <= k < of_fields.len() && of_fields[k] == j by {
        assert(keys[j] == note.id);
        assert(of_fields.contains(j));
    }
    let all = filled_fields(fields, of_fields, size);
    assert forall|j: int|
        0 <= p < size && 0 <= j < n && (#[trigger] fields[j]).note == note.id && fields[j].position
            == p && (forall|l: int|
            j < l < n && (#[trigger] fields[l]).note == note.id ==> fields[l].position
                != p) implies all[p] == fields[j].content@ by {
        assert(keys[j] == note.id);
        assert(of_fields.contains(j));
        let k = choose|k: int| 0 <= k < of_fields.len() && of_fields[k] == j;
        assert forall|m: int| k < m < of_fields.len() implies fields[
            #[trigger] of_fields[m]
        ].position != p by {
            assert(of_fields[k] < of_fields[m]);
            assert(of_fields.contains(of_fields[m]));
            assert(fields[of_fields[m]].note == note.id);
        }
        assert(fields[of_fields[k]].position == p);
    }
    if forall|j: int|
        0 <= j < n && (#[trigger] fields[j]).note == note.id ==> fields[j].position != p {
        assert forall|k: int| 0 <= k < of_fields.len() implies fields[
            #[trigger] of_fields[k]
        ].position != p by {
            assert(of_fields.contains(of_fields[k]));
            assert(fields[of_fields[k]].note == note.id);
        }
    }
}

/// The changelog names each change once, in the order of the rows: its date, and below it its message.
pub proof fn law_each_change_is_told_once(rows: Seq<ChangelogRow>, n: int, i: int)
    requires
        0 <= i < n <= rows.len(),
    ensures
        changelog(rows, n) == changelog(rows, i) + ("--- Changes from "@ + rows[i].timestamp@
            + ": ---\n"@ + rows[i].message@ + "\n\n"@) + changelog(rows.skip(i + 1), n - i - 1),
        changelog(rows, 0).len() == 0,
    decreases n,
{
    let entry = "--- Changes from "@ + rows[i].timestamp@ + ": ---\n"@ + rows[i].message@
        + "\n\n"@;
    let behind = changelog(rows.skip(i + 1), n - i - 1);
    if i == n - 1 {
        assert(behind =~= Seq::empty());
        assert(changelog(rows, n) =~= changelog(rows, i) + entry + behind);
    } else {
        law_each_change_is_told_once(rows, n - 1, i);
        assert(rows.skip(i + 1)[n - i - 2] == rows[n - 1]);
        assert(changelog(rows, n) =~= changelog(rows, i) + entry + behind);
    }
}

/// The deleted notes of some decks are those of each of them, of its own before those of its subdecks;
/// those of two lists of decks stand one behind the other.
pub proof fn law_no_deleted_note_is_passed_over(
    first: Seq<DeckNode>,
    deck: DeckNode,
    second: Seq<DeckNode>,
)
    ensures
        deleted_in(first + seq![deck] + second) == deleted_in(first) + deck.guids + deleted_in(
            deck.subdecks,
        ) + deleted_in(second),
        deleted_in(Seq::empty()).len() == 0,
{
    lemma_deleted_in_parts(first + seq![deck], second);
    lemma_deleted_in_parts(first, seq![deck]);
    assert(seq![deck].skip(1) =~= Seq::<DeckNode>::empty());
    let one = seq![deck];
    assert(one[0] == deck);
    assert(deleted_in(one.skip(1)) =~= Seq::empty());
    assert(deleted_in(one) =~= deck.guids + deleted_in(deck.subdecks));
    assert(deleted_in(first + seq![deck] + second) =~= deleted_in(first) + deck.guids + deleted_in(
        deck.subdecks,
    ) + deleted_in(second));
}

/// A gathered deck has the guid, the name and the description of its row, all its notes, notetypes and
/// media, and a subdeck for each one below it, at the same place.
pub proof fn law_gathered_decks_are_whole(deck: AnkiDeck, tree: DeckTree, i: int)
    requires
        is_deck_of(deck, tree),
    ensures
        deck.crowdanki_uuid == tree.row.crowdanki_uuid,
        deck.name == tree.row.name,
        deck.desc == tree.row.description,
        deck.notes@ == tree.notes,
        deck.media_files@ == tree.media_files,
        deck.note_models is Some,
        deck.note_models->0@ == tree.note_models,
        deck.children@.len() == tree.subdecks.len(),
        0 <= i < tree.subdecks.len() ==> is_deck_of(deck.children@[i], tree.subdecks[i]),
{
}

/// What a note holds is told field by field and tag by tag.
pub proof fn law_notes_are_read_as_they_are(note: Note, i: int)
    ensures
        content_of(note).guid == note.guid@,
        content_of(note).model_guid == note.note_model_uuid@,
        content_of(note).fields.len() == note.fields@.len(),
        content_of(note).tags.len() == note.tags@.len(),
        0 <= i < note.fields@.len() ==> content_of(note).fields[i] == note.fields@[i]@,
        0 <= i < note.tags@.len() ==> content_of(note).tags[i] == note.tags@[i]@,
{
}

/// The sizes are known for a batch exactly where they are for its first part and for the rest; for a
/// single note, where its notetype has one that is not negative; and for no notes they always are.
pub proof fn law_each_note_needs_its_size(
    first: Seq<ChangedNote>,
    rest: Seq<ChangedNote>,
    sizes: Map<i64, i32>,
)
    ensures
        sizes_are_known(first + rest, sizes) <==> sizes_are_known(first, sizes) && sizes_are_known(
            rest,
            sizes,
        ),
        first.len() == 1 ==> (sizes_are_known(first, sizes) <==> sizes.contains_key(
            first[0].model_id,
        ) && sizes[first[0].model_id] >= 0),
        first.len() == 0 ==> sizes_are_known(first, sizes),
{
    if sizes_are_known(first + rest, sizes) {
        assert forall|i: int| 0 <= i < first.len() implies sizes.contains_key(
            (#[trigger] first[i]).model_id,
        ) && sizes[first[i].model_id] >= 0 by {
            assert((first + rest)[i] == first[i]);
        }
        assert forall|i: int| 0 <= i < rest.len() implies sizes.contains_key(
            (#[trigger] rest[i]).model_id,
        ) && sizes[rest[i].model_id] >= 0 by {
            assert((first + rest)[first.len() + i] == rest[i]);
        }
    }
}

} // verus!
