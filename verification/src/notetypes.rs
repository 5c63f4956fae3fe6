//! Notetypes: which of them a deck uses, which are the same, and how new ones are stored.
use vstd::prelude::*;

use crate::outside;
use crate::structs::{
    Note, NoteModel, NoteModelFieldInfo, Notetype, NotetypeField, NotetypeTemplate,
};
use crate::text;

verus! {

/// The guids of the notetypes of the notes.
pub open spec fn model_guids(notes: Seq<Note>) -> Seq<Seq<char>> {
    notes.map_values(|n: Note| n.note_model_uuid@)
}

/// The guids of the notetypes of the notes, each once.
pub fn notetype_guids(notes: &Vec<Note>) -> (r: Vec<String>)
    ensures
        text::texts(r@) == text::distinct_texts(model_guids(notes@)),
{
    let mut guids: Vec<String> = Vec::new();
    let mut i: usize = 0;
    while i < notes.len()
        invariant
            i <= notes@.len(),
            text::texts(guids@) == model_guids(notes@).take(i as int),
        decreases notes@.len() - i,
    {
        let ghost before = guids@;
        guids.push(notes[i].note_model_uuid.clone());
        assert(text::texts(guids@) =~= text::texts(before).push(notes@[i as int].note_model_uuid@));
        assert(text::texts(guids@) =~= model_guids(notes@).take(i + 1));
        i += 1;
    }
    assert(model_guids(notes@).take(notes@.len() as int) =~= model_guids(notes@));
    text::distinct(&guids)
}

/// A field of a notetype that may not be changed.
#[derive(Debug, PartialEq)]
pub struct ProtectedFieldRow {
    pub notetype_id: i64,
    pub notetype_name: String,
    pub field_id: i64,
    pub field_name: String,
    pub protected: bool,
}

/// A field of a note model.
pub struct ModelField {
    pub id: i64,
    pub name: Seq<char>,
    pub protected: bool,
}

/// A note model with some of its fields.
pub struct Model {
    pub id: i64,
    pub name: Seq<char>,
    pub fields: Seq<ModelField>,
}

/// The field that a row speaks of.
pub open spec fn field_of_row(row: ProtectedFieldRow) -> ModelField {
    ModelField { id: row.field_id, name: row.field_name@, protected: row.protected }
}

/// The models of the first `n` rows: neighbouring rows of one notetype make up one model. A number
/// of zero is no notetype's: each row with it is a model of its own.
pub open spec fn models_of(rows: Seq<ProtectedFieldRow>, n: int) -> Seq<Model>
    decreases n,
{
    if n <= 0 {
        Seq::empty()
    } else {
        let before = models_of(rows, n - 1);
        let row = rows[n - 1];
        if before.len() > 0 && before.last().id == row.notetype_id && row.notetype_id != 0 {
            before.drop_last().push(
                Model { fields: before.last().fields.push(field_of_row(row)), ..before.last() },
            )
        } else {
            before.push(
                Model {
                    id: row.notetype_id,
                    name: row.notetype_name@,
                    fields: seq![field_of_row(row)],
                },
            )
        }
    }
}

/// The model that a record stands for.
pub open spec fn model_of(m: NoteModel) -> Model {
    Model {
        id: m.id,
        name: m.name@,
        fields: m.fields@.map_values(
            |f: NoteModelFieldInfo|
                ModelField { id: f.id, name: f.name@, protected: f.protected },
        ),
    }
}

/// The models that the records stand for.
pub open spec fn models(list: Seq<NoteModel>) -> Seq<Model> {
    list.map_values(|m: NoteModel| model_of(m))
}

/// The note models with their protected fields.
pub fn pull_protected_fields(rows: &Vec<ProtectedFieldRow>) -> (r: Vec<NoteModel>)
    ensures
        models(r@) == models_of(rows@, rows@.len() as int),
{
    let mut done: Vec<NoteModel> = Vec::new();
    let mut current = NoteModel { id: 0, fields: Vec::new(), name: String::new() };
    let mut i: usize = 0;
    assert(models(done@) =~= Seq::empty());
    while i < rows.len()
        invariant
            i <= rows@.len(),
            current.fields@.len() == 0 ==> i == 0 && current.id == 0,
            models_of(rows@, i as int) == if current.fields@.len() == 0 {
                models(done@)
            } else {
                models(done@).push(model_of(current))
            },
            current.fields@.len() == 0 ==> done@.len() == 0,
        decreases rows@.len() - i,
    {
        let row = &rows[i];
        let ghost before = models_of(rows@, i as int);
        if current.id == 0 || current.id != row.notetype_id {
            if current.fields.len() > 0 {
                let ghost done_before = done@;
                done.push(current);
                assert(models(done@) =~= models(done_before).push(model_of(done@.last())));
            }
            current = NoteModel {
                id: row.notetype_id,
                fields: Vec::new(),
                name: row.notetype_name.clone(),
            };
            assert(models(done@) == before);
            assert(model_of(current).fields =~= Seq::empty());
            assert(!(before.len() > 0 && before.last().id == row.notetype_id && row.notetype_id
                != 0));
        } else {
            assert(before.drop_last() =~= models(done@));
            assert(before.last() == model_of(current));
        }
        let ghost fields_before = model_of(current).fields;
        current.fields.push(
            NoteModelFieldInfo {
                id: row.field_id,
                name: row.field_name.clone(),
                protected: row.protected,
            },
        );
        assert(model_of(current).fields =~= fields_before.push(field_of_row(*row)));
        assert(fields_before.len() == 0 ==> model_of(current).fields =~= seq![field_of_row(*row)]);
        assert(models_of(rows@, i + 1) =~= models(done@).push(model_of(current)));
        i += 1;
    }
    if current.fields.len() > 0 {
        let ghost done_before = done@;
        done.push(current);
        assert(models(done@) =~= models(done_before).push(model_of(done@.last())));
    }
    done
}

/// The fields of the models, one behind the other.
pub open spec fn all_fields(list: Seq<Model>) -> Seq<ModelField>
    decreases list.len(),
{
    if list.len() == 0 {
        Seq::empty()
    } else {
        all_fields(list.drop_last()) + list.last().fields
    }
}

/// Each protected field is in one of the models, in the order of the rows, and no model is empty.
pub proof fn law_no_protected_field_is_lost(rows: Seq<ProtectedFieldRow>, n: int)
    requires
        0 <= n <= rows.len(),
    ensures
        all_fields(models_of(rows, n)) == rows.take(n).map_values(
            |r: ProtectedFieldRow| field_of_row(r),
        ),
        forall|k: int|
            0 <= k < models_of(rows, n).len() ==> (#[trigger] models_of(rows, n)[k]).fields.len()
                > 0,
    decreases n,
{
    if n > 0 {
        law_no_protected_field_is_lost(rows, n - 1);
        let before = models_of(rows, n - 1);
        let after = models_of(rows, n);
        let row = rows[n - 1];
        assert(rows.take(n) =~= rows.take(n - 1).push(row));
        if before.len() > 0 && before.last().id == row.notetype_id && row.notetype_id != 0 {
            assert(after.drop_last() =~= before.drop_last());
            assert(all_fields(before.drop_last()) + before.last().fields.push(field_of_row(row))
                =~= all_fields(before).push(field_of_row(row)));
        } else {
            assert(after.drop_last() =~= before);
            assert(all_fields(before) + seq![field_of_row(row)] =~= all_fields(before).push(
                field_of_row(row),
            ));
        }
        assert(all_fields(after) =~= rows.take(n).map_values(
            |r: ProtectedFieldRow| field_of_row(r),
        ));
        assert forall|k: int| 0 <= k < after.len() implies (#[trigger] after[k]).fields.len()
            > 0 by {
            if k < before.len() && k < after.len() - 1 {
                assert(after[k] == before[k]);
            }
        }
    } else {
        assert(rows.take(0).map_values(|r: ProtectedFieldRow| field_of_row(r)) =~= Seq::empty());
    }
}

/// A field of a stored notetype.
#[derive(Debug, PartialEq)]
pub struct StoredField {
    pub name: String,
    pub anki_id: Option<i64>,
}

/// A template of a stored notetype.
#[derive(Debug, PartialEq)]
pub struct StoredTemplate {
    pub qfmt: String,
    pub afmt: String,
    pub bqfmt: String,
    pub bafmt: String,
    pub anki_id: Option<i64>,
    pub name: String,
}

/// A stored notetype that may be the same as another one.
#[derive(Debug, PartialEq)]
pub struct StoredNotetype {
    pub guid: String,
    pub original_stock_kind: Option<i32>,
    pub fields: Vec<StoredField>,
    pub templates: Vec<StoredTemplate>,
}

/// Two numbers do not differ, as far as both are known.
pub open spec fn agree<N>(a: Option<N>, b: Option<N>) -> bool {
    a matches Some(x) ==> (b matches Some(y) ==> x == y)
}

fn ids_agree(a: Option<i64>, b: Option<i64>) -> (r: bool)
    ensures
        r == agree(a, b),
{
    match (a, b) {
        (Some(x), Some(y)) => x == y,
        _ => true,
    }
}

fn kinds_agree(a: Option<i32>, b: Option<i32>) -> (r: bool)
    ensures
        r == agree(a, b),
{
    match (a, b) {
        (Some(x), Some(y)) => x == y,
        _ => true,
    }
}

/// The fields are the same: their numbers agree, or their names are the same.
pub open spec fn same_field(field: NotetypeField, stored: StoredField) -> bool {
    agree(field.id, stored.anki_id) || field.name@ == stored.name@
}

/// The templates are the same: their numbers agree, or all their formats are the same.
pub open spec fn same_template(template: NotetypeTemplate, stored: StoredTemplate) -> bool {
    agree(template.id, stored.anki_id) || (template.qfmt@ == stored.qfmt@ && template.afmt@
        == stored.afmt@ && template.bqfmt@ == stored.bqfmt@ && template.bafmt@ == stored.bafmt@)
}

/// The templates are alike: their numbers agree, or their names are the same.
pub open spec fn like_template(template: NotetypeTemplate, stored: StoredTemplate) -> bool {
    agree(template.id, stored.anki_id) || template.name@ == stored.name@
}

/// The stored notetype will do for the other one: it is not known to be of another stock kind, it
/// has the same fields, and the same templates or templates that are alike.
pub open spec fn is_equivalent(notetype: Notetype, stored: StoredNotetype) -> bool {
    &&& agree(notetype.originalStockKind, stored.original_stock_kind)
    &&& notetype.flds@.len() == stored.fields@.len()
    &&& notetype.tmpls@.len() == stored.templates@.len()
    &&& forall|i: int|
        0 <= i < notetype.flds@.len() ==> same_field(#[trigger] notetype.flds@[i], stored.fields@[i])
    &&& {
        ||| forall|i: int|
            0 <= i < notetype.tmpls@.len() ==> same_template(
                #[trigger] notetype.tmpls@[i],
                stored.templates@[i],
            )
        ||| forall|i: int|
            0 <= i < notetype.tmpls@.len() ==> like_template(
                #[trigger] notetype.tmpls@[i],
                stored.templates@[i],
            )
    }
}

/// Whether a stored notetype will do for another one.
pub fn will_do(notetype: &Notetype, stored: &StoredNotetype) -> (r: bool)
    ensures
        r == is_equivalent(*notetype, *stored),
{
    if !kinds_agree(notetype.originalStockKind, stored.original_stock_kind) {
        return false;
    }
    if notetype.flds.len() != stored.fields.len() || notetype.tmpls.len()
        != stored.templates.len() {
        return false;
    }
    let mut i: usize = 0;
    while i < notetype.flds.len()
        invariant
            i <= notetype.flds@.len(),
            notetype.flds@.len() == stored.fields@.len(),
            forall|j: int|
                0 <= j < i ==> same_field(#[trigger] notetype.flds@[j], stored.fields@[j]),
        decreases notetype.flds@.len() - i,
    {
        let field = &notetype.flds[i];
        let other = &stored.fields[i];
        if !ids_agree(field.id, other.anki_id) && field.name != other.name {
            return false;
        }
        i += 1;
    }
    let mut same = true;
    let mut alike = true;
    let mut k: usize = 0;
    while k < notetype.tmpls.len()
        invariant
            k <= notetype.tmpls@.len(),
            notetype.tmpls@.len() == stored.templates@.len(),
            same <==> forall|j: int|
                0 <= j < k ==> same_template(#[trigger] notetype.tmpls@[j], stored.templates@[j]),
            alike <==> forall|j: int|
                0 <= j < k ==> like_template(#[trigger] notetype.tmpls@[j], stored.templates@[j]),
        decreases notetype.tmpls@.len() - k,
    {
        let template = &notetype.tmpls[k];
        let other = &stored.templates[k];
        let id_match = ids_agree(template.id, other.anki_id);
        let formats_match = template.qfmt == other.qfmt && template.afmt == other.afmt
            && template.bqfmt == other.bqfmt && template.bafmt == other.bafmt;
        let name_match = template.name == other.name;
        if !(id_match || formats_match) {
            same = false;
        }
        if !(id_match || name_match) {
            alike = false;
        }
        k += 1;
    }
    same || alike
}

/// The guid of the notetype that will do for another one. Where the owner has the notetype itself,
/// that is its own guid; else that of the first stored notetype that will do; nothing where there
/// is none.
pub fn does_notetype_exist(
    notetype: &Notetype,
    is_stored: bool,
    candidates: &Vec<StoredNotetype>,
) -> (r: String)
    ensures
        is_stored ==> r@ == notetype.crowdanki_uuid@,
        !is_stored ==> ({
            ||| r@.len() == 0 && forall|i: int|
                0 <= i < candidates@.len() ==> !is_equivalent(*notetype, #[trigger] candidates@[i])
            ||| exists|i: int|
                0 <= i < candidates@.len() && is_equivalent(*notetype, #[trigger] candidates@[i])
                    && r@ == candidates@[i].guid@ && forall|j: int|
                    0 <= j < i ==> !is_equivalent(*notetype, #[trigger] candidates@[j])
        }),
{
    if is_stored {
        return notetype.crowdanki_uuid.clone();
    }
    let mut i: usize = 0;
    while i < candidates.len()
        invariant
            !is_stored,
            i <= candidates@.len(),
            forall|j: int|
                0 <= j < i ==> !is_equivalent(*notetype, #[trigger] candidates@[j]),
        decreases candidates@.len() - i,
    {
        if will_do(notetype, &candidates[i]) {
            return candidates[i].guid.clone();
        }
        i += 1;
    }
    String::new()
}

/// A notetype will do for itself, whatever the numbers of its fields and templates are.
pub proof fn law_a_notetype_will_do_for_itself(notetype: Notetype, stored: StoredNotetype)
    requires
        stored.original_stock_kind == notetype.originalStockKind,
        stored.fields@.len() == notetype.flds@.len(),
        stored.templates@.len() == notetype.tmpls@.len(),
        forall|i: int| #![trigger stored.fields@[i]]
            0 <= i < stored.fields@.len() ==> stored.fields@[i].name@ == notetype.flds@[i].name@,
        forall|i: int| #![trigger stored.templates@[i]]
            0 <= i < stored.templates@.len() ==> stored.templates@[i].name@
                == notetype.tmpls@[i].name@,
    ensures
        is_equivalent(notetype, stored),
{
}

/// The deck for which a notetype is stored. There must be one.
pub fn deck_for_notetype(deck: Option<i64>) -> (r: Result<i64, String>)
    ensures
        match r {
            Ok(id) => deck == Some(id),
            Err(e) => deck is None && e@ == "Attempted insertion on no deck. Abort."@,
        },
{
    match deck {
        Some(id) => Ok(id),
        None => Err("Attempted insertion on no deck. Abort.".to_owned()),
    }
}

/// The owner of a deck; an error where there is no such deck.
pub fn owner_of_deck(owner: Option<i32>) -> (r: Result<i32, String>)
    ensures
        match r {
            Ok(id) => owner == Some(id),
            Err(e) => owner is None && e@ == "Deck does not exist"@,
        },
{
    match owner {
        Some(id) => Ok(id),
        None => Err("Deck does not exist".to_owned()),
    }
}

/// A notetype as it is stored. The requirements of its cards are stored as JSON, which is left to
/// the database.
#[derive(Debug, PartialEq)]
pub struct NewNotetype {
    pub guid: String,
    pub owner: i32,
    pub css: String,
    pub latex_post: String,
    pub latex_pre: String,
    pub latex_svg: bool,
    pub name: String,
    pub type_: i32,
    pub original_stock_kind: i32,
    pub sortf: i32,
}

/// A field of a notetype as it is stored.
#[derive(Debug, PartialEq)]
pub struct NewField {
    pub description: String,
    pub font: String,
    pub name: String,
    pub ord: i32,
    pub rtl: bool,
    pub size: i32,
    pub sticky: bool,
    pub position: u32,
    pub anki_id: i64,
    pub tag: i32,
}

/// A template of a notetype as it is stored.
#[derive(Debug, PartialEq)]
pub struct NewTemplate {
    pub qfmt: String,
    pub afmt: String,
    pub bqfmt: String,
    pub bafmt: String,
    pub bfont: String,
    pub bsize: i32,
    pub name: String,
    pub position: u32,
    pub anki_id: i64,
    pub ord: i32,
}

/// The number, or zero where there is none.
pub open spec fn or_zero(n: Option<i64>) -> i64 {
    match n {
        Some(x) => x,
        None => 0,
    }
}

/// The record is that of the notetype, under a cleaned name.
pub open spec fn is_notetype_record(
    r: NewNotetype,
    notetype: Notetype,
    owner: i32,
    name: Seq<char>,
) -> bool {
    &&& r.guid@ == notetype.crowdanki_uuid@
    &&& r.owner == owner
    &&& r.css@ == notetype.css@
    &&& r.latex_post@ == notetype.latexPost@
    &&& r.latex_pre@ == notetype.latexPre@
    &&& r.latex_svg == notetype.latexsvg
    &&& r.name@ == name
    &&& r.type_ == notetype.type_
    &&& r.original_stock_kind == match notetype.originalStockKind {
        Some(kind) => kind,
        None => 0,
    }
    &&& r.sortf == notetype.sortf
}

/// The record is that of the field at a position, under a cleaned name and with a cleaned
/// description.
pub open spec fn is_field_record(
    r: NewField,
    field: NotetypeField,
    position: int,
    name: Seq<char>,
    description: Seq<char>,
) -> bool {
    &&& r.description@ == description
    &&& r.font@ == field.font@
    &&& r.name@ == name
    &&& r.ord == field.ord
    &&& r.rtl == field.rtl
    &&& r.size == field.size
    &&& r.sticky == field.sticky
    &&& r.position == position as u32
    &&& r.anki_id == or_zero(field.id)
    &&& r.tag == match field.tag {
        Some(tag) => tag,
        None => 0,
    }
}

/// The record is that of the template at a position, under a cleaned name.
pub open spec fn is_template_record(
    r: NewTemplate,
    template: NotetypeTemplate,
    position: int,
    name: Seq<char>,
) -> bool {
    &&& r.qfmt@ == template.qfmt@
    &&& r.afmt@ == template.afmt@
    &&& r.bqfmt@ == template.bqfmt@
    &&& r.bafmt@ == template.bafmt@
    &&& r.bfont@ == template.bfont@
    &&& r.bsize == template.bsize
    &&& r.name@ == name
    &&& r.position == position as u32
    &&& r.anki_id == or_zero(template.id)
    &&& r.ord == template.ord
}

/// The record of a notetype, under the name that was made of its own.
pub fn notetype_record_named(notetype: &Notetype, owner: i32, name: String) -> (r: NewNotetype)
    ensures
        is_notetype_record(r, *notetype, owner, name@),
{
    NewNotetype {
        guid: notetype.crowdanki_uuid.clone(),
        owner,
        css: notetype.css.clone(),
        latex_post: notetype.latexPost.clone(),
        latex_pre: notetype.latexPre.clone(),
        latex_svg: notetype.latexsvg,
        name,
        type_: notetype.type_,
        original_stock_kind: match notetype.originalStockKind {
            Some(kind) => kind,
            None => 0,
        },
        sortf: notetype.sortf,
    }
}

/// The record of a field, under the name and with the description that were made of its own.
pub fn field_record_named(
    field: &NotetypeField,
    position: u32,
    name: String,
    description: String,
) -> (r: NewField)
    ensures
        is_field_record(r, *field, position as int, name@, description@),
{
    NewField {
        description,
        font: field.font.clone(),
        name,
        ord: field.ord,
        rtl: field.rtl,
        size: field.size,
        sticky: field.sticky,
        position,
        anki_id: match field.id {
            Some(id) => id,
            None => 0,
        },
        tag: match field.tag {
            Some(tag) => tag,
            None => 0,
        },
    }
}

/// The record of a template, under the name that was made of its own.
pub fn template_record_named(
    template: &NotetypeTemplate,
    position: u32,
    name: String,
) -> (r: NewTemplate)
    ensures
        is_template_record(r, *template, position as int, name@),
{
    NewTemplate {
        qfmt: template.qfmt.clone(),
        afmt: template.afmt.clone(),
        bqfmt: template.bqfmt.clone(),
        bafmt: template.bafmt.clone(),
        bfont: template.bfont.clone(),
        bsize: template.bsize,
        name,
        position,
        anki_id: match template.id {
            Some(id) => id,
            None => 0,
        },
        ord: template.ord,
    }
}

/// What is stored of a new notetype.
#[derive(Debug, PartialEq)]
pub struct NotetypePlan {
    pub notetype: NewNotetype,
    pub fields: Vec<NewField>,
    pub templates: Vec<NewTemplate>,
}

/// The plan stores the record of a notetype and those of its fields and templates in their order,
/// with names and descriptions that can do no harm.
pub open spec fn is_plan_for(plan: NotetypePlan, notetype: Notetype, owner: i32) -> bool {
    &&& is_notetype_record(
        plan.notetype,
        notetype,
        owner,
        outside::sanitized_html(notetype.name@),
    )
    &&& plan.fields@.len() == notetype.flds@.len()
    &&& forall|i: int|
        0 <= i < plan.fields@.len() ==> is_field_record(
            #[trigger] plan.fields@[i],
            notetype.flds@[i],
            i,
            outside::sanitized_html(notetype.flds@[i].name@),
            outside::sanitized_html(notetype.flds@[i].description@),
        )
    &&& plan.templates@.len() == notetype.tmpls@.len()
    &&& forall|i: int|
        0 <= i < plan.templates@.len() ==> is_template_record(
            #[trigger] plan.templates@[i],
            notetype.tmpls@[i],
            i,
            outside::sanitized_html(notetype.tmpls@[i].name@),
        )
}

/// What is to be done with a notetype.
#[derive(Debug, PartialEq)]
pub enum NotetypeStep {
    /// The stored notetype of this guid is used.
    Use { guid: String },
    /// The notetype is stored, and used under its own guid.
    Store { guid: String, plan: NotetypePlan },
}

/// What is to be done with a notetype, given the guid of one that will do for it, which is empty
/// where there is none.
pub fn unpack_notetype(notetype: &Notetype, owner: i32, existing_guid: String) -> (r: NotetypeStep)
    ensures
        match r {
            NotetypeStep::Use { guid } => existing_guid@.len() > 0 && guid == existing_guid,
            NotetypeStep::Store { guid, plan } => {
                &&& existing_guid@.len() == 0
                &&& guid@ == notetype.crowdanki_uuid@
                &&& is_plan_for(plan, *notetype, owner)
            },
        },
{
    if text::same_text(existing_guid.as_str(), "") {
        proof {
            reveal_strlit("");
        }
        NotetypeStep::Store {
            guid: notetype.crowdanki_uuid.clone(),
            plan: plan_notetype(notetype, owner),
        }
    } else {
        proof {
            reveal_strlit("");
            assert(existing_guid@.len() == 0 ==> existing_guid@ =~= ""@);
        }
        NotetypeStep::Use { guid: existing_guid }
    }
}

/// What is stored of a new notetype.
fn plan_notetype(notetype: &Notetype, owner: i32) -> (r: NotetypePlan)
    ensures
        is_plan_for(r, *notetype, owner),
{
    let mut fields: Vec<NewField> = Vec::new();
    let mut i: usize = 0;
    while i < notetype.flds.len()
        invariant
            i <= notetype.flds@.len(),
            fields@.len() == i,
            forall|j: int|
                0 <= j < i ==> is_field_record(
                    #[trigger] fields@[j],
                    notetype.flds@[j],
                    j,
                    outside::sanitized_html(notetype.flds@[j].name@),
                    outside::sanitized_html(notetype.flds@[j].description@),
                ),
        decreases notetype.flds@.len() - i,
    {
        let field = &notetype.flds[i];
        let name = outside::sanitize_html(field.name.as_str());
        let description = outside::sanitize_html(field.description.as_str());
        let record = field_record_named(field, i as u32, name, description);
        assert(is_field_record(record, *field, i as int, name@, description@)) by {
            assert((i as u32) as int as u32 == (i as int) as u32) by (bit_vector);
        }
        fields.push(record);
        i += 1;
    }
    let mut templates: Vec<NewTemplate> = Vec::new();
    let mut k: usize = 0;
    while k < notetype.tmpls.len()
        invariant
            k <= notetype.tmpls@.len(),
            templates@.len() == k,
            forall|j: int|
                0 <= j < k ==> is_template_record(
                    #[trigger] templates@[j],
                    notetype.tmpls@[j],
                    j,
                    outside::sanitized_html(notetype.tmpls@[j].name@),
                ),
        decreases notetype.tmpls@.len() - k,
    {
        let template = &notetype.tmpls[k];
        let name = outside::sanitize_html(template.name.as_str());
        let record = template_record_named(template, k as u32, name);
        assert(is_template_record(record, *template, k as int, name@)) by {
            assert((k as u32) as int as u32 == (k as int) as u32) by (bit_vector);
        }
        templates.push(record);
        k += 1;
    }
    let name = outside::sanitize_html(notetype.name.as_str());
    NotetypePlan { notetype: notetype_record_named(notetype, owner, name), fields, templates }
}

/// The model is made of the rows that begin at place `start`: all of them are rows of its notetype, its
/// name is that of the first of them, and its fields are theirs.
pub open spec fn is_made_of_rows(
    rows: Seq<ProtectedFieldRow>,
    model: Model,
    start: int,
) -> bool {
    &&& 0 <= start
    &&& start + model.fields.len() <= rows.len()
    &&& model.fields.len() > 0
    &&& model.name == rows[start].notetype_name@
    &&& forall|f: int| #![trigger rows[start + f]] #![trigger model.fields[f]]
        0 <= f < model.fields.len() ==> rows[start + f].notetype_id == model.id && model.fields[f].id
            == rows[start + f].field_id && model.fields[f].name == rows[start + f].field_name@
            && model.fields[f].protected == rows[start + f].protected
}

/// The rows are shared out among the models in their order: each model is made of the rows behind those
/// of the models before it, all of one notetype, and the next model is one of another notetype. A
/// model without a notetype is made of a single row.
pub proof fn law_models_are_made_of_neighbouring_rows(
    rows: Seq<ProtectedFieldRow>,
    n: int,
    k: int,
)
    requires
        0 <= n <= rows.len(),
        0 <= k < models_of(rows, n).len(),
    ensures
        all_fields(models_of(rows, n)).len() == n,
        is_made_of_rows(
            rows,
            models_of(rows, n)[k],
            all_fields(models_of(rows, n).take(k)).len() as int,
        ),
        0 < k ==> models_of(rows, n)[k].id != models_of(rows, n)[k - 1].id || models_of(
            rows,
            n,
        )[k].id == 0,
        models_of(rows, n)[k].id == 0 ==> models_of(rows, n)[k].fields.len() == 1,
    decreases n,
{
    law_no_protected_field_is_lost(rows, n);
    if n > 0 {
        law_no_protected_field_is_lost(rows, n - 1);
        let before = models_of(rows, n - 1);
        let now = models_of(rows, n);
        let row = rows[n - 1];
        assert(now.take(k) =~= before.take(k));
        if k < before.len() {
            law_models_are_made_of_neighbouring_rows(rows, n - 1, k);
            if k == before.len() - 1 && now.len() == before.len() {
                let start = all_fields(before.take(k)).len() as int;
                assert(before.take(k) =~= before.drop_last());
                assert(start + before[k].fields.len() == n - 1);
                assert(now[k].fields =~= before[k].fields.push(field_of_row(row)));
                let model = now[k];
                assert forall|f: int| #![trigger rows[start + f]] #![trigger model.fields[f]]
                    0 <= f < model.fields.len() implies rows[start + f].notetype_id == model.id
                    && model.fields[f].id == rows[start + f].field_id && model.fields[f].name
                    == rows[start + f].field_name@ && model.fields[f].protected == rows[start
                    + f].protected by {
                    if f < before[k].fields.len() {
                        assert(model.fields[f] == before[k].fields[f]);
                    } else {
                        assert(rows[start + f] == row);
                    }
                }
                assert(model.name == before[k].name);
                assert(is_made_of_rows(rows, model, start));
            } else {
                assert(now[k] == before[k]);
            }
        } else {
            let start = all_fields(before).len() as int;
            assert(before.take(k) =~= before);
            assert(start == n - 1);
            assert(now[k].fields =~= seq![field_of_row(row)]);
            assert(now[k].fields.len() == 1);
            assert(is_made_of_rows(rows, now[k], start));
            if k > 0 {
                assert(now[k - 1] == before[k - 1]);
            }
        }
    }
}

/// Numbers that do not differ are enough for a notetype to do for another one, whatever the names and
/// the formats are; and so are the formats of the templates, where the fields have the same names.
pub proof fn law_what_will_do(notetype: Notetype, stored: StoredNotetype)
    requires
        notetype.flds@.len() == stored.fields@.len(),
        notetype.tmpls@.len() == stored.templates@.len(),
        notetype.originalStockKind is None || stored.original_stock_kind is None
            || notetype.originalStockKind == stored.original_stock_kind,
        forall|i: int|
            0 <= i < notetype.flds@.len() ==> (#[trigger] notetype.flds@[i]).id is None
                || stored.fields@[i].anki_id is None || notetype.flds@[i].id
                == stored.fields@[i].anki_id || notetype.flds@[i].name@ == stored.fields@[i].name@,
    ensures
        (forall|i: int|
            0 <= i < notetype.tmpls@.len() ==> (#[trigger] notetype.tmpls@[i]).id is None
                || stored.templates@[i].anki_id is None || notetype.tmpls@[i].id
                == stored.templates@[i].anki_id) ==> is_equivalent(notetype, stored),
        (forall|i: int|
            0 <= i < notetype.tmpls@.len() ==> (#[trigger] notetype.tmpls@[i]).qfmt@
                == stored.templates@[i].qfmt@ && notetype.tmpls@[i].afmt@
                == stored.templates@[i].afmt@ && notetype.tmpls@[i].bqfmt@
                == stored.templates@[i].bqfmt@ && notetype.tmpls@[i].bafmt@
                == stored.templates@[i].bafmt@) ==> is_equivalent(notetype, stored),
        (forall|i: int|
            0 <= i < notetype.tmpls@.len() ==> (#[trigger] notetype.tmpls@[i]).name@
                == stored.templates@[i].name@) ==> is_equivalent(notetype, stored),
{
}

/// What a notetype will not do for: one of another stock kind, with another number of fields or
/// templates, with a field of another number and name, or with templates of which one has another
/// number and format and one another number and name.
pub proof fn law_what_will_not_do(notetype: Notetype, stored: StoredNotetype, i: int, j: int)
    ensures
        notetype.originalStockKind is Some && stored.original_stock_kind is Some
            && notetype.originalStockKind != stored.original_stock_kind ==> !is_equivalent(
            notetype,
            stored,
        ),
        notetype.flds@.len() != stored.fields@.len() ==> !is_equivalent(notetype, stored),
        notetype.tmpls@.len() != stored.templates@.len() ==> !is_equivalent(notetype, stored),
        0 <= i < notetype.flds@.len() && notetype.flds@[i].id is Some && stored.fields@[i].anki_id
            is Some && notetype.flds@[i].id != stored.fields@[i].anki_id && notetype.flds@[i].name@
            != stored.fields@[i].name@ ==> !is_equivalent(notetype, stored),
        0 <= i < notetype.tmpls@.len() && 0 <= j < notetype.tmpls@.len() && notetype.tmpls@[i].id
            is Some && stored.templates@[i].anki_id is Some && notetype.tmpls@[i].id
            != stored.templates@[i].anki_id && notetype.tmpls@[j].id is Some
            && stored.templates@[j].anki_id is Some && notetype.tmpls@[j].id
            != stored.templates@[j].anki_id && (notetype.tmpls@[i].qfmt@
            != stored.templates@[i].qfmt@ || notetype.tmpls@[i].afmt@ != stored.templates@[i].afmt@
            || notetype.tmpls@[i].bqfmt@ != stored.templates@[i].bqfmt@
            || notetype.tmpls@[i].bafmt@ != stored.templates@[i].bafmt@)
            && notetype.tmpls@[j].name@ != stored.templates@[j].name@ ==> !is_equivalent(
            notetype,
            stored,
        ),
{
}

/// All that a notetype says of itself is stored as it is, but for its name, of which what can do harm is
/// taken out.
pub proof fn law_notetypes_are_stored_whole(plan: NotetypePlan, notetype: Notetype, owner: i32)
    requires
        is_plan_for(plan, notetype, owner),
    ensures
        plan.notetype.guid@ == notetype.crowdanki_uuid@,
        plan.notetype.owner == owner,
        plan.notetype.css@ == notetype.css@,
        plan.notetype.latex_pre@ == notetype.latexPre@,
        plan.notetype.latex_post@ == notetype.latexPost@,
        plan.notetype.latex_svg == notetype.latexsvg,
        plan.notetype.type_ == notetype.type_,
        plan.notetype.sortf == notetype.sortf,
        plan.notetype.name@ == outside::sanitized_html(notetype.name@),
        plan.notetype.original_stock_kind == notetype.originalStockKind.unwrap_or(0),
{
}

/// Each field and each template of a notetype is stored at its place with all that it holds, and no
/// more of them than there are.
pub proof fn law_fields_and_templates_are_stored_whole(
    plan: NotetypePlan,
    notetype: Notetype,
    owner: i32,
    i: int,
)
    requires
        is_plan_for(plan, notetype, owner),
    ensures
        plan.fields@.len() == notetype.flds@.len(),
        plan.templates@.len() == notetype.tmpls@.len(),
        0 <= i < notetype.flds@.len() ==> {
            let kept = plan.fields@[i];
            let field = notetype.flds@[i];
            &&& kept.position == i as u32
            &&& kept.ord == field.ord
            &&& kept.name@ == outside::sanitized_html(field.name@)
            &&& kept.description@ == outside::sanitized_html(field.description@)
            &&& kept.font@ == field.font@
            &&& kept.size == field.size
            &&& kept.rtl == field.rtl
            &&& kept.sticky == field.sticky
            &&& kept.anki_id == field.id.unwrap_or(0)
            &&& kept.tag == field.tag.unwrap_or(0)
        },
        0 <= i < notetype.tmpls@.len() ==> {
            let kept = plan.templates@[i];
            let template = notetype.tmpls@[i];
            &&& kept.position == i as u32
            &&& kept.ord == template.ord
            &&& kept.name@ == outside::sanitized_html(template.name@)
            &&& kept.qfmt@ == template.qfmt@
            &&& kept.afmt@ == template.afmt@
            &&& kept.bqfmt@ == template.bqfmt@
            &&& kept.bafmt@ == template.bafmt@
            &&& kept.bfont@ == template.bfont@
            &&& kept.bsize == template.bsize
            &&& kept.anki_id == template.id.unwrap_or(0)
        },
{
}

/// A record of a model stands for its own number and name, and for its own fields in their order.
pub proof fn law_model_records_stand_for_themselves(list: Seq<NoteModel>, i: int, f: int)
    requires
        0 <= i < list.len(),
    ensures
        models(list).len() == list.len(),
        models(list)[i].id == list[i].id,
        models(list)[i].name == list[i].name@,
        models(list)[i].fields.len() == list[i].fields@.len(),
        0 <= f < list[i].fields@.len() ==> {
            let field = models(list)[i].fields[f];
            field.id == list[i].fields@[f].id && field.name == list[i].fields@[f].name@
                && field.protected == list[i].fields@[f].protected
        },
{
}

} // verus!
