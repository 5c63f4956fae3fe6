use ankicollab::notetypes::{
    deck_for_notetype, does_notetype_exist, notetype_guids, owner_of_deck, pull_protected_fields,
    unpack_notetype, will_do, NotetypeStep, ProtectedFieldRow, StoredField, StoredNotetype,
    StoredTemplate,
};
use ankicollab::structs::{Note, Notetype, NotetypeField, NotetypeTemplate};

fn note(model: &str) -> Note {
    Note {
        fields: Vec::new(),
        guid: "g".to_string(),
        note_model_uuid: model.to_string(),
        tags: Vec::new(),
    }
}

fn field(name: &str, id: Option<i64>) -> NotetypeField {
    NotetypeField {
        description: "<script>x</script>d".to_string(),
        font: "Arial".to_string(),
        id,
        name: name.to_string(),
        ord: 3,
        rtl: true,
        size: 20,
        sticky: false,
        tag: None,
    }
}

fn template(name: &str, qfmt: &str, id: Option<i64>) -> NotetypeTemplate {
    NotetypeTemplate {
        afmt: "a".to_string(),
        bafmt: "ba".to_string(),
        bfont: "bf".to_string(),
        bqfmt: "bq".to_string(),
        bsize: 1,
        id,
        name: name.to_string(),
        ord: 4,
        qfmt: qfmt.to_string(),
    }
}

fn notetype(flds: Vec<NotetypeField>, tmpls: Vec<NotetypeTemplate>) -> Notetype {
    Notetype {
        crowdanki_uuid: "uuid".to_string(),
        css: "css".to_string(),
        flds,
        latexPost: "post".to_string(),
        latexPre: "pre".to_string(),
        latexsvg: true,
        name: "<script>x</script>Basic".to_string(),
        originalStockKind: None,
        req: Vec::new(),
        sortf: 2,
        tmpls,
        type_: 1,
    }
}

fn stored_field(name: &str, anki_id: Option<i64>) -> StoredField {
    StoredField { name: name.to_string(), anki_id }
}

fn stored_template(name: &str, qfmt: &str, anki_id: Option<i64>) -> StoredTemplate {
    StoredTemplate {
        qfmt: qfmt.to_string(),
        afmt: "a".to_string(),
        bqfmt: "bq".to_string(),
        bafmt: "ba".to_string(),
        anki_id,
        name: name.to_string(),
    }
}

fn stored(
    guid: &str,
    kind: Option<i32>,
    fields: Vec<StoredField>,
    templates: Vec<StoredTemplate>,
) -> StoredNotetype {
    StoredNotetype { guid: guid.to_string(), original_stock_kind: kind, fields, templates }
}

#[test]
fn notetypes_of_notes() {
    let notes = vec![note("a"), note("b"), note("a")];
    assert_eq!(notetype_guids(&notes), vec!["a".to_string(), "b".to_string()]);
    assert!(notetype_guids(&Vec::new()).is_empty());
}

fn row(notetype_id: i64, name: &str, field_id: i64) -> ProtectedFieldRow {
    ProtectedFieldRow {
        notetype_id,
        notetype_name: name.to_string(),
        field_id,
        field_name: format!("f{}", field_id),
        protected: true,
    }
}

#[test]
fn no_protected_field_is_lost() {
    let models = pull_protected_fields(&vec![
        row(1, "one", 10),
        row(1, "one", 11),
        row(2, "two", 20),
        row(1, "one", 12),
        row(0, "none", 30),
        row(0, "none", 31),
    ]);
    let shape: Vec<(i64, &str, Vec<i64>)> = models
        .iter()
        .map(|m| (m.id, m.name.as_str(), m.fields.iter().map(|f| f.id).collect()))
        .collect();
    assert_eq!(
        shape,
        vec![
            (1, "one", vec![10, 11]),
            (2, "two", vec![20]),
            (1, "one", vec![12]),
            (0, "none", vec![30]),
            (0, "none", vec![31]),
        ]
    );
    assert_eq!(models[0].fields[0].name, "f10");
    assert!(models[0].fields[0].protected);
    assert!(pull_protected_fields(&Vec::new()).is_empty());
}

#[test]
fn fields_agree_by_number_or_name() {
    let mine = notetype(vec![field("Front", Some(5))], Vec::new());
    let with = |f: StoredField| stored("s", None, vec![f], Vec::new());
    assert!(will_do(&mine, &with(stored_field("Other", Some(5)))));
    assert!(will_do(&mine, &with(stored_field("Other", None))));
    assert!(will_do(&mine, &with(stored_field("Front", Some(6)))));
    assert!(!will_do(&mine, &with(stored_field("Other", Some(6)))));
    assert!(!will_do(&mine, &stored("s", None, Vec::new(), Vec::new())));
}

#[test]
fn templates_are_the_same_or_alike() {
    let mine = notetype(Vec::new(), vec![template("Card", "q", Some(5))]);
    let with = |t: StoredTemplate| stored("s", None, Vec::new(), vec![t]);
    assert!(will_do(&mine, &with(stored_template("Other", "other", Some(5)))));
    assert!(will_do(&mine, &with(stored_template("Other", "q", Some(6)))));
    assert!(will_do(&mine, &with(stored_template("Card", "other", Some(6)))));
    assert!(!will_do(&mine, &with(stored_template("Other", "other", Some(6)))));
    let two = notetype(
        Vec::new(),
        vec![template("Card 1", "q1", Some(1)), template("Card 2", "q2", Some(2))],
    );
    let mixed = stored(
        "s",
        None,
        Vec::new(),
        vec![
            stored_template("Card 1", "other", Some(8)),
            stored_template("Other", "q2", Some(9)),
        ],
    );
    assert!(!will_do(&two, &mixed));
}

#[test]
fn stock_kinds_must_not_differ() {
    let mut mine = notetype(Vec::new(), Vec::new());
    assert!(will_do(&mine, &stored("s", Some(1), Vec::new(), Vec::new())));
    mine.originalStockKind = Some(2);
    assert!(!will_do(&mine, &stored("s", Some(1), Vec::new(), Vec::new())));
    assert!(will_do(&mine, &stored("s", Some(2), Vec::new(), Vec::new())));
    assert!(will_do(&mine, &stored("s", None, Vec::new(), Vec::new())));
}

#[test]
fn a_notetype_will_do_for_itself() {
    let mine = notetype(vec![field("Front", Some(1))], vec![template("Card", "q", Some(2))]);
    let same = stored(
        "s",
        None,
        vec![stored_field("Front", Some(77))],
        vec![stored_template("Card", "q", Some(78))],
    );
    assert!(will_do(&mine, &same));
}

#[test]
fn the_first_notetype_that_will_do_is_taken() {
    let mine = notetype(vec![field("Front", Some(1))], Vec::new());
    let candidates = vec![
        stored("no", None, Vec::new(), Vec::new()),
        stored("first", None, vec![stored_field("Front", Some(1))], Vec::new()),
        stored("second", None, vec![stored_field("Front", Some(1))], Vec::new()),
    ];
    assert_eq!(does_notetype_exist(&mine, false, &candidates), "first");
    assert_eq!(does_notetype_exist(&mine, true, &candidates), "uuid");
    assert_eq!(does_notetype_exist(&mine, false, &Vec::new()), "");
}

#[test]
fn decks_and_owners_of_notetypes() {
    assert_eq!(deck_for_notetype(Some(4)), Ok(4));
    assert_eq!(
        deck_for_notetype(None),
        Err("Attempted insertion on no deck. Abort.".to_string())
    );
    assert_eq!(owner_of_deck(Some(4)), Ok(4));
    assert_eq!(owner_of_deck(None), Err("Deck does not exist".to_string()));
}

#[test]
fn a_known_notetype_is_used() {
    let mine = notetype(Vec::new(), Vec::new());
    assert_eq!(
        unpack_notetype(&mine, 7, "known".to_string()),
        NotetypeStep::Use { guid: "known".to_string() }
    );
}

#[test]
fn a_new_notetype_is_stored() {
    let mine = notetype(
        vec![field("Front", None), field("<b>Back</b><script>y</script>", Some(9))],
        vec![template("<script>z</script>Card", "q", None)],
    );
    let (guid, plan) = match unpack_notetype(&mine, 7, String::new()) {
        NotetypeStep::Store { guid, plan } => (guid, plan),
        NotetypeStep::Use { .. } => panic!("used"),
    };
    assert_eq!(guid, "uuid");
    assert_eq!(plan.notetype.guid, "uuid");
    assert_eq!(plan.notetype.owner, 7);
    assert_eq!(plan.notetype.name, "Basic");
    assert_eq!(plan.notetype.original_stock_kind, 0);
    assert_eq!(plan.notetype.sortf, 2);
    assert_eq!(plan.notetype.type_, 1);
    assert_eq!(plan.notetype.latex_pre, "pre");
    assert_eq!(plan.notetype.latex_post, "post");
    assert!(plan.notetype.latex_svg);
    assert_eq!(plan.fields.len(), 2);
    assert_eq!(plan.fields[0].description, "d");
    assert_eq!(plan.fields[0].anki_id, 0);
    assert_eq!(plan.fields[0].tag, 0);
    assert_eq!(plan.fields[0].position, 0);
    assert_eq!(plan.fields[1].name, "<b>Back</b>");
    assert_eq!(plan.fields[1].anki_id, 9);
    assert_eq!(plan.fields[1].position, 1);
    assert_eq!(plan.fields[1].ord, 3);
    assert!(plan.fields[1].rtl);
    assert_eq!(plan.templates.len(), 1);
    assert_eq!(plan.templates[0].name, "Card");
    assert_eq!(plan.templates[0].qfmt, "q");
    assert_eq!(plan.templates[0].bafmt, "ba");
    assert_eq!(plan.templates[0].ord, 4);
    assert_eq!(plan.templates[0].position, 0);
}
