use ankicollab::pull::{
    assemble_update, changelog_text, found_deck, found_user, gdrive_info, missing_decks,
    ChangedNote, ChangedNotes, ChangelogRow, DeckExtras, DeckGathering, DeckRow, DeletedNotes,
    FieldRow, GatherStep, TagRow,
};
use ankicollab::structs::{AnkiDeck, GDriveInfo, GoogleServiceAccount, Note};

fn texts(list: &[&str]) -> Vec<String> {
    list.iter().map(|s| s.to_string()).collect()
}

fn changed(id: i64, model_id: i64) -> ChangedNote {
    ChangedNote {
        id,
        guid: format!("note{}", id),
        model_guid: format!("model{}", model_id),
        model_id,
    }
}

fn field(note: i64, position: u32, content: &str) -> FieldRow {
    FieldRow { note, content: content.to_string(), position }
}

fn tag(note: i64, content: &str) -> TagRow {
    TagRow { note, content: content.to_string() }
}

#[test]
fn changed_notes_are_gathered_batch_by_batch() {
    let mut notes = ChangedNotes::new();
    assert_eq!(notes.cursor, None);
    let batch = vec![changed(1, 100), changed(2, 200), changed(3, 100)];
    assert_eq!(notes.needed_sizes(&batch), [100, 200]);
    assert!(!notes.knows_sizes(&batch));
    notes.learn_size(100, 3);
    notes.learn_size(200, 1);
    assert!(notes.needed_sizes(&batch).is_empty());
    assert!(notes.knows_sizes(&batch));
    notes.take_batch(
        &batch,
        &vec![field(1, 0, "a"), field(1, 2, "c"), field(1, 3, "x"), field(3, 1, "b"), field(3, 1, "B")],
        &vec![tag(3, "t1"), tag(1, "t2"), tag(3, "t3")],
    );
    assert_eq!(notes.cursor, Some(3));
    assert_eq!(
        notes.notes,
        vec![
            Note {
                fields: texts(&["a", "", "c"]),
                guid: "note1".to_string(),
                note_model_uuid: "model100".to_string(),
                tags: texts(&["t2"]),
            },
            Note {
                fields: texts(&["", "B", ""]),
                guid: "note3".to_string(),
                note_model_uuid: "model100".to_string(),
                tags: texts(&["t1", "t3"]),
            },
        ]
    );
    notes.take_batch(&vec![changed(9, 200)], &vec![field(9, 0, "z")], &Vec::new());
    assert_eq!(notes.cursor, Some(9));
    assert_eq!(notes.notes.len(), 3);
    assert_eq!(notes.notes[2].fields, texts(&["z"]));
}

#[test]
fn a_negative_number_of_fields_is_noticed() {
    let mut notes = ChangedNotes::new();
    notes.learn_size(100, -1);
    assert!(!notes.knows_sizes(&vec![changed(1, 100)]));
    assert!(notes.knows_sizes(&Vec::new()));
}

fn deck_row(id: i64) -> DeckRow {
    DeckRow {
        id,
        name: format!("deck{}", id),
        description: format!("desc{}", id),
        crowdanki_uuid: format!("uuid{}", id),
        owner: 1,
    }
}

fn gathered(tree: &[(i64, &[i64])], top: i64) -> AnkiDeck {
    let mut gathering = DeckGathering::new();
    let mut load = deck_row(top);
    loop {
        let subdecks = match tree.iter().find(|(id, _)| *id == load.id) {
            Some((_, below)) => below.iter().map(|id| deck_row(*id)).collect(),
            None => Vec::new(),
        };
        let id = load.id;
        gathering.on_loaded(load, None, Vec::new(), vec![format!("m{}", id)], subdecks);
        loop {
            match gathering.step() {
                GatherStep::Load { row } => {
                    load = row;
                    break;
                }
                GatherStep::Joined => {}
                GatherStep::Finished { deck } => return deck,
            }
        }
    }
}

fn names(deck: &AnkiDeck) -> String {
    let below: Vec<String> = deck.children.iter().map(names).collect();
    format!("{}({})", deck.name, below.join(","))
}

#[test]
fn subdecks_keep_their_order() {
    let deck = gathered(&[(1, &[2, 3, 4]), (3, &[5, 6]), (5, &[7])], 1);
    assert_eq!(
        names(&deck),
        "deck1(deck2(),deck3(deck5(deck7()),deck6()),deck4())"
    );
    assert_eq!(deck.desc, "desc1");
    assert_eq!(deck.crowdanki_uuid, "uuid1");
    assert_eq!(deck.note_models, Some(Vec::new()));
    assert_eq!(deck.children[1].media_files, texts(&["m3"]));
}

#[test]
fn a_deck_alone_is_gathered() {
    let mut gathering = DeckGathering::new();
    let note = Note {
        fields: texts(&["f"]),
        guid: "g".to_string(),
        note_model_uuid: "m".to_string(),
        tags: Vec::new(),
    };
    gathering.on_loaded(deck_row(1), Some(vec![note]), Vec::new(), Vec::new(), Vec::new());
    match gathering.step() {
        GatherStep::Finished { deck } => {
            assert_eq!(deck.notes.len(), 1);
            assert_eq!(deck.notes[0].guid, "g");
        }
        _ => panic!("not finished"),
    }
}

#[test]
fn deleted_notes_are_found_deck_by_deck() {
    let mut search = DeletedNotes::new(1);
    let mut order = Vec::new();
    while let Some(id) = search.next_deck() {
        order.push(id);
        let below: Vec<i64> = match id {
            1 => vec![2, 3],
            2 => vec![4],
            _ => Vec::new(),
        };
        search.on_deck(&vec![format!("n{}", id)], &below);
    }
    assert_eq!(order, [1, 2, 4, 3]);
    assert_eq!(search.guids, texts(&["n1", "n2", "n4", "n3"]));
}

#[test]
fn changelogs_are_put_into_words() {
    let rows = vec![
        ChangelogRow { message: "new".to_string(), timestamp: "02/01/2024 10:00".to_string() },
        ChangelogRow { message: "old".to_string(), timestamp: "01/01/2024 10:00".to_string() },
    ];
    assert_eq!(
        changelog_text(&rows),
        "--- Changes from 02/01/2024 10:00: ---\nnew\n\n--- Changes from 01/01/2024 10:00: ---\nold\n\n"
    );
    assert_eq!(changelog_text(&Vec::new()), "");
}

#[test]
fn an_update_is_put_together() {
    let deck = gathered(&[], 8);
    let update = assemble_update(
        "hash",
        deck,
        DeckExtras {
            gdrive: Default::default(),
            protected_fields: Vec::new(),
            changelog: vec![ChangelogRow { message: "m".to_string(), timestamp: "t".to_string() }],
            optional_tags: texts(&["o"]),
            deleted_notes: texts(&["d"]),
            stats_enabled: true,
        },
    );
    assert_eq!(update.deck_hash, "hash");
    assert_eq!(update.deck.name, "deck8");
    assert_eq!(update.changelog, "--- Changes from t: ---\nm\n\n");
    assert_eq!(update.optional_tags, texts(&["o"]));
    assert_eq!(update.deleted_notes, texts(&["d"]));
    assert!(update.stats_enabled);
    assert_eq!(update.gdrive, GDriveInfo::default());
}

#[test]
fn accounts_of_google_drive() {
    let blank = gdrive_info(None);
    assert_eq!(blank, GDriveInfo::default());
    assert_eq!(blank.folder_id, "");
    let account = GoogleServiceAccount {
        project_id: "p".to_string(),
        ..GDriveInfo::default().service_account
    };
    let known = gdrive_info(Some((account, "folder".to_string())));
    assert_eq!(known.folder_id, "folder");
    assert_eq!(known.service_account.project_id, "p");
}

#[test]
fn decks_and_users_that_are_not_found() {
    assert_eq!(found_deck(Some(deck_row(1))), Ok(deck_row(1)));
    assert_eq!(found_deck(None), Err("No deck found".to_string()));
    assert_eq!(found_user(Some(3)), Ok(3));
    assert_eq!(found_user(None), Err("User doesnt exist".to_string()));
}

#[test]
fn decks_that_are_gone() {
    assert_eq!(
        missing_decks(&texts(&["a", "b", "c", "b"]), &texts(&["c", "a"])),
        texts(&["b", "b"])
    );
    assert!(missing_decks(&Vec::new(), &texts(&["a"])).is_empty());
}
