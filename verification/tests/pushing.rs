use ankicollab::deck_import::{outline, DeckImport, ImportStep};
use ankicollab::push::{
    check_deck_exists, deck_for_notes, is_approved, is_bulk, keep_approved, models_to_unpack,
    needs_approval, parse_deck_uuid,
    plan_fields, plan_note, plan_tags, resolve_notetypes, sort_notes, stored_deck, stored_note,
    ExistingNote, KnownNote, NewNoteField, NotePlace, NoteUnpack, NotetypeCache, UnpackStage,
};
use ankicollab::structs::{AnkiDeck, Note, Notetype};
use ankicollab::suggestion::NotetypeCheck;

fn texts(list: &[&str]) -> Vec<String> {
    list.iter().map(|s| s.to_string()).collect()
}

fn note(guid: &str, model: &str) -> Note {
    Note {
        fields: Vec::new(),
        guid: guid.to_string(),
        note_model_uuid: model.to_string(),
        tags: Vec::new(),
    }
}

fn model(uuid: &str) -> Notetype {
    Notetype {
        crowdanki_uuid: uuid.to_string(),
        css: String::new(),
        flds: Vec::new(),
        latexPost: String::new(),
        latexPre: String::new(),
        latexsvg: false,
        name: String::new(),
        originalStockKind: None,
        req: Vec::new(),
        sortf: 0,
        tmpls: Vec::new(),
        type_: 0,
    }
}

#[test]
fn notetypes_are_looked_up() {
    let mut cache = NotetypeCache::new();
    cache.insert("m1".to_string(), "s1".to_string());
    cache.insert("m2".to_string(), "s2".to_string());
    cache.insert("m1".to_string(), "s3".to_string());
    assert_eq!(cache.get("m1"), Some("s3".to_string()));
    assert_eq!(cache.get("m3"), None);
    let notes = vec![note("a", "m2"), note("b", "m9"), note("c", "m1")];
    assert_eq!(resolve_notetypes(&notes, &vec![2, 0], &cache), Ok(texts(&["s3", "s2"])));
    assert_eq!(
        resolve_notetypes(&notes, &vec![0, 1], &cache),
        Err("Note type not found in cache: m9".to_string())
    );
}

#[test]
fn errors_around_notes_and_decks() {
    assert_eq!(deck_for_notes(Some(1)), Ok(1));
    assert_eq!(deck_for_notes(None), Err("Deck ID is None".to_string()));
    assert_eq!(stored_note("g", Some(1)), Ok(1));
    assert_eq!(
        stored_note("g", None),
        Err("Error inserting note g: notetype does not exist".to_string())
    );
    assert_eq!(stored_deck(Some(1)), Ok(1));
    assert_eq!(
        stored_deck(None),
        Err("Deck already exists. Please suggests cards instead (2).".to_string())
    );
    assert_eq!(check_deck_exists("D", "h".to_string(), false), Ok("h".to_string()));
    assert_eq!(
        check_deck_exists("D", "h".to_string(), true),
        Err("Deck D already exists. Please submit suggestions instead.".to_string())
    );
    assert_eq!(parse_deck_uuid("00000000-0000-0000-0000-000000000010"), Ok(16));
    let reason = parse_deck_uuid("x").unwrap_err();
    assert!(!reason.is_empty());
    assert_ne!(reason, "x");
}

#[test]
fn fields_that_are_stored() {
    let fields = texts(&["a", "", "c", "d", "e"]);
    let insert = plan_fields(&fields, &vec![2], 3).unwrap();
    assert_eq!(
        insert.fields,
        vec![
            NewNoteField { position: 0, content: "a".to_string() },
            NewNoteField { position: 3, content: "d".to_string() },
        ]
    );
    assert_eq!(
        insert.query,
        "INSERT INTO fields (note, position, content, reviewed, creator_ip, commit) VALUES \
         ($1, $2, $3, $4, $5, $6),($7, $8, $9, $10, $11, $12)"
    );
    assert_eq!(plan_fields(&texts(&["", ""]), &Vec::new(), 5), None);
    assert_eq!(plan_fields(&Vec::new(), &Vec::new(), u32::MAX), None);
    assert_eq!(plan_fields(&texts(&["a"]), &vec![0], 0), None);
}

#[test]
fn tags_that_are_stored() {
    let insert = plan_tags(&texts(&["a", "b"]), &vec![true, true]).unwrap();
    assert_eq!(insert.tags, texts(&["a", "b"]));
    assert_eq!(
        insert.query,
        "INSERT INTO tags (note, content, reviewed, creator_ip, action, commit) VALUES \
         ($1, $2, $3, $4, true, $5),($6, $7, $8, $9, true, $10)"
    );
    let insert = plan_tags(&texts(&["a", "b"]), &vec![false, true]).unwrap();
    assert_eq!(insert.tags, texts(&["b"]));
    assert!(insert.query.ends_with("VALUES ($1, $2, $3, $4, true, $5)"));
    let insert = plan_tags(&texts(&["a", "b", "c", "d"]), &vec![true, false, false, true]).unwrap();
    assert_eq!(insert.tags, texts(&["a", "d"]));
    assert!(insert.query.ends_with("($1, $2, $3, $4, true, $5),($6, $7, $8, $9, true, $10)"));
    assert_eq!(plan_tags(&texts(&["a"]), &vec![false]), None);
    assert_eq!(plan_tags(&Vec::new(), &Vec::new()), None);
    assert!(is_approved("ok", false));
    assert!(is_approved("AnkiCollab_Optional::x", true));
    assert!(!is_approved("AnkiCollab_Optional::x", false));
    assert_eq!(keep_approved(&texts(&["a", "b"]), &vec![false, true]), ["b"]);
    assert!(needs_approval("AnkiCollab_Optional::x"));
    assert!(!needs_approval("AnkiCollab_Optional"));
    assert!(!needs_approval("ankicollab_optional::x"));
}

#[test]
fn a_note_is_planned() {
    let mut n = note("g", "m");
    n.fields = texts(&["x"]);
    n.tags = texts(&["t"]);
    let plan = plan_note(&n, &Vec::new(), 0, &vec![true], true);
    assert!(plan.touch);
    assert_eq!(plan.fields.unwrap().fields.len(), 1);
    assert_eq!(plan.tags.unwrap().tags, texts(&["t"]));
    assert!(!plan_note(&n, &Vec::new(), 0, &vec![true], false).touch);
}

fn stored_all(count: usize) -> (NoteUnpack, usize, bool, bool) {
    let mut unpack = NoteUnpack::new((0..count).collect(), vec!["s".to_string(); count]);
    let (mut commits, mut rested, mut woken) = (0, false, false);
    loop {
        match unpack.stage {
            UnpackStage::Rest => {
                assert!(!rested);
                rested = true;
                unpack.on_done();
            }
            UnpackStage::Begin => unpack.on_done(),
            UnpackStage::Insert => {
                let id = unpack.done as i64 + 1;
                assert_eq!(unpack.on_inserted("g", Some(id)), Ok(id));
            }
            UnpackStage::Fill { note_id } => {
                assert_eq!(note_id, unpack.done as i64 + 1);
                unpack.on_filled();
            }
            UnpackStage::Commit => {
                commits += 1;
                unpack.on_done();
            }
            UnpackStage::Wake => {
                assert!(rested && !woken);
                woken = true;
                unpack.on_done();
            }
            UnpackStage::Finished => return (unpack, commits, rested, woken),
        }
    }
}

#[test]
fn triggers_are_woken() {
    assert!(!is_bulk(5000));
    assert!(is_bulk(5001));
    let (unpack, commits, rested, woken) = stored_all(5001);
    assert_eq!(unpack.done, 5001);
    assert_eq!(commits, 21);
    assert!(rested && woken);
    let (unpack, commits, rested, woken) = stored_all(500);
    assert_eq!(unpack.done, 500);
    assert_eq!(commits, 2);
    assert!(!rested && !woken);
    assert_eq!(stored_all(0).1, 0);
}

#[test]
fn a_note_that_is_not_stored_stops_the_rest() {
    let mut unpack = NoteUnpack::new(vec![0], texts(&["s"]));
    unpack.on_done();
    assert_eq!(
        unpack.on_inserted("g", None),
        Err("Error inserting note g: notetype does not exist".to_string())
    );
    assert_eq!(unpack.stage, UnpackStage::Insert);
}

#[test]
fn notetypes_to_unpack() {
    let mut cache = NotetypeCache::new();
    cache.insert("known".to_string(), "s".to_string());
    let models = vec![model("a"), model("known"), model("b"), model("a")];
    assert_eq!(models_to_unpack(&models, &cache), [0, 2]);
}

#[test]
fn each_note_is_known_or_new() {
    let notes = vec![note("a", "m"), note("b", "m"), note("c", "m")];
    let rows = vec![
        ExistingNote { guid: "b".to_string(), id: 1, deck: 2 },
        ExistingNote { guid: "b".to_string(), id: 3, deck: 4 },
        ExistingNote { guid: "z".to_string(), id: 5, deck: 6 },
    ];
    let sorting = sort_notes(&notes, &rows);
    assert_eq!(
        sorting.known,
        vec![KnownNote { index: 1, place: NotePlace { id: 3, deck: 4 } }]
    );
    assert_eq!(sorting.fresh, [0, 2]);
    assert!(sorting.unpack);
    assert!(!sort_notes(&vec![note("b", "m")], &rows).unpack);
    assert!(sort_notes(&Vec::new(), &Vec::new()).unpack);
}

fn deck(name: &str, children: Vec<AnkiDeck>) -> AnkiDeck {
    AnkiDeck {
        crowdanki_uuid: String::new(),
        children,
        desc: String::new(),
        name: name.to_string(),
        note_models: None,
        notes: Vec::new(),
        media_files: Vec::new(),
    }
}

fn tree() -> AnkiDeck {
    deck(
        "top",
        vec![
            deck("a", vec![deck("a1", Vec::new()), deck("a2", Vec::new())]),
            deck("b", Vec::new()),
        ],
    )
}

#[test]
fn decks_stand_before_those_below_them() {
    let top = tree();
    let list = outline(&top, "root");
    let shape: Vec<(&str, Option<usize>, usize, &str)> = list
        .iter()
        .map(|e| (e.deck.name.as_str(), e.above, e.end, e.path.as_str()))
        .collect();
    assert_eq!(
        shape,
        vec![
            ("top", None, 5, "root"),
            ("a", Some(0), 4, "root::a"),
            ("a1", Some(1), 3, "root::a::a1"),
            ("a2", Some(1), 4, "root::a::a2"),
            ("b", Some(0), 5, "root::b"),
        ]
    );
}

/// Runs an import in which the creation of the decks in `no_create` and the filling of those in
/// `no_fill` fails, and the paths in `known` exist; says what was done.
fn run(
    import: &mut DeckImport,
    known: &[&str],
    restricted: Option<bool>,
    no_create: &[&str],
    no_fill: &[&str],
) -> (Vec<String>, Result<(), String>) {
    let mut log = Vec::new();
    let mut next_id = 100;
    loop {
        let result = match import.step() {
            ImportStep::Check { path } => {
                log.push(format!("check {}", path));
                if known.contains(&path.as_str()) {
                    import.on_checked(Ok((Some(1), 0)))
                } else {
                    import.on_checked(Ok((Some(2), 7)))
                }
            }
            ImportStep::AskRestriction => import.on_restriction(restricted),
            ImportStep::Create { deck, parent, owner } => {
                next_id += 1;
                log.push(format!("create {} {:?} {}", deck.name, parent, owner));
                if no_create.contains(&deck.name.as_str()) {
                    import.on_created(Err("create".to_string()))
                } else {
                    import.on_created(Ok(next_id))
                }
            }
            ImportStep::Fill { deck, deck_id } => {
                log.push(format!("fill {} {}", deck.name, deck_id));
                if no_fill.contains(&deck.name.as_str()) {
                    import.on_filled(Err("fill".to_string()))
                } else {
                    import.on_filled(Ok(()))
                }
            }
            ImportStep::Finished => return (log, Ok(())),
        };
        if result.is_err() {
            return (log, result);
        }
    }
}

#[test]
fn a_new_deck_is_imported() {
    let top = tree();
    let (log, result) = run(&mut DeckImport::new_deck(&top, 9), &[], None, &[], &[]);
    assert_eq!(result, Ok(()));
    assert_eq!(
        log,
        [
            "create top None 9",
            "fill top 101",
            "create a Some(101) 9",
            "fill a 102",
            "create a1 Some(102) 9",
            "fill a1 103",
            "create a2 Some(102) 9",
            "fill a2 104",
            "create b Some(101) 9",
            "fill b 105",
        ]
    );
}

#[test]
fn failures_below_a_new_deck_go_without_notice() {
    let top = tree();
    let (log, result) = run(&mut DeckImport::new_deck(&top, 9), &[], None, &["a1"], &[]);
    assert_eq!(result, Ok(()));
    assert_eq!(log.last().unwrap(), "fill b 104");
    assert!(!log.iter().any(|l| l.contains("a2")));
    let (log, result) = run(&mut DeckImport::new_deck(&top, 9), &[], None, &[], &["a"]);
    assert_eq!(result, Ok(()));
    assert!(!log.iter().any(|l| l.contains("a1") || l.contains("a2")));
    assert_eq!(log.last().unwrap(), "fill b 103");
    let (log, result) = run(&mut DeckImport::new_deck(&top, 9), &[], None, &["a"], &[]);
    assert_eq!(result, Ok(()));
    assert_eq!(log, ["create top None 9", "fill top 101", "create a Some(101) 9"]);
    let (_, result) = run(&mut DeckImport::new_deck(&top, 9), &[], None, &["top"], &[]);
    assert_eq!(result, Err("create".to_string()));
}

#[test]
fn suggestions_for_a_deck_are_imported() {
    let top = tree();
    let known = ["root", "root::b"];
    let (log, result) =
        run(&mut DeckImport::suggestion(&top, "root"), &known, Some(false), &[], &[]);
    assert_eq!(result, Ok(()));
    assert_eq!(
        log,
        [
            "check root",
            "fill top 1",
            "check root::a",
            "create a Some(2) 7",
            "fill a 101",
            "create a1 Some(101) 7",
            "fill a1 102",
            "create a2 Some(101) 7",
            "fill a2 103",
            "check root::b",
            "fill b 1",
        ]
    );
}

#[test]
fn suggestions_that_fail_are_noticed() {
    let top = tree();
    let known = ["root", "root::b"];
    let attempt = |restricted: Option<bool>, no_create: &[&str], no_fill: &[&str]| {
        run(&mut DeckImport::suggestion(&top, "root"), &known, restricted, no_create, no_fill).1
    };
    assert_eq!(attempt(Some(true), &[], &[]), Err("Subdecks are not allowed".to_string()));
    assert_eq!(attempt(None, &[], &[]), Err("Deck does not exist".to_string()));
    assert_eq!(attempt(Some(false), &["a"], &[]), Err("create".to_string()));
    assert_eq!(attempt(Some(false), &["a1"], &[]), Ok(()));
    assert_eq!(attempt(Some(false), &[], &["top"]), Err("fill".to_string()));
    assert_eq!(attempt(Some(false), &[], &["a"]), Ok(()));
    let mut import = DeckImport::suggestion(&top, "root");
    assert_eq!(import.on_checked(Err("why".to_string())), Err("why".to_string()));
    assert_eq!(
        import.on_checked(Ok((None, 0))),
        Err("Deck not found. Illegal code.".to_string())
    );
}

#[test]
fn the_notetypes_of_all_decks_are_checked() {
    let mut top = tree();
    top.note_models = Some(vec![model("m1"), model("m2"), model("m1")]);
    top.children[0].children[1].note_models = Some(vec![model("m3"), model("m2")]);
    top.children[1].note_models = Some(vec![model("m4")]);
    let mut cache = NotetypeCache::new();
    cache.insert("m2".to_string(), "g2".to_string());
    let mut check = NotetypeCheck::new(&top);
    assert_eq!(check.models.len(), 6);
    assert_eq!(check.next(&cache), Some(&model("m1")));
    assert_eq!(check.next(&cache), Some(&model("m1")));
    assert_eq!(check.on_existing(&mut cache, "g1".to_string()), Ok(()));
    assert_eq!(check.next(&cache), Some(&model("m3")));
    assert_eq!(check.on_existing(&mut cache, "g3".to_string()), Ok(()));
    assert_eq!(check.next(&cache), Some(&model("m4")));
    assert_eq!(check.on_existing(&mut cache, String::new()), Err("m4".to_string()));
    assert_eq!(cache.get("m4"), None);
    assert_eq!(check.on_existing(&mut cache, "g4".to_string()), Ok(()));
    assert_eq!(check.next(&cache), None);
    assert_eq!(cache.get("m1"), Some("g1".to_string()));
    assert_eq!(cache.get("m3"), Some("g3".to_string()));
}
