use ankicollab::note_removal::{
    deck_of_removal, notes_to_remove, removal_failure, REMOVAL_RATIONALE,
};
use ankicollab::structs::{AnkiDeck, Note};
use ankicollab::suggestion::{
    captured_group, clean_fields, commit_info, fix_deck_name, named_path, optional_tag_group,
    original_name, overwrite_fields, overwrite_note, parent_path, permitted_notetype,
    plan_tag_changes, remove_ankicollab_suffix, revise_fields, sanity_check,
    sanity_check_notetypes, suggest_fields, tag_changes, tag_plan, topmost_deck,
    update_deck_names, update_note, FieldChange, NoteMove, NotetypeRule, PathLookup, TagHandling,
    TagRemoval,
};

fn texts(list: &[&str]) -> Vec<String> {
    list.iter().map(|s| s.to_string()).collect()
}

#[test]
fn groups_of_optional_tags() {
    assert_eq!(
        optional_tag_group("AnkiCollab_Optional::group::sub"),
        Ok(Some("group".to_string()))
    );
    assert_eq!(optional_tag_group("x AnkiCollab_Optional::g"), Ok(Some("g".to_string())));
    assert_eq!(optional_tag_group("AnkiCollab_Optional::"), Ok(None));
    assert_eq!(optional_tag_group("other"), Ok(None));
    assert_eq!(captured_group(Ok(Some(None))), Ok(None));
    assert_eq!(captured_group(Ok(Some(Some("a".to_string())))), Ok(Some("a".to_string())));
    assert_eq!(captured_group(Ok(None)), Ok(None));
    assert_eq!(captured_group(Err("e".to_string())), Err("e".to_string()));
}

#[test]
fn tag_changes_lead_to_the_new_tags() {
    let changes = tag_changes(&texts(&["a", "b", "b"]), &texts(&["c", "a", "c"]));
    assert_eq!(changes.added, texts(&["c", "c"]));
    assert_eq!(changes.removed, texts(&["b", "b"]));
    let none = tag_changes(&texts(&["a"]), &texts(&["a"]));
    assert!(none.added.is_empty() && none.removed.is_empty());
}

#[test]
fn tag_changes_are_planned() {
    let old = texts(&["a", "b", "b"]);
    let new = texts(&["c", "AnkiCollab_Optional::zzz", "a", "d"]);
    let approved = vec![true, false, true];
    let plan = plan_tag_changes(&old, &new, &approved, TagHandling::Suggest { commit: 4 });
    assert_eq!(plan.added, texts(&["c", "d"]));
    assert_eq!(plan.removed, texts(&["b", "b"]));
    assert_eq!((plan.reviewed, plan.removal, plan.commit), (false, TagRemoval::Suggest, 4));
    for reviewed in [true, false] {
        let handling = TagHandling::Force { commit: 5, reviewed };
        let plan = plan_tag_changes(&old, &new, &approved, handling);
        assert_eq!(plan.added, texts(&["c", "d"]));
        assert_eq!(plan.removed, texts(&["b", "b"]));
        assert_eq!((plan.reviewed, plan.removal, plan.commit), (reviewed, TagRemoval::Delete, 5));
        assert_eq!(handling.compares_reviewed(), reviewed);
    }
    assert!(TagHandling::Suggest { commit: 4 }.compares_reviewed());
    let harmful = texts(&["x<script>y</script>"]);
    let handling = TagHandling::Suggest { commit: 4 };
    let plan = plan_tag_changes(&Vec::new(), &harmful, &vec![true], handling);
    assert_eq!(plan.added, texts(&["x"]));
    assert_eq!(plan_tag_changes(&harmful, &Vec::new(), &Vec::new(), handling).removed, ["x"]);
    let plan = tag_plan(texts(&["a"]), texts(&["b"]), TagHandling::Force { commit: 1, reviewed: true });
    assert_eq!((plan.added, plan.removed), (texts(&["a"]), texts(&["b"])));
    assert_eq!((plan.reviewed, plan.removal, plan.commit), (true, TagRemoval::Delete, 1));
    let all = plan_tag_changes(&old, &new, &vec![true; 3], TagHandling::Suggest { commit: 4 });
    assert_eq!(all.added, texts(&["c", "AnkiCollab_Optional::zzz", "d"]));
}

#[test]
fn fields_are_cleaned() {
    let fields = texts(&["<b>x</b><script>y</script>", "", "a"]);
    assert_eq!(clean_fields(&fields), texts(&["<b>x</b>", "", "a"]));
}

fn replace(position: u32, content: &str) -> FieldChange {
    FieldChange::Replace { position, content: content.to_string() }
}

fn add(position: u32, content: &str) -> FieldChange {
    FieldChange::Add { position, content: content.to_string() }
}

#[test]
fn fields_are_changed() {
    let fields = texts(&["x", "", "z", ""]);
    let cleaned = texts(&["X", "", "Z", ""]);
    assert_eq!(
        overwrite_fields(&fields, &cleaned),
        vec![
            replace(0, "X"),
            FieldChange::Remove { position: 1 },
            replace(2, "Z"),
            FieldChange::Remove { position: 3 },
        ]
    );
    let present = vec![true, true, false, false];
    assert_eq!(
        revise_fields(&fields, &cleaned, &present),
        vec![
            replace(0, "X"),
            FieldChange::Remove { position: 1 },
            add(2, "Z"),
            FieldChange::Remove { position: 3 },
        ]
    );
    assert_eq!(
        suggest_fields(&fields, &cleaned, &present),
        vec![add(0, "X"), add(1, ""), add(2, "Z")]
    );
}

fn note() -> Note {
    Note {
        fields: texts(&["X<script>y</script>"]),
        guid: "g".to_string(),
        note_model_uuid: "m".to_string(),
        tags: Vec::new(),
    }
}

#[test]
fn a_note_is_overwritten() {
    let n = note();
    let missing = Err("note not found or deleted".to_string());
    assert_eq!(overwrite_note(false, &n, 5, 6, 1, 1), missing);
    let update = overwrite_note(true, &n, -5, 6, 1, 2).unwrap();
    assert_eq!(update.fields, vec![replace(0, "X")]);
    assert_eq!(update.tags, TagHandling::Force { commit: 6, reviewed: true });
    assert_eq!(update.location, NoteMove::Move);
    assert_eq!(update.message, "Updating the existing card -5 with the new information!");
    let update = overwrite_note(true, &n, 5, 6, 1, 1).unwrap();
    assert_eq!(update.location, NoteMove::Stay);
}

#[test]
fn suggestions_only_add() {
    let n = note();
    let present = vec![true];
    let update = update_note(Some(true), &n, &present, 5, 6, Some(4), 1, 2).unwrap();
    assert_eq!(update.fields, vec![add(0, "X")]);
    assert_eq!(update.tags, TagHandling::Suggest { commit: 6 });
    assert_eq!(update.location, NoteMove::Suggest);
    assert_eq!(update.message, "Suggested the new information to the existing card 5");
}

#[test]
fn a_note_that_is_not_reviewed_is_changed_at_once() {
    let n = note();
    let present = vec![true];
    let missing = Err("note not found or deleted".to_string());
    assert_eq!(update_note(None, &n, &present, 5, 6, None, 1, 2), missing);
    let update = update_note(Some(false), &n, &present, 5, 6, Some(4), 1, 2).unwrap();
    assert_eq!(update.fields, vec![replace(0, "X")]);
    assert_eq!(update.tags, TagHandling::Force { commit: 4, reviewed: false });
    assert_eq!(update.location, NoteMove::Move);
    let update = update_note(Some(false), &n, &present, 5, 6, None, 1, 1).unwrap();
    assert_eq!(update.tags, TagHandling::Force { commit: 6, reviewed: false });
    assert_eq!(update.location, NoteMove::Stay);
}

#[test]
fn suffixes_are_taken_off() {
    let ok = |s: &str| Ok(s.to_string());
    assert_eq!(remove_ankicollab_suffix("Deck (AnkiCollab)"), ok("Deck"));
    assert_eq!(remove_ankicollab_suffix("Deck(AnkiCollab)_12::Sub"), ok("Deck::Sub"));
    assert_eq!(
        remove_ankicollab_suffix("A (AnkiCollab)::B (AnkiCollab)"),
        ok("A::B (AnkiCollab)")
    );
    assert_eq!(remove_ankicollab_suffix("Deck"), ok("Deck"));
    let nothing_left = Err("Error occurred: Deckname is ill-formed.".to_string());
    assert_eq!(remove_ankicollab_suffix(" (AnkiCollab)"), nothing_left);
    assert_eq!(remove_ankicollab_suffix(""), nothing_left);
    assert_eq!(named_path(ok("a")), ok("a"));
    assert_eq!(named_path(ok("")), nothing_left);
    assert_eq!(named_path(Err("e".to_string())), Err("e".to_string()));
}

fn deck(name: &str, children: Vec<AnkiDeck>) -> AnkiDeck {
    AnkiDeck {
        crowdanki_uuid: "u".to_string(),
        children,
        desc: "d".to_string(),
        name: name.to_string(),
        note_models: None,
        notes: Vec::new(),
        media_files: Vec::new(),
    }
}

#[test]
fn decks_get_their_plain_names() {
    let mut top = deck(
        "Top (AnkiCollab)",
        vec![deck("(AnkiCollab)", Vec::new()), deck("B (AnkiCollab)_3", vec![deck("C", Vec::new())])],
    );
    update_deck_names(&mut top);
    assert_eq!(
        top,
        deck(
            "Top",
            vec![deck("(AnkiCollab)", Vec::new()), deck("B", vec![deck("C", Vec::new())])],
        )
    );
}

#[test]
fn paths_are_those_of_the_database() {
    let name = || Some("Original".to_string());
    assert_eq!(
        fix_deck_name("Mine (AnkiCollab)::Mine", "Mine", name()),
        Ok("Original::Mine".to_string())
    );
    assert_eq!(fix_deck_name("Other::Sub", "Mine", name()), Ok("Other::Sub".to_string()));
    assert_eq!(fix_deck_name("Mine", "Mine", None), Err("Deck not found".to_string()));
    assert_eq!(
        fix_deck_name("(AnkiCollab)", "Mine", None),
        Err("Error occurred: Deckname is ill-formed.".to_string())
    );
    assert_eq!(original_name(name()), Ok("Original".to_string()));
}

#[test]
fn above_a_subdeck_is_its_deck() {
    assert_eq!(parent_path("a::b::c"), "a::b");
    assert_eq!(parent_path("a"), "");
    assert_eq!(parent_path(""), "");
    assert_eq!(parent_path("a:::b"), "a");
}

#[test]
fn where_notes_go() {
    let lookup = |deck_id, owner, parent_id| PathLookup { deck_id, owner, parent_id };
    assert_eq!(sanity_check("a", lookup(Some(4), None, None)), Ok((Some(4), 0)));
    assert_eq!(sanity_check("a::b", lookup(None, Some(9), Some(5))), Ok((Some(5), 9)));
    let no_deck = Err("Deck does not exist".to_string());
    assert_eq!(sanity_check("a", lookup(None, Some(9), Some(5))), no_deck);
    assert_eq!(sanity_check("a::b", lookup(None, None, Some(5))), no_deck);
    assert_eq!(
        sanity_check("a::b", lookup(None, Some(9), None)),
        Err("Parent Deck does not exist".to_string())
    );
}

#[test]
fn notetypes_that_are_permitted() {
    assert_eq!(permitted_notetype("u", "guid".to_string()), Ok("guid".to_string()));
    assert_eq!(permitted_notetype("u", String::new()), Err("u".to_string()));
    let rule = |restricted: bool| Some(NotetypeRule { owner: 3, restricted });
    assert_eq!(sanity_check_notetypes(rule(true)), Ok(Some(3)));
    assert_eq!(sanity_check_notetypes(rule(false)), Ok(None));
    assert_eq!(sanity_check_notetypes(None), Err("Deck does not exist".to_string()));
}

#[test]
fn commits_hold_clean_texts() {
    assert_eq!(commit_info("<script>alert(1)</script><b>x</b>"), "<b>x</b>");
}

#[test]
fn topmost_decks() {
    assert_eq!(topmost_deck(Some(1)), Ok(1));
    assert_eq!(topmost_deck(None), Err("No deck found for note".to_string()));
}

#[test]
fn notes_that_are_removed() {
    assert_eq!(REMOVAL_RATIONALE, 11);
    assert_eq!(deck_of_removal(Some(1)), Ok(1));
    assert_eq!(deck_of_removal(None), Err("Deck doesnt exist".to_string()));
    assert_eq!(notes_to_remove(&vec![Some(3), None, Some(1), Some(3)]), [3, 1, 3]);
    assert_eq!(removal_failure(), "Cannot make the removal request");
}
