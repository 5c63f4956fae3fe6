use ankicollab::media_reference_manager::{
    extract_media_references, gather_references, is_local_source, missing_in_note, missing_media,
    reference_changes, FoundReferences,
};

fn texts(list: &[&str]) -> Vec<String> {
    list.iter().map(|s| s.to_string()).collect()
}

#[test]
fn local_sources() {
    assert!(is_local_source("image.png"));
    assert!(is_local_source(""));
    assert!(is_local_source("HTTP://x"));
    assert!(!is_local_source("http://x"));
    assert!(!is_local_source("https://x"));
    assert!(!is_local_source("data:image/png;base64,"));
}

#[test]
fn sounds_of_a_field() {
    assert_eq!(
        extract_media_references("[sound:a.mp3] and [sound:b.mp3][sound:a.mp3]"),
        texts(&["a.mp3", "b.mp3"])
    );
    assert!(extract_media_references("[sound:a.mp3").is_empty());
    assert_eq!(extract_media_references("[sound:http://x]"), texts(&["http://x"]));
}

#[test]
fn images_of_a_field() {
    assert_eq!(
        extract_media_references("<img class='x' src=\"a.png\" /><img src='b.jpg'>"),
        texts(&["a.png", "b.jpg"])
    );
    assert!(extract_media_references("<img src=\"http://x/a.png\">").is_empty());
    assert!(extract_media_references("<img src=\"data:abc\">").is_empty());
}

#[test]
fn other_references_of_a_field() {
    assert_eq!(extract_media_references("url('_font.ttf')"), texts(&["_font.ttf"]));
    assert_eq!(extract_media_references("url(a.png)"), texts(&["a.png"]));
    assert_eq!(extract_media_references("<object SRC=\"c.svg\">"), texts(&["c.svg"]));
    assert_eq!(extract_media_references("<use xlink:href='d.svg'>"), texts(&["d.svg"]));
    assert_eq!(
        extract_media_references("latex-image-abc123.png latex-image-.png"),
        texts(&["latex-image-abc123.png"])
    );
    assert!(extract_media_references("").is_empty());
    assert!(extract_media_references("plain text").is_empty());
}

#[test]
fn references_come_kind_by_kind() {
    let field = "latex-image-l.png url(c.png) <img src='i.png'> [sound:s.mp3]";
    assert_eq!(
        extract_media_references(field),
        texts(&["s.mp3", "i.png", "c.png", "latex-image-l.png"])
    );
}

#[test]
fn what_the_patterns_found_is_gathered() {
    let found = FoundReferences {
        sounds: vec![Some("a".to_string()), None, Some("http://s".to_string())],
        images: vec![Some("http://i".to_string()), Some("b".to_string())],
        styles: vec![Some("data:x".to_string()), Some("a".to_string())],
        sources: vec![None, Some("c".to_string())],
        latex: vec![Some("https://l".to_string())],
    };
    assert_eq!(gather_references(&found), texts(&["a", "http://s", "b", "c", "https://l"]));
}

#[test]
fn kept_references_are_used() {
    let fields = texts(&["[sound:a.mp3]", "<img src='b.png'>[sound:a.mp3]"]);
    let changes = reference_changes(&fields, &texts(&["b.png", "old.png", "old.png"]));
    assert_eq!(changes.to_add, texts(&["a.mp3"]));
    assert_eq!(changes.to_remove, texts(&["old.png"]));
}

#[test]
fn media_that_notes_miss() {
    let first = missing_in_note(&texts(&["[sound:a.mp3][sound:b.mp3]"]), &texts(&["b.mp3"]));
    assert_eq!(first, texts(&["a.mp3"]));
    let second = missing_in_note(&texts(&["[sound:a.mp3]", "url(c.png)"]), &Vec::new());
    assert_eq!(second, texts(&["a.mp3", "c.png"]));
    assert_eq!(missing_media(&vec![first, second]), texts(&["a.mp3", "c.png"]));
    assert!(missing_media(&Vec::new()).is_empty());
}
