//! The media files to which the fields of notes refer.
use vstd::prelude::*;

use crate::outside;
use crate::text;

verus! {

/// The pattern of a sound: `[sound:filename.mp3]`.
pub const SOUND_PATTERN: &'static str = r"\[sound:(.*?)\]";

/// The pattern of an image of an HTML text.
pub const IMG_PATTERN: &'static str = r#"<img[^>]*src=["']([^"']*)["'][^>]*>"#;

/// The pattern of a file of a style sheet.
pub const CSS_PATTERN: &'static str = r#"url\(["']?([^"')]+)["']?\)"#;

/// The pattern of the source of any other HTML element.
pub const SRC_PATTERN: &'static str = r#"(?i)(?:src|xlink:href)=["']([^"']+)["']"#;

/// The pattern of an image that was made of LaTeX.
pub const LATEX_PATTERN: &'static str = r"latex-image-\w+\.png";

/// One of the patterns by which the references of a field are found.
pub open spec fn is_reference_pattern(pattern: Seq<char>) -> bool {
    ||| pattern == SOUND_PATTERN@
    ||| pattern == IMG_PATTERN@
    ||| pattern == CSS_PATTERN@
    ||| pattern == SRC_PATTERN@
    ||| pattern == LATEX_PATTERN@
}

/// The most notes whose references are looked up at once.
pub const NOTE_BATCH: usize = 1000;

/// The source names a media file of the collection: it is no address on the web, and it is not the
/// file itself.
pub open spec fn is_local(src: Seq<char>) -> bool {
    &&& !"http://"@.is_prefix_of(src)
    &&& !"https://"@.is_prefix_of(src)
    &&& !"data:"@.is_prefix_of(src)
}

/// Whether the source names a media file of the collection.
pub fn is_local_source(src: &str) -> (r: bool)
    ensures
        r == is_local(src@),
{
    !text::begins_with(src, "http://") && !text::begins_with(src, "https://") && !text::begins_with(
        src,
        "data:",
    )
}

/// The texts of those of the captures that took part in their matches.
pub open spec fn captured(found: Seq<Option<Seq<char>>>) -> Seq<Seq<char>> {
    found.filter_map(|c: Option<Seq<char>>| c)
}

/// What the patterns found in a field.
#[derive(Debug, PartialEq)]
pub struct FoundReferences {
    pub sounds: Vec<Option<String>>,
    pub images: Vec<Option<String>>,
    pub styles: Vec<Option<String>>,
    pub sources: Vec<Option<String>>,
    pub latex: Vec<Option<String>>,
}

/// What the captures hold.
pub open spec fn capture_texts(found: Seq<Option<String>>) -> Seq<Option<Seq<char>>> {
    found.map_values(|c: Option<String>| outside::option_text(c))
}

/// The files to which a field refers, given what the patterns found in it: all sounds and all
/// images made of LaTeX, and the local files among the rest.
pub open spec fn references_found(found: FoundReferences) -> Seq<Seq<char>> {
    let local = |s: Seq<char>| is_local(s);
    captured(capture_texts(found.sounds@)) + captured(capture_texts(found.images@)).filter(local)
        + captured(capture_texts(found.styles@)).filter(local) + captured(
        capture_texts(found.sources@),
    ).filter(local) + captured(capture_texts(found.latex@))
}

/// Appends the captures of a list.
fn append_captured(out: &mut Vec<String>, found: &Vec<Option<String>>)
    ensures
        text::texts(final(out)@) == text::texts(old(out)@) + captured(capture_texts(found@)),
{
    let mut i: usize = 0;
    let ghost all = capture_texts(found@);
    let ghost same = |c: Option<Seq<char>>| c;
    proof {
        reveal(Seq::filter_map);
        assert(all.take(0) =~= Seq::<Option<Seq<char>>>::empty());
        assert(text::texts(out@) + captured(all.take(0)) =~= text::texts(out@));
    }
    while i < found.len()
        invariant
            i <= found@.len(),
            all == capture_texts(found@),
            text::texts(out@) == text::texts(old(out)@) + captured(all.take(i as int)),
        decreases found@.len() - i,
    {
        proof {
            reveal(Seq::filter_map);
            assert(all.take(i + 1).drop_last() =~= all.take(i as int));
            assert(all.take(i + 1).last() == outside::option_text(found@[i as int]));
        }
        if let Some(s) = &found[i] {
            let ghost before = text::texts(out@);
            out.push(s.clone());
            assert(text::texts(out@) =~= before.push(s@));
            assert(captured(all.take(i + 1)) =~= captured(all.take(i as int)).push(s@));
        } else {
            assert(captured(all.take(i + 1)) =~= captured(all.take(i as int)));
        }
        i += 1;
    }
    assert(all.take(all.len() as int) =~= all);
}

/// Appends the local files among the captures of a list.
fn append_local(out: &mut Vec<String>, found: &Vec<Option<String>>)
    ensures
        text::texts(final(out)@) == text::texts(old(out)@) + captured(
            capture_texts(found@),
        ).filter(|s: Seq<char>| is_local(s)),
{
    let ghost local = |s: Seq<char>| is_local(s);
    let mut list: Vec<String> = Vec::new();
    append_captured(&mut list, found);
    assert(text::texts(list@) =~= captured(capture_texts(found@)));
    let ghost all = text::texts(list@);
    let mut i: usize = 0;
    proof {
        reveal(Seq::filter);
        assert(all.take(0) =~= Seq::<Seq<char>>::empty());
        assert(text::texts(out@) + all.take(0).filter(local) =~= text::texts(out@));
    }
    while i < list.len()
        invariant
            i <= list@.len(),
            all == text::texts(list@),
            local == (|s: Seq<char>| is_local(s)),
            text::texts(out@) == text::texts(old(out)@) + all.take(i as int).filter(local),
        decreases list@.len() - i,
    {
        let s = &list[i];
        proof {
            assert(all.take(i + 1) =~= all.take(i as int).push(s@));
            all.take(i as int).lemma_filter_push(s@, local);
        }
        if is_local_source(s.as_str()) {
            let ghost before = text::texts(out@);
            out.push(s.clone());
            assert(text::texts(out@) =~= before.push(s@));
            assert(text::texts(out@) =~= text::texts(old(out)@) + all.take(i + 1).filter(local));
        }
        i += 1;
    }
    assert(all.take(all.len() as int) =~= all);
}

/// The files to which a field refers, given what the patterns found in it, each once.
pub fn gather_references(found: &FoundReferences) -> (r: Vec<String>)
    ensures
        text::texts(r@) == text::distinct_texts(references_found(*found)),
{
    let mut all: Vec<String> = Vec::new();
    append_captured(&mut all, &found.sounds);
    append_local(&mut all, &found.images);
    append_local(&mut all, &found.styles);
    append_local(&mut all, &found.sources);
    append_captured(&mut all, &found.latex);
    assert(text::texts(all@) =~= references_found(*found));
    text::distinct(&all)
}

/// What a pattern finds in a field: a group of each match, as far as it took part in the match.
pub open spec fn matches_in(pattern: Seq<char>, field: Seq<char>, group: nat) -> Seq<Seq<char>> {
    match outside::regex_groups(pattern, field, group) {
        Some(found) => captured(found),
        None => Seq::empty(),
    }
}

/// The files to which a field refers, as often as it does.
pub open spec fn references_in(field: Seq<char>) -> Seq<Seq<char>> {
    let local = |s: Seq<char>| is_local(s);
    matches_in(SOUND_PATTERN@, field, 1) + matches_in(IMG_PATTERN@, field, 1).filter(local)
        + matches_in(CSS_PATTERN@, field, 1).filter(local) + matches_in(
        SRC_PATTERN@,
        field,
        1,
    ).filter(local) + matches_in(LATEX_PATTERN@, field, 0)
}

/// Each of the texts is a contiguous piece of a field.
pub open spec fn are_parts(list: Seq<Seq<char>>, field: Seq<char>) -> bool {
    forall|s: Seq<char>| #[trigger] list.contains(s) ==> text::is_part_of(s, field)
}

/// What a pattern finds in a field.
fn find_group(pattern: &str, field: &str, group: usize) -> (r: Vec<Option<String>>)
    requires
        is_reference_pattern(pattern@),
    ensures
        captured(capture_texts(r@)) == matches_in(pattern@, field@, group as nat),
        are_parts(matches_in(pattern@, field@, group as nat), field@),
{
    match outside::regex_captures(pattern, field, group) {
        Some(found) => {
            assert(capture_texts(found@) =~= found@.map_values(
                |m: Option<String>| outside::option_text(m),
            ));
            assert forall|s: Seq<char>| #[trigger]
                captured(capture_texts(found@)).contains(s) implies text::is_part_of(s, field@) by {
                let same = |c: Option<Seq<char>>| c;
                capture_texts(found@).lemma_filter_map_contains(same, s);
                let c = choose|c: Option<Seq<char>>|
                    capture_texts(found@).contains(c) && same(c) == Some(s);
                let k = choose|k: int|
                    0 <= k < capture_texts(found@).len() && capture_texts(found@)[k] == c;
                assert(found@[k] is Some);
            }
            found
        },
        None => {
            let none: Vec<Option<String>> = Vec::new();
            proof {
                reveal(Seq::filter_map);
                assert(capture_texts(none@) =~= Seq::empty());
                assert(captured(capture_texts(none@)) =~= Seq::empty());
            }
            none
        },
    }
}

proof fn lemma_filtered_parts(
    list: Seq<Seq<char>>,
    pred: spec_fn(Seq<char>) -> bool,
    field: Seq<char>,
)
    requires
        are_parts(list, field),
    ensures
        are_parts(list.filter(pred), field),
{
    assert forall|s: Seq<char>| #[trigger] list.filter(pred).contains(s) implies text::is_part_of(
        s,
        field,
    ) by {
        list.lemma_filter_contains_rev(pred, s);
    }
}

proof fn lemma_joined_parts(first: Seq<Seq<char>>, second: Seq<Seq<char>>, field: Seq<char>)
    requires
        are_parts(first, field),
        are_parts(second, field),
    ensures
        are_parts(first + second, field),
{
    assert forall|s: Seq<char>| #[trigger] (first + second).contains(s) implies text::is_part_of(
        s,
        field,
    ) by {
        let k = choose|k: int| 0 <= k < (first + second).len() && (first + second)[k] == s;
        if k < first.len() {
            assert(first[k] == s);
            assert(first.contains(s));
        } else {
            assert(second[k - first.len()] == s);
            assert(second.contains(s));
        }
    }
}

/// The files to which a field refers, each once. Each of them is a piece of the field.
#[must_use]
pub fn extract_media_references(field_content: &str) -> (r: Vec<String>)
    ensures
        text::texts(r@) == text::distinct_texts(references_in(field_content@)),
        are_parts(text::texts(r@), field_content@),
{
    let found = FoundReferences {
        sounds: find_group(SOUND_PATTERN, field_content, 1),
        images: find_group(IMG_PATTERN, field_content, 1),
        styles: find_group(CSS_PATTERN, field_content, 1),
        sources: find_group(SRC_PATTERN, field_content, 1),
        latex: find_group(LATEX_PATTERN, field_content, 0),
    };
    assert(references_found(found) =~= references_in(field_content@));
    proof {
        let local = |s: Seq<char>| is_local(s);
        let field = field_content@;
        let sounds = matches_in(SOUND_PATTERN@, field, 1);
        let images = matches_in(IMG_PATTERN@, field, 1);
        let styles = matches_in(CSS_PATTERN@, field, 1);
        let sources = matches_in(SRC_PATTERN@, field, 1);
        let latex = matches_in(LATEX_PATTERN@, field, 0);
        lemma_filtered_parts(images, local, field);
        lemma_filtered_parts(styles, local, field);
        lemma_filtered_parts(sources, local, field);
        lemma_joined_parts(sounds, images.filter(local), field);
        lemma_joined_parts(sounds + images.filter(local), styles.filter(local), field);
        lemma_joined_parts(
            sounds + images.filter(local) + styles.filter(local),
            sources.filter(local),
            field,
        );
        lemma_joined_parts(
            sounds + images.filter(local) + styles.filter(local) + sources.filter(local),
            latex,
            field,
        );
        let all = references_in(field);
        text::law_distinct_keeps_each_text_once(all);
        assert forall|s: Seq<char>| #[trigger] text::distinct_texts(all).contains(
            s,
        ) implies text::is_part_of(s, field) by {
            assert(text::distinct_texts(all).to_set().contains(s));
            assert(all.to_set().contains(s));
        }
    }
    gather_references(&found)
}

/// The files to which the first `n` fields refer, as often as they do.
pub open spec fn references_of(fields: Seq<String>, n: int) -> Seq<Seq<char>>
    decreases n,
{
    if n <= 0 {
        Seq::empty()
    } else {
        references_of(fields, n - 1) + text::distinct_texts(references_in(fields[n - 1]@))
    }
}

/// The files to which some fields refer.
fn references_of_fields(fields: &Vec<String>) -> (r: Vec<String>)
    ensures
        text::texts(r@) == references_of(fields@, fields@.len() as int),
{
    let mut all: Vec<String> = Vec::new();
    let mut i: usize = 0;
    assert(text::texts(all@) =~= Seq::empty());
    while i < fields.len()
        invariant
            i <= fields@.len(),
            text::texts(all@) == references_of(fields@, i as int),
        decreases fields@.len() - i,
    {
        let mut more = extract_media_references(fields[i].as_str());
        let ghost before = all@;
        let ghost added = more@;
        all.append(&mut more);
        assert(text::texts(all@) =~= text::texts(before) + text::texts(added));
        i += 1;
    }
    all
}

/// The texts of a list, each once, that are not in another list.
pub open spec fn distinct_not_in(list: Seq<Seq<char>>, other: Seq<Seq<char>>) -> Seq<Seq<char>> {
    text::distinct_texts(list).filter(|s: Seq<char>| !other.contains(s))
}

/// The texts of a list, each once, that are not in another list.
fn leave_out(list: &Vec<String>, other: &Vec<String>) -> (r: Vec<String>)
    ensures
        text::texts(r@) == distinct_not_in(text::texts(list@), text::texts(other@)),
{
    let once = text::distinct(list);
    let present = text::set_of(other);
    let ghost all = text::texts(once@);
    let ghost absent = |s: Seq<char>| !text::texts(other@).contains(s);
    let mut out: Vec<String> = Vec::new();
    let mut i: usize = 0;
    proof {
        reveal(Seq::filter);
        assert(all.take(0) =~= Seq::<Seq<char>>::empty());
        assert(text::texts(out@) =~= all.take(0).filter(absent));
    }
    while i < once.len()
        invariant
            i <= once@.len(),
            all == text::texts(once@),
            present@ == text::texts(other@).to_set(),
            absent == (|s: Seq<char>| !text::texts(other@).contains(s)),
            text::texts(out@) == all.take(i as int).filter(absent),
        decreases once@.len() - i,
    {
        let s = &once[i];
        proof {
            assert(all.take(i + 1) =~= all.take(i as int).push(s@));
            all.take(i as int).lemma_filter_push(s@, absent);
        }
        if !present.contains(s.as_str()) {
            let ghost before = text::texts(out@);
            out.push(s.clone());
            assert(text::texts(out@) =~= before.push(s@));
        }
        i += 1;
    }
    assert(all.take(all.len() as int) =~= all);
    out
}

/// How the recorded references of a note differ from those in its fields.
#[derive(Debug, PartialEq)]
pub struct ReferenceChanges {
    /// The files to which the fields refer, and of which nothing is recorded.
    pub to_add: Vec<String>,
    /// The files that are recorded, and to which no field refers.
    pub to_remove: Vec<String>,
}

/// How the recorded references of a note differ from those in its fields. Those that no field has
/// are removed; for those that are not recorded there is no file, and nothing can be done.
pub fn reference_changes(fields: &Vec<String>, existing: &Vec<String>) -> (r: ReferenceChanges)
    ensures
        text::texts(r.to_add@) == distinct_not_in(
            references_of(fields@, fields@.len() as int),
            text::texts(existing@),
        ),
        text::texts(r.to_remove@) == distinct_not_in(
            text::texts(existing@),
            references_of(fields@, fields@.len() as int),
        ),
{
    let all = references_of_fields(fields);
    ReferenceChanges { to_add: leave_out(&all, existing), to_remove: leave_out(existing, &all) }
}

/// The texts that are left when those of another list are left out.
proof fn lemma_left(list: Seq<Seq<char>>, other: Seq<Seq<char>>, x: Seq<char>)
    ensures
        distinct_not_in(list, other).contains(x) <==> list.contains(x) && !other.contains(x),
{
    let once = text::distinct_texts(list);
    let absent = |s: Seq<char>| !other.contains(s);
    text::law_distinct_keeps_each_text_once(list);
    assert(once.to_set().contains(x) <==> list.to_set().contains(x));
    if once.filter(absent).contains(x) {
        once.lemma_filter_contains_rev(absent, x);
        let k = choose|k: int| 0 <= k < once.filter(absent).len() && once.filter(absent)[k] == x;
        once.lemma_filter_pred(absent, k);
    }
    if once.contains(x) && absent(x) {
        let k = choose|k: int| 0 <= k < once.len() && once[k] == x;
        once.lemma_filter_contains(absent, k);
    }
}

/// When the references that no field has are gone, what is recorded of a note are files to which
/// its fields refer, and none that a field has is gone.
pub proof fn law_kept_references_are_used(
    fields: Seq<String>,
    existing: Seq<Seq<char>>,
    file: Seq<char>,
)
    requires
        existing.contains(file),
    ensures
        distinct_not_in(existing, references_of(fields, fields.len() as int)).contains(file)
            <==> !references_of(fields, fields.len() as int).contains(file),
{
    lemma_left(existing, references_of(fields, fields.len() as int), file);
}

/// The files to which the fields of a note refer, and of which nothing is recorded.
pub fn missing_in_note(fields: &Vec<String>, references: &Vec<String>) -> (r: Vec<String>)
    ensures
        text::texts(r@) == distinct_not_in(
            references_of(fields@, fields@.len() as int),
            text::texts(references@),
        ),
{
    leave_out(&references_of_fields(fields), references)
}

/// The files that the first `n` notes miss, as often as they do.
pub open spec fn missing_of(notes: Seq<Vec<String>>, n: int) -> Seq<Seq<char>>
    decreases n,
{
    if n <= 0 {
        Seq::empty()
    } else {
        missing_of(notes, n - 1) + text::texts(notes[n - 1]@)
    }
}

/// The files that the notes of a deck miss, each once, given those that each of them misses.
pub fn missing_media(notes: &Vec<Vec<String>>) -> (r: Vec<String>)
    ensures
        text::texts(r@) == text::distinct_texts(missing_of(notes@, notes@.len() as int)),
{
    let mut all: Vec<String> = Vec::new();
    let mut i: usize = 0;
    assert(text::texts(all@) =~= Seq::empty());
    while i < notes.len()
        invariant
            i <= notes@.len(),
            text::texts(all@) == missing_of(notes@, i as int),
        decreases notes@.len() - i,
    {
        let mut k: usize = 0;
        let ghost start = text::texts(all@);
        assert(text::texts(notes@[i as int]@).take(0) =~= Seq::<Seq<char>>::empty());
        assert(start + text::texts(notes@[i as int]@).take(0) =~= start);
        while k < notes[i].len()
            invariant
                i < notes@.len(),
                k <= notes@[i as int]@.len(),
                text::texts(all@) == start + text::texts(notes@[i as int]@).take(k as int),
            decreases notes@[i as int]@.len() - k,
        {
            let ghost before = text::texts(all@);
            all.push(notes[i][k].clone());
            assert(text::texts(all@) =~= before.push(notes@[i as int]@[k as int]@));
            assert(text::texts(all@) =~= start + text::texts(notes@[i as int]@).take(k + 1));
            k += 1;
        }
        assert(text::texts(notes@[i as int]@).take(notes@[i as int]@.len() as int)
            =~= text::texts(notes@[i as int]@));
        i += 1;
    }
    text::distinct(&all)
}

proof fn lemma_captured(found: Seq<Option<Seq<char>>>, s: Seq<char>)
    ensures
        captured(found).contains(s) <==> found.contains(Some(s)),
    decreases found.len(),
{
    let same = |c: Option<Seq<char>>| c;
    reveal(Seq::filter_map);
    if found.len() > 0 {
        let rest = found.drop_last();
        lemma_captured(rest, s);
        assert(found =~= rest.push(found.last()));
        vstd::seq_lib::lemma_seq_contains_after_push(rest, found.last(), Some(s));
        if let Some(t) = found.last() {
            assert(captured(found) =~= captured(rest).push(t));
            vstd::seq_lib::lemma_seq_contains_after_push(captured(rest), t, s);
        }
    }
}

proof fn lemma_local_only(list: Seq<Seq<char>>, s: Seq<char>)
    ensures
        list.filter(|t: Seq<char>| is_local(t)).contains(s) <==> list.contains(s) && is_local(s),
{
    let local = |t: Seq<char>| is_local(t);
    if list.filter(local).contains(s) {
        list.lemma_filter_contains_rev(local, s);
        let k = choose|k: int| 0 <= k < list.filter(local).len() && list.filter(local)[k] == s;
        list.lemma_filter_pred(local, k);
    }
    if list.contains(s) && is_local(s) {
        let k = choose|k: int| 0 <= k < list.len() && list[k] == s;
        list.lemma_filter_contains(local, k);
    }
}

/// A pattern finds a text in a field: a group of one of its matches holds it.
pub open spec fn finds(pattern: Seq<char>, field: Seq<char>, group: nat, s: Seq<char>) -> bool {
    outside::regex_groups(pattern, field, group) matches Some(found) && found.contains(Some(s))
}

/// A field refers to a file exactly where the pattern of sounds or that of LaTeX images finds it, or one
/// of the other three does and it is no address on the web and no file of its own.
pub proof fn law_what_a_field_refers_to(field: Seq<char>, s: Seq<char>)
    ensures
        text::distinct_texts(references_in(field)).contains(s) <==> {
            ||| finds(SOUND_PATTERN@, field, 1, s)
            ||| finds(LATEX_PATTERN@, field, 0, s)
            ||| (finds(IMG_PATTERN@, field, 1, s) || finds(CSS_PATTERN@, field, 1, s) || finds(
                SRC_PATTERN@,
                field,
                1,
                s,
            )) && !"http://"@.is_prefix_of(s) && !"https://"@.is_prefix_of(s)
                && !"data:"@.is_prefix_of(s)
        },
        references_in(field).contains(s) <==> text::distinct_texts(references_in(field)).contains(s),
{
    broadcast use vstd::seq_lib::lemma_seq_concat_contains_all_elements;

    let local = |t: Seq<char>| is_local(t);
    let sounds = matches_in(SOUND_PATTERN@, field, 1);
    let images = matches_in(IMG_PATTERN@, field, 1);
    let styles = matches_in(CSS_PATTERN@, field, 1);
    let sources = matches_in(SRC_PATTERN@, field, 1);
    let latex = matches_in(LATEX_PATTERN@, field, 0);
    lemma_finds(SOUND_PATTERN@, field, 1, s);
    lemma_finds(IMG_PATTERN@, field, 1, s);
    lemma_finds(CSS_PATTERN@, field, 1, s);
    lemma_finds(SRC_PATTERN@, field, 1, s);
    lemma_finds(LATEX_PATTERN@, field, 0, s);
    lemma_local_only(images, s);
    lemma_local_only(styles, s);
    lemma_local_only(sources, s);
    assert(references_in(field) == sounds + images.filter(local) + styles.filter(local)
        + sources.filter(local) + latex);
    text::law_distinct_keeps_each_text_once(references_in(field));
    assert(text::distinct_texts(references_in(field)).to_set().contains(s) <==> references_in(
        field,
    ).to_set().contains(s));
}

proof fn lemma_finds(pattern: Seq<char>, field: Seq<char>, group: nat, s: Seq<char>)
    ensures
        finds(pattern, field, group, s) <==> matches_in(pattern, field, group).contains(s),
{
    if let Some(found) = outside::regex_groups(pattern, field, group) {
        lemma_captured(found, s);
    }
}

/// The references that are gathered are exactly the captures of sounds and of LaTeX images, and those
/// local ones of the other three patterns.
pub proof fn law_what_is_gathered(found: FoundReferences, s: Seq<char>)
    ensures
        text::distinct_texts(references_found(found)).contains(s) <==> {
            ||| exists|i: int|
                0 <= i < found.sounds@.len() && ((#[trigger] found.sounds@[i]) matches Some(t)
                    && t@ == s)
            ||| exists|i: int|
                0 <= i < found.latex@.len() && ((#[trigger] found.latex@[i]) matches Some(t) && t@
                    == s)
            ||| ((exists|i: int|
                0 <= i < found.images@.len() && ((#[trigger] found.images@[i]) matches Some(t)
                    && t@ == s)) || (exists|i: int|
                0 <= i < found.styles@.len() && ((#[trigger] found.styles@[i]) matches Some(t)
                    && t@ == s)) || (exists|i: int|
                0 <= i < found.sources@.len() && ((#[trigger] found.sources@[i]) matches Some(t)
                    && t@ == s))) && !"http://"@.is_prefix_of(s) && !"https://"@.is_prefix_of(s)
                && !"data:"@.is_prefix_of(s)
        },
{
    broadcast use vstd::seq_lib::lemma_seq_concat_contains_all_elements;

    let local = |t: Seq<char>| is_local(t);
    lemma_held(found.sounds@, s);
    lemma_held(found.images@, s);
    lemma_held(found.styles@, s);
    lemma_held(found.sources@, s);
    lemma_held(found.latex@, s);
    lemma_local_only(captured(capture_texts(found.images@)), s);
    lemma_local_only(captured(capture_texts(found.styles@)), s);
    lemma_local_only(captured(capture_texts(found.sources@)), s);
    text::law_distinct_keeps_each_text_once(references_found(found));
    assert(text::distinct_texts(references_found(found)).to_set().contains(s)
        <==> references_found(found).to_set().contains(s));
}

proof fn lemma_held(list: Seq<Option<String>>, s: Seq<char>)
    ensures
        captured(capture_texts(list)).contains(s) <==> exists|i: int|
            0 <= i < list.len() && ((#[trigger] list[i]) matches Some(t) && t@ == s),
{
    let held = capture_texts(list);
    lemma_captured(held, s);
    if held.contains(Some(s)) {
        let i = choose|i: int| 0 <= i < held.len() && held[i] == Some(s);
        assert(held[i] == outside::option_text(list[i]));
        assert(list[i] matches Some(t) && t@ == s);
    }
    if exists|i: int| 0 <= i < list.len() && ((#[trigger] list[i]) matches Some(t) && t@ == s) {
        let i = choose|i: int|
            0 <= i < list.len() && ((#[trigger] list[i]) matches Some(t) && t@ == s);
        assert(held[i] == Some(s));
    }
}

proof fn lemma_references_of(fields: Seq<String>, n: int, s: Seq<char>)
    requires
        0 <= n <= fields.len(),
    ensures
        references_of(fields, n).contains(s) <==> exists|i: int|
            0 <= i < n && references_in((#[trigger] fields[i])@).contains(s),
    decreases n,
{
    if n > 0 {
        lemma_references_of(fields, n - 1, s);
        let here = text::distinct_texts(references_in(fields[n - 1]@));
        law_what_a_field_refers_to(fields[n - 1]@, s);
        vstd::seq_lib::lemma_seq_concat_contains_all_elements(
            references_of(fields, n - 1),
            here,
            s,
        );
        if exists|i: int| 0 <= i < n && references_in((#[trigger] fields[i])@).contains(s) {
            let i = choose|i: int|
                0 <= i < n && references_in((#[trigger] fields[i])@).contains(s);
            assert(i < n - 1 || i == n - 1);
        }
    }
}

/// A file is among the references of a note exactly where one of its fields refers to it, whichever one
/// that is.
pub proof fn law_every_field_is_looked_at(fields: Seq<String>, s: Seq<char>)
    ensures
        references_of(fields, fields.len() as int).contains(s) <==> exists|i: int|
            0 <= i < fields.len() && references_in((#[trigger] fields[i])@).contains(s),
{
    lemma_references_of(fields, fields.len() as int, s);
}

/// A recorded reference is removed exactly where no field refers to the file, and a file is missing
/// exactly where a field refers to it and nothing is recorded of it. Neither is named twice.
pub proof fn law_references_are_kept_in_step(
    fields: Seq<String>,
    existing: Seq<Seq<char>>,
    s: Seq<char>,
)
    ensures
        ({
            let all = references_of(fields, fields.len() as int);
            let used = exists|i: int|
                0 <= i < fields.len() && references_in((#[trigger] fields[i])@).contains(s);
            &&& distinct_not_in(existing, all).contains(s) <==> existing.contains(s) && !used
            &&& distinct_not_in(all, existing).contains(s) <==> used && !existing.contains(s)
            &&& distinct_not_in(existing, all).no_duplicates()
            &&& distinct_not_in(all, existing).no_duplicates()
        }),
{
    let all = references_of(fields, fields.len() as int);
    law_every_field_is_looked_at(fields, s);
    lemma_left(existing, all, s);
    lemma_left(all, existing, s);
    lemma_left_once(existing, all);
    lemma_left_once(all, existing);
}

proof fn lemma_left_once(list: Seq<Seq<char>>, other: Seq<Seq<char>>)
    ensures
        distinct_not_in(list, other).no_duplicates(),
{
    text::law_distinct_keeps_each_text_once(list);
    lemma_filter_once(text::distinct_texts(list), |s: Seq<char>| !other.contains(s));
}

proof fn lemma_filter_once(list: Seq<Seq<char>>, pred: spec_fn(Seq<char>) -> bool)
    requires
        list.no_duplicates(),
    ensures
        list.filter(pred).no_duplicates(),
    decreases list.len(),
{
    reveal(Seq::filter);
    if list.len() > 0 {
        let rest = list.drop_last();
        assert(rest.no_duplicates());
        lemma_filter_once(rest, pred);
        let kept = rest.filter(pred);
        if pred(list.last()) {
            assert(list.filter(pred) == kept.push(list.last()));
            assert(!kept.contains(list.last())) by {
                if kept.contains(list.last()) {
                    rest.lemma_filter_contains_rev(pred, list.last());
                    let i = choose|i: int| 0 <= i < rest.len() && rest[i] == list.last();
                    assert(list[i] == list[list.len() - 1]);
                }
            }
            assert(kept.push(list.last()).no_duplicates());
        }
    }
}

/// A deck misses a file exactly where one of its notes does, and names it once.
pub proof fn law_every_note_is_looked_at(notes: Seq<Vec<String>>, s: Seq<char>)
    ensures
        text::distinct_texts(missing_of(notes, notes.len() as int)).contains(s) <==> exists|
            i: int,
            k: int,
        |
            0 <= i < notes.len() && 0 <= k < notes[i]@.len() && (#[trigger] notes[i]@[k])@ == s,
        text::distinct_texts(missing_of(notes, notes.len() as int)).no_duplicates(),
{
    let all = missing_of(notes, notes.len() as int);
    lemma_missing_of(notes, notes.len() as int, s);
    text::law_distinct_keeps_each_text_once(all);
    assert(text::distinct_texts(all).to_set().contains(s) <==> all.to_set().contains(s));
}

proof fn lemma_missing_of(notes: Seq<Vec<String>>, n: int, s: Seq<char>)
    requires
        0 <= n <= notes.len(),
    ensures
        missing_of(notes, n).contains(s) <==> exists|i: int, k: int|
            0 <= i < n && 0 <= k < notes[i]@.len() && (#[trigger] notes[i]@[k])@ == s,
    decreases n,
{
    if n > 0 {
        lemma_missing_of(notes, n - 1, s);
        let here = text::texts(notes[n - 1]@);
        vstd::seq_lib::lemma_seq_concat_contains_all_elements(missing_of(notes, n - 1), here, s);
        if here.contains(s) {
            let k = choose|k: int| 0 <= k < here.len() && here[k] == s;
            assert(notes[n - 1]@[k]@ == s);
        }
        if exists|i: int, k: int|
            0 <= i < n && 0 <= k < notes[i]@.len() && (#[trigger] notes[i]@[k])@ == s {
            let (i, k) = choose|i: int, k: int|
                0 <= i < n && 0 <= k < notes[i]@.len() && (#[trigger] notes[i]@[k])@ == s;
            if i == n - 1 {
                assert(here[k] == s);
            }
        }
    }
}

/// The files to which the fields refer stand in the order of the fields: those of the first ones, each
/// one that the field behind them refers to once, and those of the rest.
pub proof fn law_references_stand_in_order(fields: Seq<String>, n: int, i: int)
    requires
        0 <= i < n <= fields.len(),
    ensures
        references_of(fields, n) == references_of(fields, i) + text::distinct_texts(
            references_in(fields[i]@),
        ) + references_of(fields.skip(i + 1), n - i - 1),
        references_of(fields, 0).len() == 0,
    decreases n,
{
    let behind = references_of(fields.skip(i + 1), n - i - 1);
    let here = text::distinct_texts(references_in(fields[i]@));
    if i == n - 1 {
        assert(behind =~= Seq::empty());
    } else {
        law_references_stand_in_order(fields, n - 1, i);
        assert(fields.skip(i + 1)[n - i - 2] == fields[n - 1]);
    }
    assert(references_of(fields, n) =~= references_of(fields, i) + here + behind);
}

/// The files that the notes miss stand in the order of the notes: those of the first ones, those of the
/// note behind them, and those of the rest.
pub proof fn law_missing_files_stand_in_order(notes: Seq<Vec<String>>, n: int, i: int)
    requires
        0 <= i < n <= notes.len(),
    ensures
        missing_of(notes, n) == missing_of(notes, i) + text::texts(notes[i]@) + missing_of(
            notes.skip(i + 1),
            n - i - 1,
        ),
        missing_of(notes, 0).len() == 0,
    decreases n,
{
    let behind = missing_of(notes.skip(i + 1), n - i - 1);
    let here = text::texts(notes[i]@);
    if i == n - 1 {
        assert(behind =~= Seq::empty());
    } else {
        law_missing_files_stand_in_order(notes, n - 1, i);
        assert(notes.skip(i + 1)[n - i - 2] == notes[n - 1]);
    }
    assert(missing_of(notes, n) =~= missing_of(notes, i) + here + behind);
}

/// What the patterns are made of. A source stands in quotes of either kind, which the files of a style
/// sheet may do without, and its name may hold none of them; a sound ends at the first bracket that
/// closes; and an image made of LaTeX has a name of one word.
pub proof fn law_sources_stand_in_quotes_of_either_kind()
    ensures
        ({
            let quote = "[\"']"@;
            &&& SOUND_PATTERN@ == "\\[sound:"@ + "(.*?)"@ + "\\]"@
            &&& IMG_PATTERN@ == "<img[^>]*src="@ + quote + "([^\"']*)"@ + quote + "[^>]*>"@
            &&& CSS_PATTERN@ == "url\\("@ + quote + "?"@ + "([^\"')]+)"@ + quote + "?"@ + "\\)"@
            &&& SRC_PATTERN@ == "(?i)"@ + "(?:src|xlink:href)="@ + quote + "([^\"']+)"@ + quote
            &&& LATEX_PATTERN@ == "latex-image-"@ + "\\w+"@ + "\\.png"@
        }),
{
    reveal_strlit("[\"']");
    reveal_strlit("?");
    reveal_strlit(r"\[sound:(.*?)\]");
    reveal_strlit("\\[sound:");
    reveal_strlit("(.*?)");
    reveal_strlit("\\]");
    reveal_strlit(r#"<img[^>]*src=["']([^"']*)["'][^>]*>"#);
    reveal_strlit("<img[^>]*src=");
    reveal_strlit("([^\"']*)");
    reveal_strlit("[^>]*>");
    reveal_strlit(r#"url\(["']?([^"')]+)["']?\)"#);
    reveal_strlit("url\\(");
    reveal_strlit("([^\"')]+)");
    reveal_strlit("\\)");
    reveal_strlit(r#"(?i)(?:src|xlink:href)=["']([^"']+)["']"#);
    reveal_strlit("(?i)");
    reveal_strlit("(?:src|xlink:href)=");
    reveal_strlit("([^\"']+)");
    reveal_strlit(r"latex-image-\w+\.png");
    reveal_strlit("latex-image-");
    reveal_strlit("\\w+");
    reveal_strlit("\\.png");
    let quote = "[\"']"@;
    assert(SOUND_PATTERN@ =~= "\\[sound:"@ + "(.*?)"@ + "\\]"@);
    assert(IMG_PATTERN@ =~= "<img[^>]*src="@ + quote + "([^\"']*)"@ + quote + "[^>]*>"@);
    assert(CSS_PATTERN@ =~= "url\\("@ + quote + "?"@ + "([^\"')]+)"@ + quote + "?"@ + "\\)"@);
    assert(SRC_PATTERN@ =~= "(?i)"@ + "(?:src|xlink:href)="@ + quote + "([^\"']+)"@ + quote);
    assert(LATEX_PATTERN@ =~= "latex-image-"@ + "\\w+"@ + "\\.png"@);
}

} // verus!
