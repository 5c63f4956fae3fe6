//! The order in which a deck and its subdecks are stored, or suggested.
use vstd::prelude::*;

use crate::structs::AnkiDeck;

verus! {

/// How many decks a deck is made of, itself among them.
pub open spec fn deck_count(deck: AnkiDeck) -> nat
    decreases deck,
{
    1 + deck_counts(deck.children@)
}

/// How many decks some decks are made of.
pub open spec fn deck_counts(decks: Seq<AnkiDeck>) -> nat
    decreases decks,
{
    if decks.len() == 0 {
        0
    } else {
        deck_count(decks[0]) + deck_counts(decks.skip(1))
    }
}

/// A deck in the list of all decks: the place of the deck above it, where what is below it ends,
/// and its path.
pub struct Outlined {
    pub deck: AnkiDeck,
    pub above: Option<int>,
    pub end: int,
    pub path: Seq<char>,
}

/// The path of a subdeck.
pub open spec fn subdeck_path(path: Seq<char>, name: Seq<char>) -> Seq<char> {
    path + "::"@ + name
}

/// The list of a deck and all decks below it, which begins at place `at`. Each deck stands before
/// those below it.
pub open spec fn outline_of(
    deck: AnkiDeck,
    at: int,
    above: Option<int>,
    path: Seq<char>,
) -> Seq<Outlined>
    decreases deck,
{
    seq![Outlined { deck, above, end: at + deck_count(deck), path }] + outlines_of(
        deck.children@,
        at + 1,
        at,
        path,
    )
}

/// The lists of some subdecks of the deck at place `above`, one behind the other.
pub open spec fn outlines_of(
    decks: Seq<AnkiDeck>,
    at: int,
    above: int,
    path: Seq<char>,
) -> Seq<Outlined>
    decreases decks,
{
    if decks.len() == 0 {
        Seq::empty()
    } else {
        outline_of(decks[0], at, Some(above), subdeck_path(path, decks[0].name@)) + outlines_of(
            decks.skip(1),
            at + deck_count(decks[0]),
            above,
            path,
        )
    }
}

/// A list is as long as there are decks.
pub proof fn lemma_outline_len(deck: AnkiDeck, at: int, above: Option<int>, path: Seq<char>)
    ensures
        outline_of(deck, at, above, path).len() == deck_count(deck),
    decreases deck,
{
    lemma_outlines_len(deck.children@, at + 1, at, path);
}

proof fn lemma_outlines_len(decks: Seq<AnkiDeck>, at: int, above: int, path: Seq<char>)
    ensures
        outlines_of(decks, at, above, path).len() == deck_counts(decks),
    decreases decks,
{
    if decks.len() > 0 {
        lemma_outline_len(decks[0], at, Some(above), subdeck_path(path, decks[0].name@));
        lemma_outlines_len(decks.skip(1), at + deck_count(decks[0]), above, path);
    }
}

/// The entry number `i` of a list that begins at place `at` and ends at `end` stands behind the
/// deck above it, and what is below it ends behind it, and no later than what is below that deck.
pub open spec fn is_nested(list: Seq<Outlined>, at: int, end: int, i: int) -> bool {
    &&& at + i < list[i].end <= end
    &&& list[i].above matches Some(a) ==> (a < at + i && (a >= at ==> list[i].end <= list[a
        - at].end))
}

/// Every deck of a list stands behind the one above it, and what is below it ends behind it and
/// with what is below that one.
pub proof fn law_decks_stand_before_those_below_them(
    deck: AnkiDeck,
    at: int,
    above: Option<int>,
    path: Seq<char>,
)
    requires
        0 <= at,
        above matches Some(a) ==> 0 <= a < at,
    ensures
        forall|i: int|
            0 <= i < deck_count(deck) ==> #[trigger] is_nested(
                outline_of(deck, at, above, path),
                at,
                at + deck_count(deck),
                i,
            ),
        outline_of(deck, at, above, path)[0].above == above,
        forall|i: int|
            0 < i < deck_count(deck) ==> ((#[trigger] outline_of(
                deck,
                at,
                above,
                path,
            )[i]).above matches Some(a) && at <= a),
    decreases deck,
{
    lemma_outline_len(deck, at, above, path);
    lemma_outlines_order(deck.children@, at + 1, at, path);
    lemma_outlines_len(deck.children@, at + 1, at, path);
    let below = outlines_of(deck.children@, at + 1, at, path);
    let all = outline_of(deck, at, above, path);
    let end = at + deck_count(deck);
    assert forall|i: int| 0 <= i < deck_count(deck) implies #[trigger] is_nested(
        all,
        at,
        end,
        i,
    ) by {
        if i > 0 {
            assert(all[i] == below[i - 1]);
            assert(is_nested(below, at + 1, at + 1 + deck_counts(deck.children@), i - 1));
            let a = below[i - 1].above->0;
            if a > at {
                assert(all[a - at] == below[a - at - 1]);
            }
        }
    }
    assert forall|i: int| 0 < i < deck_count(deck) implies ((#[trigger] all[i]).above matches Some(a)
        && at <= a) by {
        assert(all[i] == below[i - 1]);
    }
}

proof fn lemma_outlines_order(decks: Seq<AnkiDeck>, at: int, above: int, path: Seq<char>)
    requires
        0 <= above < at,
    ensures
        forall|i: int|
            0 <= i < deck_counts(decks) ==> #[trigger] is_nested(
                outlines_of(decks, at, above, path),
                at,
                at + deck_counts(decks),
                i,
            ),
        forall|i: int|
            0 <= i < deck_counts(decks) ==> ((#[trigger] outlines_of(
                decks,
                at,
                above,
                path,
            )[i]).above matches Some(a) && (a == above || at <= a)),
    decreases decks,
{
    if decks.len() > 0 {
        let inner = subdeck_path(path, decks[0].name@);
        let first = outline_of(decks[0], at, Some(above), inner);
        let count = deck_count(decks[0]) as int;
        let rest = outlines_of(decks.skip(1), at + count, above, path);
        law_decks_stand_before_those_below_them(decks[0], at, Some(above), inner);
        lemma_outline_len(decks[0], at, Some(above), inner);
        lemma_outlines_order(decks.skip(1), at + count, above, path);
        lemma_outlines_len(decks.skip(1), at + count, above, path);
        let all = outlines_of(decks, at, above, path);
        let end = at + deck_counts(decks);
        assert forall|i: int| 0 <= i < deck_counts(decks) implies (#[trigger] is_nested(
            all,
            at,
            end,
            i,
        )) && (all[i].above matches Some(a) && (a == above || at <= a)) by {
            if i < count {
                assert(all[i] == first[i]);
                assert(is_nested(first, at, at + count, i));
                assert(i > 0 ==> first[i].above is Some);
                let a = first[i].above->0;
                if a >= at {
                    assert(all[a - at] == first[a - at]);
                }
            } else {
                let k = i - count;
                assert(all[i] == rest[k]);
                assert(is_nested(rest, at + count, at + count + deck_counts(decks.skip(1)), k));
                let a = rest[k].above->0;
                if a >= at {
                    assert(all[a - at] == rest[a - at - count]);
                }
            }
        }
        assert forall|i: int| 0 <= i < deck_counts(decks) implies ((#[trigger] all[i]).above matches Some(a)
            && (a == above || at <= a)) by {
            assert(is_nested(all, at, end, i));
        }
    }
}

/// Of two decks of a list, the one that stands behind the other lies wholly within what is below that
/// one, or wholly behind it.
pub proof fn law_decks_lie_within_each_other(
    deck: AnkiDeck,
    at: int,
    above: Option<int>,
    path: Seq<char>,
)
    requires
        0 <= at,
        above matches Some(a) ==> 0 <= a < at,
    ensures
        forall|i: int, j: int| #![trigger outline_of(deck, at, above, path)[i], outline_of(
            deck,
            at,
            above,
            path,
        )[j]]
            0 <= i <= j < deck_count(deck) && at + j < outline_of(deck, at, above, path)[i].end
                ==> outline_of(deck, at, above, path)[j].end <= outline_of(
                deck,
                at,
                above,
                path,
            )[i].end,
    decreases deck,
{
    let all = outline_of(deck, at, above, path);
    let below = outlines_of(deck.children@, at + 1, at, path);
    law_decks_stand_before_those_below_them(deck, at, above, path);
    lemma_outlines_nest(deck.children@, at + 1, at, path);
    lemma_outlines_len(deck.children@, at + 1, at, path);
    assert forall|i: int, j: int| #![trigger all[i], all[j]]
        0 <= i <= j < deck_count(deck) && at + j < all[i].end implies all[j].end <= all[i].end by {
        assert(is_nested(all, at, at + deck_count(deck), j));
        if i > 0 {
            assert(all[i] == below[i - 1]);
            assert(all[j] == below[j - 1]);
        }
    }
}

proof fn lemma_outlines_nest(decks: Seq<AnkiDeck>, at: int, above: int, path: Seq<char>)
    requires
        0 <= above < at,
    ensures
        forall|i: int, j: int| #![trigger outlines_of(decks, at, above, path)[i], outlines_of(
            decks,
            at,
            above,
            path,
        )[j]]
            0 <= i <= j < deck_counts(decks) && at + j < outlines_of(decks, at, above, path)[i].end
                ==> outlines_of(decks, at, above, path)[j].end <= outlines_of(
                decks,
                at,
                above,
                path,
            )[i].end,
    decreases decks,
{
    if decks.len() > 0 {
        let inner = subdeck_path(path, decks[0].name@);
        let first = outline_of(decks[0], at, Some(above), inner);
        let count = deck_count(decks[0]) as int;
        let rest = outlines_of(decks.skip(1), at + count, above, path);
        let all = outlines_of(decks, at, above, path);
        law_decks_stand_before_those_below_them(decks[0], at, Some(above), inner);
        law_decks_lie_within_each_other(decks[0], at, Some(above), inner);
        lemma_outline_len(decks[0], at, Some(above), inner);
        lemma_outlines_nest(decks.skip(1), at + count, above, path);
        lemma_outlines_len(decks.skip(1), at + count, above, path);
        assert forall|i: int, j: int| #![trigger all[i], all[j]]
            0 <= i <= j < deck_counts(decks) && at + j < all[i].end implies all[j].end
            <= all[i].end by {
            if i < count {
                assert(all[i] == first[i]);
                assert(is_nested(first, at, at + count, i));
                assert(all[j] == first[j]);
            } else {
                assert(all[i] == rest[i - count]);
                assert(all[j] == rest[j - count]);
            }
        }
    }
}

/// A deck in the list of all decks.
pub struct OutlineEntry<'a> {
    pub deck: &'a AnkiDeck,
    pub above: Option<usize>,
    pub end: usize,
    pub path: String,
}

/// What an entry stands for.
pub open spec fn outlined(entry: OutlineEntry) -> Outlined {
    Outlined {
        deck: *entry.deck,
        above: match entry.above {
            Some(a) => Some(a as int),
            None => None,
        },
        end: entry.end as int,
        path: entry.path@,
    }
}

/// What the entries stand for.
pub open spec fn outline_view(list: Seq<OutlineEntry>) -> Seq<Outlined> {
    list.map_values(|e: OutlineEntry| outlined(e))
}

/// The list is that of a deck and those below it: each entry stands behind the one above it, and
/// what is below it ends with what is below that one.
#[verifier::opaque]
pub open spec fn is_outline(list: Seq<OutlineEntry>) -> bool {
    &&& forall|i: int| 0 <= i < list.len() ==> i < (#[trigger] list[i]).end <= list.len()
    &&& forall|i: int|
        0 <= i < list.len() ==> ((#[trigger] list[i]).above matches Some(a) ==> a < i
            && list[i].end <= list[a as int].end)
    &&& forall|i: int, j: int| #![trigger list[i], list[j]]
        0 <= i <= j < list.len() && j < list[i].end ==> list[j].end <= list[i].end
}

/// The list of a deck and those below it is one.
proof fn lemma_is_outline(deck: AnkiDeck, path: Seq<char>, list: Seq<OutlineEntry>)
    requires
        outline_view(list) == outline_of(deck, 0, None, path),
    ensures
        is_outline(list),
        list.len() > 0,
        list[0].above is None,
{
    let all = outline_of(deck, 0, None, path);
    law_decks_stand_before_those_below_them(deck, 0, None, path);
    law_decks_lie_within_each_other(deck, 0, None, path);
    lemma_outline_len(deck, 0, None, path);
    assert(list.len() == all.len());
    assert forall|i: int| 0 <= i < list.len() implies #[trigger] list[i].end == all[i].end && (
    match list[i].above {
        Some(a) => all[i].above == Some(a as int),
        None => all[i].above is None,
    }) by {
        assert(all[i] == outlined(list[i]));
    }
    assert forall|i: int| 0 <= i < list.len() implies i < (#[trigger] list[i]).end <= list.len()
        && (list[i].above matches Some(a) ==> a < i && list[i].end <= list[a as int].end) by {
        assert(is_nested(all, 0, deck_count(deck) as int, i));
    }
    assert forall|i: int, j: int| #![trigger list[i], list[j]]
        0 <= i <= j < list.len() && j < list[i].end implies list[j].end <= list[i].end by {
        assert(all[i].end == list[i].end);
        assert(all[j].end == list[j].end);
    }
    reveal(is_outline);
}

/// What holds of an entry of such a list.
proof fn lemma_entry(list: Seq<OutlineEntry>, i: int)
    requires
        is_outline(list),
        0 <= i < list.len(),
    ensures
        i < list[i].end <= list.len(),
        list[i].above matches Some(a) ==> a < i && list[i].end <= list[a as int].end,
{
    reveal(is_outline);
}

/// An entry to which more belongs than to one that stands at the same place or before it stands
/// before that one.
proof fn lemma_wider_entry(list: Seq<OutlineEntry>, i: int, j: int)
    requires
        is_outline(list),
        0 <= i < list.len(),
        0 <= j < list[i].end < list[j].end,
    ensures
        j < i,
{
    reveal(is_outline);
}

/// Appends a deck and all decks below it to a list.
fn append_outline<'a>(
    list: &mut Vec<OutlineEntry<'a>>,
    deck: &'a AnkiDeck,
    above: Option<usize>,
    path: String,
)
    ensures
        outline_view(final(list)@) == outline_view(old(list)@) + outline_of(
            *deck,
            old(list)@.len() as int,
            match above {
                Some(a) => Some(a as int),
                None => None,
            },
            path@,
        ),
    decreases deck,
{
    let at = list.len();
    let ghost before = outline_view(list@);
    let ghost over = match above {
        Some(a) => Some(a as int),
        None => None,
    };
    let ghost children = deck.children@;
    let inner_path = path.clone();
    list.push(OutlineEntry { deck, above, end: at, path });
    let ghost head = Outlined { deck: *deck, above: over, end: at as int, path: path@ };
    assert(outline_view(list@) =~= before.push(head));
    let mut i: usize = 0;
    proof {
        assert(children.skip(0) =~= children);
        assert(before.push(head) + outlines_of(children, at + 1, at as int, path@) =~= before.push(
            head,
        ) + outlines_of(children.skip(0), list@.len() as int, at as int, path@));
    }
    while i < deck.children.len()
        invariant
            i <= deck.children@.len(),
            children == deck.children@,
            inner_path@ == path@,
            at < list@.len(),
            at == before.len(),
            head.end == at,
            outline_view(list@)[at as int] == head,
            outline_view(list@) + outlines_of(
                children.skip(i as int),
                list@.len() as int,
                at as int,
                path@,
            ) == before.push(head) + outlines_of(children, at + 1, at as int, path@),
        decreases deck.children@.len() - i,
    {
        let child = &deck.children[i];
        let mut child_path = inner_path.clone();
        child_path.append("::");
        child_path.append(child.name.as_str());
        let ghost length = list@.len() as int;
        let ghost so_far = outline_view(list@);
        let ghost rest = children.skip(i as int);
        proof {
            assert(child_path@ =~= subdeck_path(path@, child.name@));
            assert(rest[0] == *child);
            assert(rest.skip(1) =~= children.skip(i + 1));
            lemma_outline_len(*child, length, Some(at as int), child_path@);
            assert(decreases_to!(deck => deck.children@[i as int]));
        }
        append_outline(list, child, Some(at), child_path);
        proof {
            let mine = outline_of(*child, length, Some(at as int), child_path@);
            assert(outline_view(list@) == so_far + mine);
            assert(list@.len() == length + mine.len());
            assert(so_far + (mine + outlines_of(
                children.skip(i + 1),
                list@.len() as int,
                at as int,
                path@,
            )) =~= so_far + mine + outlines_of(
                children.skip(i + 1),
                list@.len() as int,
                at as int,
                path@,
            ));
        }
        i += 1;
    }
    let end = list.len();
    proof {
        lemma_outline_len(*deck, at as int, over, path@);
        assert(children.skip(children.len() as int) =~= Seq::<AnkiDeck>::empty());
        assert(outline_view(list@) =~= before.push(head) + outlines_of(
            children,
            at + 1,
            at as int,
            path@,
        ));
        assert(list@.len() == at + deck_count(*deck)) by {
            lemma_outlines_len(children, at + 1, at as int, path@);
        }
    }
    let ghost whole = list@;
    let entry = OutlineEntry { deck, above, end, path: inner_path };
    list.set(at, entry);
    proof {
        let finished = Outlined { end: end as int, ..head };
        assert(outline_view(list@) =~= outline_view(whole).update(at as int, finished));
        assert(outline_view(list@) =~= before + outline_of(*deck, at as int, over, path@));
    }
}

/// The list of a deck and all decks below it, each before those below it.
pub fn outline<'a>(deck: &'a AnkiDeck, path: &str) -> (r: Vec<OutlineEntry<'a>>)
    ensures
        outline_view(r@) == outline_of(*deck, 0, None, path@),
        r@.len() == deck_count(*deck),
{
    let mut list: Vec<OutlineEntry<'a>> = Vec::new();
    assert(outline_view(list@) =~= Seq::empty());
    append_outline(&mut list, deck, None, path.to_owned());
    assert(outline_view(list@) =~= outline_of(*deck, 0, None, path@));
    proof {
        lemma_outline_len(*deck, 0, None, path@);
        assert(outline_view(list@).len() == list@.len());
    }
    list
}

/// What is awaited of the deck at which an import stands.
#[derive(Clone, Copy, Debug, PartialEq, Eq, Structural)]
pub enum ImportStage {
    /// Whether there is a deck of its path, or at least the deck above it.
    Check,
    /// Whether subdecks may be added to the deck of the number `target`.
    Restriction { target: i64 },
    /// That it is stored below the deck of the number `parent`. `first` says that the deck above
    /// it is not new.
    Create { parent: Option<i64>, first: bool },
    /// That its notes are stored, or suggested, for the deck of the number `id`. `fresh` says that
    /// the deck is new.
    Fill { id: i64, fresh: bool },
    /// Nothing: all decks have been seen to.
    Finished,
}

/// What is to be done next in an import.
#[derive(Debug, PartialEq)]
pub enum ImportStep<'a> {
    /// It is to be found out whether there is a deck of this path.
    Check { path: String },
    /// It is to be found out whether subdecks may be added.
    AskRestriction,
    /// The deck is to be stored for an owner.
    Create { deck: &'a AnkiDeck, parent: Option<i64>, owner: i32 },
    /// The notes of the deck are to be stored, or suggested.
    Fill { deck: &'a AnkiDeck, deck_id: i64 },
    /// Nothing is left to do.
    Finished,
}

/// The import of a deck with its subdecks: of a new deck, or of suggestions for one that there is.
pub struct DeckImport<'a> {
    pub entries: Vec<OutlineEntry<'a>>,
    /// The numbers of the decks whose notes have been stored, or suggested.
    pub ids: Vec<Option<i64>>,
    /// Which of these decks are new.
    pub fresh: Vec<bool>,
    pub is_new: bool,
    pub owner: i32,
    pub at: usize,
    pub stage: ImportStage,
}

impl<'a> DeckImport<'a> {
    /// What is awaited first of the deck at a place: a deck below a new one is new itself.
    pub open spec fn first_stage(self, at: int) -> ImportStage {
        if at >= self.entries@.len() {
            ImportStage::Finished
        } else {
            match self.entries@[at].above {
                None => if self.is_new {
                    ImportStage::Create { parent: None, first: true }
                } else {
                    ImportStage::Check
                },
                Some(a) => if self.fresh@[a as int] {
                    ImportStage::Create { parent: self.ids@[a as int], first: false }
                } else {
                    ImportStage::Check
                },
            }
        }
    }

    /// The list is that of a deck and those below it, and the import stands within it. The numbers
    /// of all decks above the one at which it stands are known.
    pub open spec fn wf(self) -> bool {
        &&& self.ids@.len() == self.entries@.len()
        &&& self.fresh@.len() == self.entries@.len()
        &&& self.at <= self.entries@.len()
        &&& is_outline(self.entries@)
        &&& forall|i: int|
            0 <= i < self.at < (#[trigger] self.entries@[i]).end ==> self.ids@[i] is Some
        &&& self.stage == ImportStage::Finished <==> self.at == self.entries@.len()
        &&& self.stage matches ImportStage::Create { parent: _, first } ==> (!first
            ==> self.entries@[self.at as int].above is Some)
    }

    /// The same decks are imported.
    pub open spec fn same_decks(self, other: DeckImport<'a>) -> bool {
        &&& self.entries@ == other.entries@
        &&& self.is_new == other.is_new
    }

    /// Nothing has changed but for what is awaited.
    pub open spec fn only_stage(self, other: DeckImport<'a>, stage: ImportStage) -> bool {
        &&& self.same_decks(other)
        &&& self.ids@ == other.ids@
        &&& self.fresh@ == other.fresh@
        &&& self.owner == other.owner
        &&& self.at == other.at
        &&& self.stage == stage
    }

    /// The import has gone on to the deck at a place; nothing else has changed.
    pub open spec fn moved_to(self, other: DeckImport<'a>, at: int) -> bool {
        &&& self.same_decks(other)
        &&& self.ids@ == other.ids@
        &&& self.fresh@ == other.fresh@
        &&& self.owner == other.owner
        &&& self.at == at
        &&& self.stage == self.first_stage(at)
    }

    /// The import of a new deck for an owner.
    pub fn new_deck(deck: &'a AnkiDeck, owner: i32) -> (r: Self)
        ensures
            r.wf(),
            outline_view(r.entries@) == outline_of(*deck, 0, None, deck.name@),
            r.is_new,
            r.owner == owner,
            r.at == 0,
            forall|i: int| 0 <= i < r.ids@.len() ==> (#[trigger] r.ids@[i]) is None,
            r.stage == (ImportStage::Create { parent: None, first: true }),
    {
        Self::begin(deck, deck.name.as_str(), true, owner)
    }

    /// The import of suggestions for the deck of a path.
    pub fn suggestion(deck: &'a AnkiDeck, path: &str) -> (r: Self)
        ensures
            r.wf(),
            outline_view(r.entries@) == outline_of(*deck, 0, None, path@),
            !r.is_new,
            r.owner == 0,
            r.at == 0,
            forall|i: int| 0 <= i < r.ids@.len() ==> (#[trigger] r.ids@[i]) is None,
            r.stage == ImportStage::Check,
    {
        Self::begin(deck, path, false, 0)
    }

    fn begin(deck: &'a AnkiDeck, path: &str, is_new: bool, owner: i32) -> (r: Self)
        ensures
            r.wf(),
            outline_view(r.entries@) == outline_of(*deck, 0, None, path@),
            r.is_new == is_new,
            r.owner == owner,
            r.at == 0,
            forall|i: int| 0 <= i < r.ids@.len() ==> (#[trigger] r.ids@[i]) is None,
            r.stage == r.first_stage(0),
            r.entries@[0].above is None,
            r.entries@.len() > 0,
    {
        let entries = outline(deck, path);
        let total = entries.len();
        let mut ids: Vec<Option<i64>> = Vec::new();
        let mut fresh: Vec<bool> = Vec::new();
        let mut i: usize = 0;
        while i < total
            invariant
                i <= total,
                ids@.len() == i,
                fresh@.len() == i,
                forall|k: int| 0 <= k < i ==> (#[trigger] ids@[k]) is None,
            decreases total - i,
        {
            ids.push(None);
            fresh.push(false);
            i += 1;
        }
        let stage = if is_new {
            ImportStage::Create { parent: None, first: true }
        } else {
            ImportStage::Check
        };
        proof {
            lemma_is_outline(*deck, path@, entries@);
        }
        DeckImport { entries, ids, fresh, is_new, owner, at: 0, stage }
    }

    /// What is to be done next.
    pub fn step(&self) -> (r: ImportStep<'a>)
        requires
            self.wf(),
        ensures
            match self.stage {
                ImportStage::Check => r matches ImportStep::Check { path } && path@
                    == self.entries@[self.at as int].path@,
                ImportStage::Restriction { .. } => r is AskRestriction,
                ImportStage::Create { parent, .. } => r == (ImportStep::Create {
                    deck: self.entries@[self.at as int].deck,
                    parent,
                    owner: self.owner,
                }),
                ImportStage::Fill { id, .. } => r == (ImportStep::Fill {
                    deck: self.entries@[self.at as int].deck,
                    deck_id: id,
                }),
                ImportStage::Finished => r is Finished,
            },
    {
        match self.stage {
            ImportStage::Check => ImportStep::Check { path: self.entries[self.at].path.clone() },
            ImportStage::Restriction { target: _ } => ImportStep::AskRestriction,
            ImportStage::Create { parent, first: _ } => ImportStep::Create {
                deck: self.entries[self.at].deck,
                parent,
                owner: self.owner,
            },
            ImportStage::Fill { id, fresh: _ } => ImportStep::Fill {
                deck: self.entries[self.at].deck,
                deck_id: id,
            },
            ImportStage::Finished => ImportStep::Finished,
        }
    }

    /// Goes on to the deck at a place.
    fn go_to(&mut self, at: usize)
        requires
            old(self).wf(),
            at <= old(self).entries@.len(),
            forall|i: int|
                0 <= i < at < (#[trigger] old(self).entries@[i]).end ==> old(self).ids@[i] is Some,
        ensures
            final(self).wf(),
            final(self).moved_to(*old(self), at as int),
    {
        proof {
            if at < self.entries@.len() {
                lemma_entry(self.entries@, at as int);
            }
        }
        self.at = at;
        self.stage = if at == self.entries.len() {
            ImportStage::Finished
        } else {
            match self.entries[at].above {
                None => if self.is_new {
                    ImportStage::Create { parent: None, first: true }
                } else {
                    ImportStage::Check
                },
                Some(a) => if self.fresh[a] {
                    ImportStage::Create { parent: self.ids[a], first: false }
                } else {
                    ImportStage::Check
                },
            }
        };
    }

    /// Takes what was found of the path of the deck: the number of the deck, and zero; or where
    /// there is only the deck above it, its number and the owner.
    pub fn on_checked(&mut self, found: Result<(Option<i64>, i32), String>) -> (r: Result<
        (),
        String,
    >)
        requires
            old(self).wf(),
            old(self).stage == ImportStage::Check,
        ensures
            final(self).wf(),
            r is Err ==> *final(self) == *old(self),
            match found {
                Err(e) => r == Err::<(), String>(e),
                Ok((None, _)) => r matches Err(e) && e@ == "Deck not found. Illegal code."@,
                Ok((Some(id), owner)) => {
                    &&& r is Ok
                    &&& owner == 0 ==> final(self).only_stage(
                        *old(self),
                        ImportStage::Fill { id, fresh: false },
                    )
                    &&& owner != 0 ==> final(self).only_stage(
                        DeckImport { owner, ..*old(self) },
                        ImportStage::Restriction { target: id },
                    )
                },
            },
    {
        match found {
            Err(e) => Err(e),
            Ok((None, _)) => Err("Deck not found. Illegal code.".to_owned()),
            Ok((Some(id), owner)) => {
                if owner != 0 {
                    self.owner = owner;
                    self.stage = ImportStage::Restriction { target: id };
                } else {
                    self.stage = ImportStage::Fill { id, fresh: false };
                }
                Ok(())
            },
        }
    }

    /// Takes whether the maintainers allow no new subdecks; nothing where there is no such deck.
    pub fn on_restriction(&mut self, restricted: Option<bool>) -> (r: Result<(), String>)
        requires
            old(self).wf(),
            old(self).stage is Restriction,
        ensures
            final(self).wf(),
            r is Err ==> *final(self) == *old(self),
            match restricted {
                None => r matches Err(e) && e@ == "Deck does not exist"@,
                Some(true) => r matches Err(e) && e@ == "Subdecks are not allowed"@,
                Some(false) => r is Ok && final(self).only_stage(
                    *old(self),
                    ImportStage::Create {
                        parent: Some(old(self).stage->target),
                        first: true,
                    },
                ),
            },
    {
        match restricted {
            None => Err("Deck does not exist".to_owned()),
            Some(true) => Err("Subdecks are not allowed".to_owned()),
            Some(false) => {
                let parent = match self.stage {
                    ImportStage::Restriction { target } => Some(target),
                    _ => None,
                };
                self.stage = ImportStage::Create { parent, first: true };
                Ok(())
            },
        }
    }

    /// Takes the number under which the deck was stored, or why it was not. A new deck below
    /// another new one that is not stored ends the import of that one, and goes without notice.
    pub fn on_created(&mut self, created: Result<i64, String>) -> (r: Result<(), String>)
        requires
            old(self).wf(),
            old(self).stage is Create,
        ensures
            final(self).wf(),
            r is Err ==> *final(self) == *old(self),
            match created {
                Ok(id) => r is Ok && final(self).only_stage(
                    *old(self),
                    ImportStage::Fill { id, fresh: true },
                ),
                Err(e) => if old(self).stage->first {
                    r == Err::<(), String>(e)
                } else {
                    &&& r is Ok
                    &&& old(self).entries@[old(self).at as int].above matches Some(a)
                    &&& final(self).moved_to(
                        *old(self),
                        old(self).entries@[a as int].end as int,
                    )
                    &&& final(self).at > old(self).at
                },
            },
    {
        match created {
            Ok(id) => {
                self.stage = ImportStage::Fill { id, fresh: true };
                Ok(())
            },
            Err(e) => {
                let first = match self.stage {
                    ImportStage::Create { parent: _, first } => first,
                    _ => true,
                };
                if first {
                    return Err(e);
                }
                match self.entries[self.at].above {
                    Some(a) => {
                        proof {
                            lemma_entry(self.entries@, self.at as int);
                            lemma_entry(self.entries@, a as int);
                        }
                        let end = self.entries[a].end;
                        assert forall|i: int|
                            0 <= i < end < (#[trigger] self.entries@[i]).end implies
                            self.ids@[i] is Some by {
                            lemma_wider_entry(self.entries@, a as int, i);
                        }
                        self.go_to(end);
                        Ok(())
                    },
                    None => Err(e),
                }
            },
        }
    }

    /// Takes whether the notes of the deck were stored, or suggested, or why not. Where that fails
    /// for a new deck, the decks below it are left out, and that goes without notice.
    pub fn on_filled(&mut self, filled: Result<(), String>) -> (r: Result<(), String>)
        requires
            old(self).wf(),
            old(self).stage is Fill,
        ensures
            final(self).wf(),
            r is Err ==> *final(self) == *old(self),
            match filled {
                Ok(_) => {
                    let with_deck = DeckImport {
                        ids: final(self).ids,
                        fresh: final(self).fresh,
                        ..*old(self)
                    };
                    &&& r is Ok
                    &&& final(self).ids@ == old(self).ids@.update(
                        old(self).at as int,
                        Some(old(self).stage->id),
                    )
                    &&& final(self).fresh@ == old(self).fresh@.update(
                        old(self).at as int,
                        old(self).stage->fresh,
                    )
                    &&& final(self).moved_to(with_deck, old(self).at + 1)
                },
                Err(e) => if old(self).stage->fresh {
                    &&& r is Ok
                    &&& final(self).moved_to(
                        *old(self),
                        old(self).entries@[old(self).at as int].end as int,
                    )
                } else {
                    r == Err::<(), String>(e)
                },
            },
            r is Ok ==> final(self).at > old(self).at,
    {
        let (id, is_fresh) = match self.stage {
            ImportStage::Fill { id, fresh } => (id, fresh),
            _ => (0, false),
        };
        match filled {
            Ok(_) => {
                self.ids.set(self.at, Some(id));
                self.fresh.set(self.at, is_fresh);
                let total = self.entries.len();
                assert(self.at < total);
                assert forall|i: int|
                    0 <= i < self.at + 1 < (#[trigger] self.entries@[i]).end implies
                    self.ids@[i] is Some by {
                    if i < self.at {
                        assert(old(self).entries@[i].end > self.at);
                        assert(old(self).ids@[i] is Some);
                    }
                }
                assert forall|i: int| 0 <= i < self.at < (#[trigger] self.entries@[i]).end implies
                    self.ids@[i] is Some by {
                    assert(old(self).ids@[i] is Some);
                }
                self.go_to(self.at + 1);
                Ok(())
            },
            Err(e) => {
                if is_fresh {
                    proof {
                        lemma_entry(self.entries@, self.at as int);
                    }
                    let end = self.entries[self.at].end;
                    assert forall|i: int|
                        0 <= i < end < (#[trigger] self.entries@[i]).end implies
                        self.ids@[i] is Some by {
                        lemma_wider_entry(self.entries@, self.at as int, i);
                    }
                    self.go_to(end);
                    Ok(())
                } else {
                    Err(e)
                }
            },
        }
    }
}

/// A deck that is new because the one above it is new is stored below that one: the number of the
/// deck above it is known, and is the one under which it is stored.
pub proof fn law_new_decks_are_stored_below_their_own(import: DeckImport)
    requires
        import.wf(),
        import.at < import.entries@.len(),
        import.stage == import.first_stage(import.at as int),
        import.stage is Create,
    ensures
        match import.entries@[import.at as int].above {
            Some(a) => import.ids@[a as int] is Some && import.stage->parent
                == import.ids@[a as int],
            None => import.is_new && import.stage->parent is None,
        },
{
    lemma_entry(import.entries@, import.at as int);
}

/// However the step of an import at a deck ends, the deck to which it goes on is further behind: no
/// deck is seen to twice.
pub proof fn law_imports_only_go_forward(import: DeckImport)
    requires
        import.wf(),
        import.at < import.entries@.len(),
    ensures
        import.entries@[import.at as int].end > import.at,
        import.entries@[import.at as int].above matches Some(a) ==> import.entries@[a as int].end
            > import.at,
{
    lemma_entry(import.entries@, import.at as int);
    if let Some(a) = import.entries@[import.at as int].above {
        lemma_entry(import.entries@, a as int);
    }
}

/// The decks of a list are counted one by one: those of the first ones, those of the one behind them and
/// those of the rest.
pub proof fn law_decks_are_counted_once(decks: Seq<AnkiDeck>, c: int)
    requires
        0 <= c < decks.len(),
    ensures
        deck_counts(decks) == deck_counts(decks.take(c)) + deck_count(decks[c]) + deck_counts(
            decks.skip(c + 1),
        ),
        deck_counts(Seq::<AnkiDeck>::empty()) == 0,
        deck_count(decks[c]) == 1 + deck_counts(decks[c].children@),
    decreases c,
{
    if c == 0 {
        assert(decks.take(0) =~= Seq::<AnkiDeck>::empty());
    } else {
        let rest = decks.skip(1);
        law_decks_are_counted_once(rest, c - 1);
        assert(rest.take(c - 1) =~= decks.take(c).skip(1));
        assert(rest.skip(c) =~= decks.skip(c + 1));
        assert(decks.take(c)[0] == decks[0]);
    }
}

proof fn lemma_outline_lengths(deck: AnkiDeck, at: int, above: Option<int>, path: Seq<char>)
    ensures
        outline_of(deck, at, above, path).len() == deck_count(deck),
    decreases deck, 0nat,
{
    lemma_outlines_lengths(deck.children@, at + 1, at, path);
}

proof fn lemma_outlines_lengths(decks: Seq<AnkiDeck>, at: int, above: int, path: Seq<char>)
    ensures
        outlines_of(decks, at, above, path).len() == deck_counts(decks),
    decreases decks, 1nat,
{
    if decks.len() > 0 {
        lemma_outline_lengths(decks[0], at, Some(above), subdeck_path(path, decks[0].name@));
        lemma_outlines_lengths(decks.skip(1), at + deck_count(decks[0]), above, path);
    }
}

proof fn lemma_subdeck(decks: Seq<AnkiDeck>, at: int, above: int, path: Seq<char>, c: int)
    requires
        0 <= c < decks.len(),
    ensures
        ({
            let off = deck_counts(decks.take(c)) as int;
            off + deck_count(decks[c]) <= deck_counts(decks) && outlines_of(
                decks,
                at,
                above,
                path,
            ).subrange(off, off + deck_count(decks[c])) == outline_of(
                decks[c],
                at + off,
                Some(above),
                path + "::"@ + decks[c].name@,
            )
        }),
    decreases c,
{
    let first = outline_of(decks[0], at, Some(above), subdeck_path(path, decks[0].name@));
    let rest = decks.skip(1);
    let behind = outlines_of(rest, at + deck_count(decks[0]), above, path);
    lemma_outline_lengths(decks[0], at, Some(above), subdeck_path(path, decks[0].name@));
    lemma_outlines_lengths(decks, at, above, path);
    lemma_outlines_lengths(rest, at + deck_count(decks[0]), above, path);
    law_decks_are_counted_once(decks, c);
    let off = deck_counts(decks.take(c)) as int;
    if c == 0 {
        assert(decks.take(0) =~= Seq::<AnkiDeck>::empty());
        assert((first + behind).subrange(0, first.len() as int) =~= first);
    } else {
        lemma_subdeck(rest, at + deck_count(decks[0]), above, path, c - 1);
        assert(rest.take(c - 1) =~= decks.take(c).skip(1));
        assert(decks.take(c)[0] == decks[0]);
        let less = deck_counts(rest.take(c - 1)) as int;
        assert(off == deck_count(decks[0]) + less);
        assert((first + behind).subrange(off, off + deck_count(decks[c])) =~= behind.subrange(
            less,
            less + deck_count(decks[c]),
        ));
    }
}

/// The list of a deck begins with the deck itself. Behind it follow the lists of its subdecks in their
/// order, with no gap: each begins behind those of the subdecks before it, tells the place of the deck
/// as that of the one above, and has the path of the deck, two colons and the name of the subdeck
/// as its path.
pub proof fn law_every_subdeck_is_listed(
    deck: AnkiDeck,
    at: int,
    above: Option<int>,
    path: Seq<char>,
    c: int,
)
    ensures
        ({
            let list = outline_of(deck, at, above, path);
            &&& list.len() == deck_count(deck)
            &&& list[0].deck == deck
            &&& list[0].above == above
            &&& list[0].end == at + list.len()
            &&& list[0].path == path
            &&& 0 <= c < deck.children@.len() ==> {
                let child = deck.children@[c];
                let off = 1 + deck_counts(deck.children@.take(c)) as int;
                &&& off + deck_count(child) <= list.len()
                &&& list.subrange(off, off + deck_count(child)) == outline_of(
                    child,
                    at + off,
                    Some(at),
                    path + "::"@ + child.name@,
                )
            }
        }),
{
    lemma_outline_lengths(deck, at, above, path);
    if 0 <= c < deck.children@.len() {
        lemma_subdeck(deck.children@, at + 1, at, path, c);
        let list = outline_of(deck, at, above, path);
        let below = outlines_of(deck.children@, at + 1, at, path);
        let off = deck_counts(deck.children@.take(c)) as int;
        let size = deck_count(deck.children@[c]) as int;
        assert(list.subrange(1 + off, 1 + off + size) =~= below.subrange(off, off + size));
    }
}

/// At a deck it is first awaited that it is stored exactly where it is known to be new: it is the topmost
/// one of a new deck, or the one above it is new. Otherwise it is awaited whether it is there.
pub proof fn law_only_decks_that_may_be_there_are_looked_for(import: DeckImport, at: int)
    requires
        import.wf(),
        0 <= at < import.entries@.len(),
    ensures
        import.first_stage(at) is Create <==> match import.entries@[at].above {
            None => import.is_new,
            Some(a) => import.fresh@[a as int],
        },
        import.first_stage(at) is Check <==> !(import.first_stage(at) is Create),
        import.first_stage(at) is Create ==> (import.first_stage(at)->first
            <==> import.entries@[at].above is None),
{
}

/// An entry of a list stands for its own deck, path and places.
pub proof fn law_entries_stand_for_themselves(list: Seq<OutlineEntry>, i: int)
    requires
        0 <= i < list.len(),
    ensures
        outline_view(list).len() == list.len(),
        outline_view(list)[i].deck == *list[i].deck,
        outline_view(list)[i].path == list[i].path@,
        outline_view(list)[i].end == list[i].end,
        outline_view(list)[i].above is None <==> list[i].above is None,
        list[i].above matches Some(a) ==> outline_view(list)[i].above == Some(a as int),
{
}

/// Whatever is awaited next, an import goes on with the same decks, below the same owner, and forgets
/// neither the numbers that it knows nor which decks are new; only its place moves, and that only
/// where it goes on to another deck.
pub proof fn law_imports_forget_nothing(
    before: DeckImport,
    after: DeckImport,
    stage: ImportStage,
    at: int,
)
    ensures
        after.only_stage(before, stage) || after.moved_to(before, at) ==> {
            &&& after.entries@ == before.entries@
            &&& after.is_new == before.is_new
            &&& after.owner == before.owner
            &&& after.ids@ == before.ids@
            &&& after.fresh@ == before.fresh@
        },
        after.only_stage(before, stage) ==> after.at == before.at && after.stage == stage,
        after.moved_to(before, at) ==> after.at == at && (at == after.entries@.len()
            ==> after.stage == ImportStage::Finished),
{
}

} // verus!
