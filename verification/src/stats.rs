//! Review statistics that users share.
use vstd::prelude::*;

use crate::structs::{NoteStatsInfo, StatsInfo};
use crate::text;

verus! {

/// There must be one deck of a hash, and no other.
pub fn check_deck_count(deck_hash: &str, count: u64) -> (r: Result<(), String>)
    ensures
        match r {
            Ok(_) => count == 1,
            Err(e) => count != 1 && e@ == "Expected one deck with hash "@ + deck_hash@ + ", found "@
                + text::decimal(count as nat),
        },
{
    if count == 1 {
        return Ok(());
    }
    let mut message = text::joined("Expected one deck with hash ", deck_hash);
    message.append(", found ");
    let number = text::decimal_text(count);
    message.append(number.as_str());
    Err(message)
}

/// The statistics of a note that are stored.
#[derive(Debug, PartialEq)]
pub struct NoteStatsRow {
    pub note_id: i64,
    pub user_hash: String,
    pub retention: i32,
    pub lapses: i32,
    pub reps: i32,
}

/// What is stored of the statistics of a note, given the notes that have its guid. Where there is
/// none, or more than one, nothing is.
pub fn stats_row(user_hash: &str, note_ids: &Vec<i64>, stats: NoteStatsInfo) -> (r: Option<
    NoteStatsRow,
>)
    ensures
        match r {
            Some(row) => {
                &&& note_ids@.len() == 1
                &&& row.note_id == note_ids@[0]
                &&& row.user_hash@ == user_hash@
                &&& row.retention == stats.retention
                &&& row.lapses == stats.lapses
                &&& row.reps == stats.reps
            },
            None => note_ids@.len() != 1,
        },
{
    if note_ids.len() != 1 {
        return None;
    }
    Some(
        NoteStatsRow {
            note_id: note_ids[0],
            user_hash: user_hash.to_owned(),
            retention: stats.retention,
            lapses: stats.lapses,
            reps: stats.reps,
        },
    )
}

/// The statistics of a note, and its guid.
#[derive(Debug, PartialEq)]
pub struct SharedStats {
    pub guid: String,
    pub stats: NoteStatsInfo,
}

/// The guids and statistics of a deck, as they were shared.
pub open spec fn deck_stats(info: StatsInfo, deck: int) -> Seq<(Seq<char>, NoteStatsInfo)> {
    Seq::new(
        info.review_history@[deck].notes@.len(),
        |i: int|
            (
                info.review_history@[deck].notes@[i].guid@,
                info.review_history@[deck].notes@[i].stats,
            ),
    )
}

/// The guids and statistics of the first `n` decks, one behind the other.
pub open spec fn all_stats(info: StatsInfo, n: int) -> Seq<(Seq<char>, NoteStatsInfo)>
    decreases n,
{
    if n <= 0 {
        Seq::empty()
    } else {
        all_stats(info, n - 1) + deck_stats(info, n - 1)
    }
}

/// The guids and statistics of all notes, deck by deck.
pub fn shared_stats(info: &StatsInfo) -> (r: Vec<SharedStats>)
    ensures
        r@.map_values(|s: SharedStats| (s.guid@, s.stats)) == all_stats(
            *info,
            info.review_history@.len() as int,
        ),
{
    let mut out: Vec<SharedStats> = Vec::new();
    let ghost pair = |s: SharedStats| (s.guid@, s.stats);
    let mut d: usize = 0;
    assert(out@.map_values(pair) =~= Seq::empty());
    while d < info.review_history.len()
        invariant
            d <= info.review_history@.len(),
            pair == (|s: SharedStats| (s.guid@, s.stats)),
            out@.map_values(pair) == all_stats(*info, d as int),
        decreases info.review_history@.len() - d,
    {
        let notes = &info.review_history[d].notes;
        let ghost start = out@.map_values(pair);
        let ghost whole = deck_stats(*info, d as int);
        let mut i: usize = 0;
        assert(start + whole.take(0) =~= start);
        while i < notes.len()
            invariant
                d < info.review_history@.len(),
                *notes == info.review_history@[d as int].notes,
                i <= notes@.len(),
                whole == deck_stats(*info, d as int),
                pair == (|s: SharedStats| (s.guid@, s.stats)),
                out@.map_values(pair) == start + whole.take(i as int),
            decreases notes@.len() - i,
        {
            let ghost before = out@;
            out.push(SharedStats { guid: notes[i].guid.clone(), stats: notes[i].stats });
            assert(out@.map_values(pair) =~= before.map_values(pair).push(
                (notes@[i as int].guid@, notes@[i as int].stats),
            ));
            assert(out@.map_values(pair) =~= start + whole.take(i + 1));
            i += 1;
        }
        assert(whole.take(whole.len() as int) =~= whole);
        d += 1;
    }
    out
}

/// The statistics of all decks are those of the first ones, then those of each note of the deck behind
/// them, as they were shared, then those of the decks behind that one: none is lost, and none changes
/// its place.
pub proof fn law_no_deck_is_passed_over(info: StatsInfo, n: int, deck: int, i: int)
    requires
        0 <= deck < n <= info.review_history@.len(),
        0 <= i < info.review_history@[deck].notes@.len(),
    ensures
        all_stats(info, 0).len() == 0,
        all_stats(info, deck + 1).len() == all_stats(info, deck).len()
            + info.review_history@[deck].notes@.len(),
        all_stats(info, deck + 1).is_prefix_of(all_stats(info, n)),
        all_stats(info, n)[all_stats(info, deck).len() + i] == (
            info.review_history@[deck].notes@[i].guid@,
            info.review_history@[deck].notes@[i].stats,
        ),
    decreases n,
{
    if n > deck + 1 {
        law_no_deck_is_passed_over(info, n - 1, deck, i);
    }
}

} // verus!
