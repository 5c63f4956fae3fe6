//! Suggestions to remove notes.
use vstd::prelude::*;

verus! {

/// The rationale of a commit that removes notes.
pub const REMOVAL_RATIONALE: i32 = 11;

/// The deck from which notes are to be removed; an error where there is none.
pub fn deck_of_removal(deck_id: Option<i64>) -> (r: Result<i64, String>)
    ensures
        match r {
            Ok(id) => deck_id == Some(id),
            Err(e) => deck_id is None && e@ == "Deck doesnt exist"@,
        },
{
    match deck_id {
        Some(id) => Ok(id),
        None => Err("Deck doesnt exist".to_owned()),
    }
}

/// The notes that were found, in the order in which they were asked for; what was not found is
/// passed over.
pub fn notes_to_remove(found: &Vec<Option<i64>>) -> (r: Vec<i64>)
    ensures
        r@ == found@.filter_map(|n: Option<i64>| n),
{
    let mut out: Vec<i64> = Vec::new();
    let ghost same = |n: Option<i64>| n;
    let mut i: usize = 0;
    proof {
        reveal(Seq::filter_map);
        assert(found@.take(0) =~= Seq::<Option<i64>>::empty());
    }
    while i < found.len()
        invariant
            i <= found@.len(),
            same == (|n: Option<i64>| n),
            out@ == found@.take(i as int).filter_map(same),
        decreases found@.len() - i,
    {
        proof {
            reveal(Seq::filter_map);
            assert(found@.take(i + 1).drop_last() =~= found@.take(i as int));
            assert(found@.take(i + 1).last() == found@[i as int]);
        }
        if let Some(id) = found[i] {
            out.push(id);
        }
        i += 1;
    }
    assert(found@.take(found@.len() as int) =~= found@);
    out
}

/// What is said when a request to remove a note could not be stored.
pub fn removal_failure() -> (r: String)
    ensures
        r@ == "Cannot make the removal request"@,
{
    "Cannot make the removal request".to_owned()
}

} // verus!
