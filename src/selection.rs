use vstd::prelude::*;

use crate::error::Error;

verus! {

/// Reads an operator's 1-based menu answer against a menu of `max` entries:
/// the 0-based index when the answer names an entry, `None` otherwise.
pub fn menu_choice(answer: usize, max: usize) -> (r: Option<usize>)
    ensures
        1 <= answer <= max <==> r is Some,
        r is Some ==> r->0 == answer - 1,
{
    if answer >= 1 && answer <= max {
        Some(answer - 1)
    } else {
        None
    }
}

/// The outcome of one selection among `len` candidates: the chosen index, or
/// `UserCancelled` when the operator gave up or named no candidate.
pub fn selection_index(choice: Option<usize>, len: usize) -> (r: Result<usize, Error>)
    ensures
        (choice is Some && choice->0 < len) <==> r is Ok,
        r is Ok ==> r->Ok_0 == choice->0,
        r is Err ==> r->Err_0 == Error::UserCancelled,
{
    match choice {
        Some(i) => if i < len {
            Ok(i)
        } else {
            Err(Error::UserCancelled)
        },
        None => Err(Error::UserCancelled),
    }
}

} // verus!
