//! Handing completed lines to the caller's callback.

use vstd::prelude::*;

verus! {

/// The callback refused a line.
#[derive(Debug)]
pub struct CallbackError<E> {
    /// How many lines of the cycle the callback had accepted before.
    pub position: usize,
    /// What the callback returned for the line at that position.
    pub cause: E,
}

/// True when `outcome` is what walking `lines` from the first on and
/// stopping at the first refusal can give: success only if the callback
/// accepted every line, and a refusal at a position only if the callback
/// accepted every line before it and refused that one with that cause.
pub open spec fn delivered_in_order<E, F: Fn(String) -> Result<(), E>>(
    callback: &F,
    lines: Seq<String>,
    outcome: Result<(), CallbackError<E>>,
) -> bool {
    match outcome {
        Ok(_) => forall|i: int|
            0 <= i < lines.len() ==> call_ensures(callback, (#[trigger] lines[i],), Ok(())),
        Err(refusal) => {
            &&& refusal.position < lines.len()
            &&& forall|i: int|
                0 <= i < refusal.position ==> call_ensures(
                    callback,
                    (#[trigger] lines[i],),
                    Ok(()),
                )
            &&& call_ensures(callback, (lines[refusal.position as int],), Err(refusal.cause))
        },
    }
}

/// Calls `callback` once for each line, in order, and stops at the first
/// line that it refuses. The lines behind a refused one are not handed
/// over.
pub fn deliver<E, F: Fn(String) -> Result<(), E>>(lines: &Vec<String>, callback: &F) -> (outcome:
    Result<(), CallbackError<E>>)
    requires
        forall|i: int| 0 <= i < lines.len() ==> call_requires(callback, (#[trigger] lines[i],)),
    ensures
        delivered_in_order(callback, lines@, outcome),
        lines.len() == 0 ==> outcome is Ok,
{
    let mut position: usize = 0;
    while position < lines.len()
        invariant
            position <= lines.len(),
            forall|i: int| 0 <= i < lines.len() ==> call_requires(callback, (#[trigger] lines[i],)),
            forall|i: int|
                0 <= i < position ==> call_ensures(callback, (#[trigger] lines[i],), Ok(())),
        decreases lines.len() - position,
    {
        let line = lines[position].clone();
        match callback(line) {
            Ok(done) => {
                assert(done == ());
            },
            Err(cause) => {
                return Err(CallbackError { position, cause });
            },
        }
        position = position + 1;
    }
    Ok(())
}

} // verus!
