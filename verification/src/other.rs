//! Odds and ends.

use vstd::prelude::*;

verus! {

/// Results whose outcome does not matter: `pohuy` looks at a result and
/// does nothing, which says on purpose that the result is dropped.
pub trait Pohuy<T, E> {
    fn pohuy(&self) {
    }
}

impl<T, E> Pohuy<T, E> for Result<T, E> {

}

} // verus!
