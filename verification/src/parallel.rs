//! Work spread over threads.

use crate::types::FileEntry;
use rayon::iter::{IntoParallelRefIterator, ParallelIterator};
use vstd::prelude::*;

verus! {

/// `rayon`'s `par_iter`, `map` and `collect` on a vector: `f` is called on
/// every entry, on some thread, and the results stand in the order of the
/// entries.
#[verifier::external_body]
pub(crate) fn par_map<U: Send, F: Fn(&FileEntry) -> U + Sync + Send>(
    entries: &Vec<FileEntry>,
    f: F,
) -> (r: Vec<U>)
    requires
        forall|i: int| 0 <= i < entries@.len() ==> call_requires(f, (&#[trigger] entries@[i],)),
    ensures
        r@.len() == entries@.len(),
        forall|i: int|
            0 <= i < r@.len() ==> call_ensures(f, (&entries@[i],), #[trigger] r@[i]),
{
    entries.par_iter().map(f).collect()
}

} // verus!
