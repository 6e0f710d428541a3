//! Persistence core of a minimal social network: a credential store that
//! registers accounts under unique usernames with bcrypt-hashed passwords,
//! and a word catalog that keeps one entry per (word, language) pair.

use vstd::prelude::*;

pub mod hashing;
pub mod user_db;
pub mod word_db;

verus! {

/// Outcomes that the two stores report beside their normal results.
///
/// Absence of a record is never an error: lookups answer with `None` or
/// `false` instead.
#[derive(Clone, Copy, Debug, PartialEq, Eq, Structural)]
pub enum StoreError {
    /// A record with the same unique key is already present.
    AlreadyExists,
    /// The password hash could not be computed or checked.
    HashComputation,
    /// The underlying store failed in a way the caller cannot recover here.
    Infrastructure,
}

/// A sequence in which no element satisfies `pred` filters down to nothing.
pub proof fn lemma_filter_none<A>(s: Seq<A>, pred: spec_fn(A) -> bool)
    requires
        forall|i: int| 0 <= i < s.len() ==> !pred(#[trigger] s[i]),
    ensures
        s.filter(pred).len() == 0,
    decreases s.len(),
{
    reveal(Seq::filter);
    if s.len() != 0 {
        lemma_filter_none(s.drop_last(), pred);
    }
}

/// A sequence whose only element satisfying `pred` sits at index `k` filters
/// down to exactly one element.
pub proof fn lemma_filter_single<A>(s: Seq<A>, pred: spec_fn(A) -> bool, k: int)
    requires
        0 <= k < s.len(),
        pred(s[k]),
        forall|i: int| 0 <= i < s.len() && i != k ==> !pred(#[trigger] s[i]),
    ensures
        s.filter(pred).len() == 1,
    decreases s.len(),
{
    reveal(Seq::filter);
    if k == s.len() - 1 {
        lemma_filter_none(s.drop_last(), pred);
    } else {
        lemma_filter_single(s.drop_last(), pred, k);
    }
}

} // verus!
