//! The word lists the game draws its words from, one list per word length.

use vstd::prelude::*;
use crate::search::{first_where, lemma_first_where_is, lemma_first_where_none};

verus! {

/// Word lists: each entry is a word length and the words of that length.
pub type WordLists = Vec<(usize, Vec<String>)>;

/// The entry holds the words of length `length`.
pub open spec fn is_length(length: usize) -> spec_fn((usize, Vec<String>)) -> bool {
    |e: (usize, Vec<String>)| e.0 == length
}

/// The words of the first list for `length`, if there is one.
pub open spec fn spec_by_word_length(lists: Seq<(usize, Vec<String>)>, length: usize) -> Option<Vec<String>> {
    match first_where(lists, is_length(length)) {
        Some(i) => Some(lists[i].1),
        None => None,
    }
}

/// The list of words of the given length, if the lists hold one (the first
/// such list when several do).
pub fn by_word_length(wordlists: &WordLists, length: usize) -> (r: Option<&Vec<String>>)
    ensures
        r matches Some(l) ==> spec_by_word_length(wordlists@, length) == Some(*l),
        r is None ==> spec_by_word_length(wordlists@, length) is None,
{
    let mut i: usize = 0;
    while i < wordlists.len()
        invariant
            i <= wordlists.len(),
            forall|j: int| 0 <= j < i ==> !is_length(length)(#[trigger] wordlists@[j]),
        decreases wordlists.len() - i,
    {
        if wordlists[i].0 == length {
            proof {
                lemma_first_where_is(wordlists@, is_length(length), i as int);
            }
            return Some(&wordlists[i].1);
        }
        i = i + 1;
    }
    proof {
        lemma_first_where_none(wordlists@, is_length(length));
    }
    None
}

} // verus!
