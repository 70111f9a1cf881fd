//! The lines that were entered before, as the line editor keeps them.

use rustyline::history::SearchDirection;
use rustyline::Context;
use vstd::prelude::*;

use crate::text;

verus! {

/// rustyline's `Context`, which gives completers and hinters the editor's history.
#[verifier::external_type_specification]
#[verifier::external_body]
pub struct ExContext<'h>(rustyline::Context<'h>);

/// The entries of the history that a context gives, oldest first, where that history is one of
/// those that rustyline keeps in memory (`MemHistory`, and `FileHistory`, which is built on it).
/// `None` for any other implementation of the `History` trait: what such an implementation
/// answers is its own affair.
pub uninterp spec fn recorded(ctx: &Context<'_>) -> Option<Seq<Seq<char>>>;

/// The newest of the first `n` entries that begins with `term`.
pub open spec fn newest_match(entries: Seq<Seq<char>>, term: Seq<char>, n: int) -> Option<Seq<char>>
    decreases n,
{
    if n <= 0 {
        None
    } else if term.is_prefix_of(entries[n - 1]) {
        Some(entries[n - 1])
    } else {
        newest_match(entries, term, n - 1)
    }
}

/// The newest match, where there is one, is an entry that begins with the term.
pub proof fn lemma_newest_match(entries: Seq<Seq<char>>, term: Seq<char>, n: int)
    requires
        n <= entries.len(),
    ensures
        newest_match(entries, term, n) matches Some(entry) ==> {
            &&& term.is_prefix_of(entry)
            &&& exists|i: int|
                0 <= i < n && #[trigger] entries[i] == entry && forall|j: int|
                    i < j < n ==> !term.is_prefix_of(#[trigger] entries[j])
        },
        newest_match(entries, term, n) is None ==> forall|j: int|
            0 <= j < n ==> !term.is_prefix_of(#[trigger] entries[j]),
    decreases n,
{
    if n > 0 {
        if term.is_prefix_of(entries[n - 1]) {
            assert(entries[n - 1] == newest_match(entries, term, n)->0);
        } else {
            lemma_newest_match(entries, term, n - 1);
            if newest_match(entries, term, n) is Some {
                let entry = newest_match(entries, term, n)->0;
                let i = choose|i: int|
                    0 <= i < n - 1 && #[trigger] entries[i] == entry && forall|j: int|
                        i < j < n - 1 ==> !term.is_prefix_of(#[trigger] entries[j]);
                assert forall|j: int| i < j < n implies !term.is_prefix_of(
                    #[trigger] entries[j],
                ) by {}
                assert(entries[i] == entry);
            }
        }
    }
}

/// What a search of the entries for `term` finds, backwards from entry `start`.
pub open spec fn found_from(entries: Seq<Seq<char>>, term: Seq<char>, start: int) -> Option<Seq<char>> {
    if term.len() == 0 || start >= entries.len() {
        None
    } else {
        newest_match(entries, term, start + 1)
    }
}

/// Calls `History::len` on the history of the context. A history in memory has as many entries as
/// it recorded; of other histories nothing is claimed.
#[verifier::external_body]
pub(crate) fn history_len(ctx: &Context<'_>) -> (n: usize)
    ensures
        recorded(ctx) matches Some(entries) ==> n == entries.len(),
{
    ctx.history().len()
}

/// Calls `History::starts_with` on the history of the context, backwards from entry `start`. A
/// history in memory never fails: it finds the newest entry, no newer than entry `start`, that
/// begins with `term`, and finds nothing where `term` is empty or there is no entry `start`. Of
/// other histories nothing is claimed.
#[verifier::external_body]
pub(crate) fn history_starts_with(ctx: &Context<'_>, term: &str, start: usize) -> (r: Result<Option<String>, ()>)
    ensures
        recorded(ctx) matches Some(entries) ==> r is Ok && text::opt_text(r->Ok_0) == found_from(entries, term@, start as int),
{
    match ctx.history().starts_with(term, start, SearchDirection::Reverse) {
        Ok(found) => Ok(found.map(|found| found.entry.to_string())),
        Err(_) => Err(()),
    }
}

} // verus!
