//! The word under the cursor.

use vstd::prelude::*;

use crate::text;

verus! {

/// Whether `c` separates words: an ASCII space or a tab.
pub open spec fn is_break(c: char) -> bool {
    c == ' ' || c == '\t'
}

/// The index of the character that follows the last break of `s`; zero where `s` has none.
pub open spec fn word_start(s: Seq<char>) -> int
    decreases s.len(),
{
    if s.len() == 0 {
        0
    } else if is_break(s.last()) {
        s.len() as int
    } else {
        word_start(s.drop_last())
    }
}

/// What stands before the cursor at byte offset `pos`, up to and with the last break.
pub open spec fn leading(line: Seq<char>, pos: int) -> Seq<char> {
    text::head_at(line, pos).take(word_start(text::head_at(line, pos)))
}

/// The word that ends at the cursor at byte offset `pos`.
pub open spec fn word_at(line: Seq<char>, pos: int) -> Seq<char> {
    text::head_at(line, pos).skip(word_start(text::head_at(line, pos)))
}

/// The start of the last word lies within the text, and the word holds no break.
pub proof fn lemma_word_start(s: Seq<char>)
    ensures
        0 <= word_start(s) <= s.len(),
        forall|i: int| word_start(s) <= i < s.len() ==> !is_break(#[trigger] s[i]),
        word_start(s) > 0 ==> is_break(s[word_start(s) - 1]),
    decreases s.len(),
{
    if s.len() > 0 && !is_break(s.last()) {
        lemma_word_start(s.drop_last());
        assert forall|i: int| word_start(s) <= i < s.len() implies !is_break(#[trigger] s[i]) by {
            if i < s.len() - 1 {
                assert(s[i] == s.drop_last()[i]);
            }
        }
    }
}

/// Calls `is_space` of winnow's `AsChar` for `char`. It holds of an ASCII space and of a tab,
/// and of no other character.
#[verifier::external_body]
fn is_space(c: char) -> (r: bool)
    ensures
        r == (c == ' ' || c == '\t'),
{
    winnow::stream::AsChar::is_space(c)
}

/// Whether `c` separates words.
pub fn breaks_word(c: char) -> (r: bool)
    ensures
        r == is_break(c),
{
    is_space(c)
}

/// Calls rustyline's `completion::extract_word` without an escape character and with
/// [`breaks_word`] as its test for breaks. It walks back from the cursor to the nearest break and
/// returns the word behind it with the byte offset at which that word starts; without a break,
/// all that stands before the cursor, and zero. The cursor has to be on a boundary: the call cuts
/// the line there.
#[verifier::external_body]
pub(crate) fn extract_word(line: &str, pos: usize) -> (r: (usize, &str))
    requires
        text::is_boundary(line@, pos as int),
    ensures
        r.0 == text::bytes(leading(line@, pos as int)).len(),
        r.1@ == word_at(line@, pos as int),
{
    rustyline::completion::extract_word(line, pos, None, breaks_word)
}

/// Words are parted by spaces and tabs, and by no other character.
pub proof fn law_spaces_and_tabs_part_words(c: char, r: bool)
    requires
        call_ensures(breaks_word, (c,), r),
    ensures
        r <==> c == ' ' || c == '\t',
{
}

/// The word that ends at a cursor, where the text before the cursor is known as what leads up to the word
/// and the word.
pub proof fn lemma_word_of(line: Seq<char>, pos: int, before: Seq<char>, word: Seq<char>, after: Seq<char>)
    requires
        line == before + word + after,
        pos == text::bytes(before + word).len(),
        forall|i: int| 0 <= i < word.len() ==> word[i] != ' ' && word[i] != '\t',
        before.len() > 0 ==> before.last() == ' ' || before.last() == '\t',
    ensures
        leading(line, pos) == before,
        word_at(line, pos) == word,
{
    let head = before + word;
    assert(line.subrange(0, head.len() as int) =~= head);
    text::lemma_split_at_prefix(line, head);
    lemma_word_start(head);
    let start = word_start(head);
    if start > before.len() {
        assert(head[start - 1] == word[start - 1 - before.len()]);
    }
    if start < before.len() {
        assert(!is_break(head[before.len() - 1]));
        assert(head[before.len() - 1] == before.last());
    }
    assert(leading(line, pos) =~= before);
    assert(word_at(line, pos) =~= word);
}

} // verus!
