//! When the enter key ends the input, and when it starts another line.

use vstd::prelude::*;

use crate::text;

verus! {

/// Whether an input may be handed over.
#[derive(Debug)]
pub enum ValidationResult {
    /// The input goes on.
    Incomplete,
    /// The input may be handed over, with a message to show where there is one.
    Valid(Option<String>),
}

/// The number of code fences of `s`: its runs of three backticks, taken from the left without
/// overlap.
pub open spec fn fences(s: Seq<char>) -> nat
    decreases s.len(),
{
    if s.len() < 3 {
        0
    } else if s[0] == '`' && s[1] == '`' && s[2] == '`' {
        1 + fences(s.skip(3))
    } else {
        fences(s.drop_first())
    }
}

/// Whether `s` ends with a backslash.
pub open spec fn continues(s: Seq<char>) -> bool {
    s.len() > 0 && s.last() == '\\'
}

/// Whether an input goes on: a code block is still open, or a backslash stands at its end.
pub open spec fn is_incomplete(s: Seq<char>) -> bool {
    fences(s) % 2 == 1 || continues(s)
}

spec fn backticks(n: nat) -> Seq<char> {
    Seq::new(n, |i: int| '`')
}

/// Fewer than three backticks in front of another character make no fence.
proof fn lemma_broken_run(n: nat, c: char, rest: Seq<char>)
    requires
        n < 3,
        c != '`',
    ensures
        fences(backticks(n) + seq![c] + rest) == fences(rest),
    decreases n,
{
    let s = backticks(n) + seq![c] + rest;
    if n == 0 {
        assert(s.drop_first() =~= rest);
        if s.len() < 3 {
            assert(rest.len() < 3);
        }
    } else {
        assert(s.drop_first() =~= backticks((n - 1) as nat) + seq![c] + rest);
        lemma_broken_run((n - 1) as nat, c, rest);
        assert(s[n as int] == c);
        if s.len() < 3 {
            assert(rest.len() < 3);
        }
    }
}

/// The number of code fences of `s`.
pub fn count_fences(s: &str) -> (r: usize)
    ensures
        r == fences(s@),
{
    let mut chars = s.chars();
    let mut count: usize = 0;
    let mut run: usize = 0;
    let ghost mut i: int = 0;
    let limit = text::byte_len(s);
    proof {
        text::lemma_bytes_len(s@);
        assert(backticks(0) + s@.skip(0) =~= s@);
        assert(s@.skip(0) =~= s@);
    }
    loop
        invariant
            0 <= i <= s@.len() <= limit,
            run < 3,
            count <= i,
            vstd::std_specs::iter::IteratorSpec::remaining(&chars) == s@.skip(i),
            count + fences(backticks(run as nat) + s@.skip(i)) == fences(s@),
        decreases s@.len() - i,
    {
        match chars.next() {
            None => {
                assert(s@.skip(i).len() == 0);
                return count;
            },
            Some(c) => {
                let ghost rest = s@.skip(i + 1);
                assert(s@.skip(i).drop_first() =~= rest);
                assert(c == s@.skip(i)[0]);
                if c == '`' {
                    assert(backticks(run as nat) + s@.skip(i) =~= backticks((run + 1) as nat) + rest);
                    run += 1;
                    if run == 3 {
                        assert((backticks(3) + rest).skip(3) =~= rest);
                        assert(backticks(0) + rest =~= rest);
                        count += 1;
                        run = 0;
                    }
                } else {
                    proof {
                        assert(backticks(run as nat) + s@.skip(i) =~= backticks(run as nat) + seq![c]
                            + rest);
                        lemma_broken_run(run as nat, c, rest);
                        assert(backticks(0) + rest =~= rest);
                    }
                    run = 0;
                }
                proof {
                    i = i + 1;
                }
            },
        }
    }
}

/// Whether `s` ends with a backslash.
pub fn ends_with_backslash(s: &str) -> (r: bool)
    ensures
        r == continues(s@),
{
    let mut chars = s.chars();
    let mut last: bool = false;
    let ghost mut i: int = 0;
    loop
        invariant
            0 <= i <= s@.len(),
            vstd::std_specs::iter::IteratorSpec::remaining(&chars) == s@.skip(i),
            last == continues(s@.take(i)),
        decreases s@.len() - i,
    {
        match chars.next() {
            None => {
                assert(s@.take(i) =~= s@);
                return last;
            },
            Some(c) => {
                assert(c == s@.skip(i)[0]);
                assert(s@.skip(i).drop_first() =~= s@.skip(i + 1));
                assert(s@.take(i + 1).last() == c);
                last = c == '\\';
                proof {
                    i = i + 1;
                }
            },
        }
    }
}

/// Lets an input run over several lines.
pub struct MultiLineValidator;

impl MultiLineValidator {
    /// An input goes on while a code block is open or a backslash stands at its end.
    pub fn validate(&self, input: &str) -> (r: ValidationResult)
        ensures
            r == (if is_incomplete(input@) {
                ValidationResult::Incomplete
            } else {
                ValidationResult::Valid(None)
            }),
    {
        if count_fences(input) % 2 == 1 {
            return ValidationResult::Incomplete;
        }
        if ends_with_backslash(input) {
            return ValidationResult::Incomplete;
        }
        ValidationResult::Valid(None)
    }
}

/// Fences do not reach across a character that is no backtick: on both sides of it they count
/// apart.
pub proof fn law_fences_count_apart(a: Seq<char>, c: char, b: Seq<char>)
    requires
        c != '`',
    ensures
        fences(a + seq![c] + b) == fences(a) + fences(b),
    decreases a.len(),
{
    let s = a + seq![c] + b;
    if a.len() >= 3 {
        assert(s[0] == a[0] && s[1] == a[1] && s[2] == a[2]);
        if a[0] == '`' && a[1] == '`' && a[2] == '`' {
            assert(s.skip(3) =~= a.skip(3) + seq![c] + b);
            law_fences_count_apart(a.skip(3), c, b);
        } else {
            assert(s.drop_first() =~= a.drop_first() + seq![c] + b);
            law_fences_count_apart(a.drop_first(), c, b);
        }
    } else if a.len() == 0 {
        assert(s =~= backticks(0) + seq![c] + b);
        lemma_broken_run(0, c, b);
    } else {
        assert(s[a.len() as int] == c);
        assert(s.drop_first() =~= a.drop_first() + seq![c] + b);
        law_fences_count_apart(a.drop_first(), c, b);
        if s.len() < 3 {
            assert(b.len() < 3);
        }
    }
}

/// A fence on a line of its own closes an open code block and opens one where none is open: what
/// was left open may then be handed over, and what was not goes on.
pub proof fn law_fence_line_toggles(input: Seq<char>)
    ensures
        is_incomplete(input + seq!['\n', '`', '`', '`']) == (fences(input) % 2 == 0),
{
    let fence = seq!['`', '`', '`'];
    law_fences_count_apart(input, '\n', fence);
    assert(input + seq!['\n', '`', '`', '`'] =~= input + seq!['\n'] + fence);
    assert(fences(fence) == 1) by {
        reveal_with_fuel(fences, 2);
    }
}

/// A backslash at the end keeps any input going, whatever comes before it.
pub proof fn law_backslash_continues(input: Seq<char>)
    ensures
        is_incomplete(input.push('\\')),
{
}

/// An input without a backtick goes on only where a backslash stands at its end.
pub proof fn law_plain_text_is_complete(input: Seq<char>)
    requires
        forall|i: int| 0 <= i < input.len() ==> input[i] != '`',
    ensures
        fences(input) == 0,
        is_incomplete(input) == continues(input),
    decreases input.len(),
{
    if input.len() >= 3 {
        law_plain_text_is_complete(input.drop_first());
    }
}

// ---------------------------------------------------------------------------------------------
// What holds of all inputs
// ---------------------------------------------------------------------------------------------

proof fn lemma_no_run(s: Seq<char>)
    requires
        forall|i: int| 0 <= i < s.len() - 2 ==> !(#[trigger] s[i] == '`' && s[i + 1] == '`' && s[i + 2] == '`'),
    ensures
        fences(s) == 0,
    decreases s.len(),
{
    if s.len() >= 3 {
        assert(!(s[0] == '`' && s[1] == '`' && s[2] == '`'));
        let rest = s.drop_first();
        assert forall|i: int| 0 <= i < rest.len() - 2 implies !(#[trigger] rest[i] == '`' && rest[i + 1]
            == '`' && rest[i + 2] == '`') by {
            assert(rest[i] == s[i + 1]);
        }
        lemma_no_run(rest);
    }
}

proof fn lemma_run(s: Seq<char>)
    requires
        forall|i: int| 0 <= i < s.len() ==> s[i] == '`',
    ensures
        fences(s) == s.len() / 3,
    decreases s.len(),
{
    if s.len() >= 3 {
        lemma_run(s.skip(3));
    }
}

/// Backticks alone are a fence for every three of them.
pub proof fn law_run_of_backticks(s: &str, r: usize)
    requires
        forall|i: int| 0 <= i < s@.len() ==> s@[i] == '`',
        call_ensures(count_fences, (s,), r),
    ensures
        r == s@.len() / 3,
{
    lemma_run(s@);
}

/// A character that is no backtick parts a text: the fences on its two sides add up. Together with
/// [`law_run_of_backticks`] this fixes the number of fences of every text.
pub proof fn law_fences_add_up(a: &str, c: char, b: &str, whole: &str, in_a: usize, in_b: usize, r: usize)
    requires
        c != '`',
        whole@ == a@ + seq![c] + b@,
        call_ensures(count_fences, (a,), in_a),
        call_ensures(count_fences, (b,), in_b),
        call_ensures(count_fences, (whole,), r),
    ensures
        r == in_a + in_b,
{
    law_fences_count_apart(a@, c, b@);
}

/// A text ends with a backslash if and only if its last character is one.
pub proof fn law_last_character_decides(s: &str, r: bool)
    requires
        call_ensures(ends_with_backslash, (s,), r),
    ensures
        r <==> s@.len() > 0 && s@[s@.len() - 1] == '\\',
{
}

/// An input goes on if and only if the number of its fences is odd or its last character is a backslash;
/// otherwise it may be handed over, with nothing to show.
pub proof fn law_when_input_goes_on(v: &MultiLineValidator, input: &str, n: usize, r: ValidationResult)
    requires
        call_ensures(count_fences, (input,), n),
        call_ensures(MultiLineValidator::validate, (v, input), r),
    ensures
        n % 2 == 1 || (input@.len() > 0 && input@[input@.len() - 1] == '\\') ==> r
            == ValidationResult::Incomplete,
        n % 2 == 0 && !(input@.len() > 0 && input@[input@.len() - 1] == '\\') ==> r
            == ValidationResult::Valid(None),
{
}

/// An input without three backticks in a row goes on if and only if its last character is a backslash;
/// otherwise it may be handed over, with nothing to show.
pub proof fn law_input_without_fences(v: &MultiLineValidator, input: &str, r: ValidationResult)
    requires
        forall|i: int|
            0 <= i < input@.len() - 2 ==> !(#[trigger] input@[i] == '`' && input@[i + 1] == '`' && input@[i + 2]
                == '`'),
        call_ensures(MultiLineValidator::validate, (v, input), r),
    ensures
        input@.len() > 0 && input@[input@.len() - 1] == '\\' ==> r == ValidationResult::Incomplete,
        !(input@.len() > 0 && input@[input@.len() - 1] == '\\') ==> r == ValidationResult::Valid(None),
{
    lemma_no_run(input@);
}

/// With a fence on a line of its own behind it, an input that ends otherwise than with a backslash may be
/// handed over if and only if it went on before.
pub proof fn law_closing_fence(
    v: &MultiLineValidator,
    input: &str,
    fenced: &str,
    before: ValidationResult,
    after: ValidationResult,
)
    requires
        !(input@.len() > 0 && input@[input@.len() - 1] == '\\'),
        fenced@ == input@ + seq!['\n', '`', '`', '`'],
        call_ensures(MultiLineValidator::validate, (v, input), before),
        call_ensures(MultiLineValidator::validate, (v, fenced), after),
    ensures
        before is Incomplete <==> after == ValidationResult::Valid(None),
        before == ValidationResult::Valid(None) <==> after is Incomplete,
{
    law_fence_line_toggles(input@);
}

} // verus!
