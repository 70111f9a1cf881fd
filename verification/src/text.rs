//! Text as the rest of the crate reads it: prefixes, byte offsets, order and numbers.

use vstd::prelude::*;
use vstd::utf8::*;

verus! {

// ---------------------------------------------------------------------------------------------
// Lists of texts
// ---------------------------------------------------------------------------------------------

/// The texts that a list of borrowed strings holds.
pub open spec fn texts(list: Seq<&'static str>) -> Seq<Seq<char>> {
    Seq::new(list.len(), |i: int| list[i]@)
}

/// The texts that a list of owned strings holds.
pub open spec fn owned_texts(list: Seq<String>) -> Seq<Seq<char>> {
    Seq::new(list.len(), |i: int| list[i]@)
}

/// The text of an optional string.
pub open spec fn opt_text(s: Option<String>) -> Option<Seq<char>> {
    match s {
        Some(s) => Some(s@),
        None => None,
    }
}

// ---------------------------------------------------------------------------------------------
// Prefixes
// ---------------------------------------------------------------------------------------------

/// Whether `s` begins with `prefix`.
pub fn has_prefix(s: &str, prefix: &str) -> (r: bool)
    ensures
        r == prefix@.is_prefix_of(s@),
{
    let mut wanted = prefix.chars();
    let mut found = s.chars();
    let ghost mut i: int = 0;
    loop
        invariant
            0 <= i <= prefix@.len(),
            i <= s@.len(),
            vstd::std_specs::iter::IteratorSpec::remaining(&wanted) == prefix@.skip(i),
            vstd::std_specs::iter::IteratorSpec::remaining(&found) == s@.skip(i),
            prefix@.take(i) == s@.take(i),
        decreases prefix@.len() - i,
    {
        match wanted.next() {
            None => {
                assert(prefix@.take(i) == prefix@);
                return true;
            },
            Some(c) => match found.next() {
                None => {
                    return false;
                },
                Some(d) => {
                    assert(c == prefix@[i]);
                    assert(d == s@[i]);
                    if c != d {
                        assert(prefix@.is_prefix_of(s@) ==> prefix@[i] == s@.subrange(
                            0,
                            prefix@.len() as int,
                        )[i]);
                        return false;
                    }
                    proof {
                        assert(prefix@.take(i + 1) == prefix@.take(i).push(c));
                        assert(s@.take(i + 1) == s@.take(i).push(d));
                        assert(prefix@.skip(i).drop_first() == prefix@.skip(i + 1));
                        assert(s@.skip(i).drop_first() == s@.skip(i + 1));
                        i = i + 1;
                    }
                },
            },
        }
    }
}

/// Whether the first character of `s` is `c`.
pub fn begins_with(s: &str, c: char) -> (r: bool)
    ensures
        r == (s@.len() > 0 && s@[0] == c),
{
    match s.chars().next() {
        Some(first) => first == c,
        None => false,
    }
}

/// Whether `a` and `b` are the same text.
pub fn is_same(a: &str, b: &str) -> (r: bool)
    ensures
        r == (a@ == b@),
{
    let r = has_prefix(a, b) && has_prefix(b, a);
    proof {
        if a@.len() == b@.len() {
            assert(a@.subrange(0, b@.len() as int) =~= a@);
            assert(b@.subrange(0, a@.len() as int) =~= b@);
        }
    }
    r
}

/// `s` without its first character, as a string of its own.
pub fn text_after_first(s: &str) -> (r: String)
    requires
        s@.len() > 0,
    ensures
        r@ == s@.drop_first(),
{
    s.substring_char(1, s.unicode_len()).to_owned()
}

// ---------------------------------------------------------------------------------------------
// Byte offsets
// ---------------------------------------------------------------------------------------------

/// The bytes of a text.
pub open spec fn bytes(s: Seq<char>) -> Seq<u8> {
    encode_utf8(s)
}

/// The part of `s` before byte offset `at`.
pub open spec fn head_at(s: Seq<char>, at: int) -> Seq<char> {
    decode_utf8(bytes(s).subrange(0, at))
}

/// The part of `s` from byte offset `at` on.
pub open spec fn tail_at(s: Seq<char>, at: int) -> Seq<char> {
    decode_utf8(bytes(s).subrange(at, bytes(s).len() as int))
}

/// Whether byte offset `at` of `s` lies between two characters, or at an end of `s`.
pub open spec fn is_boundary(s: Seq<char>, at: int) -> bool {
    is_char_boundary(bytes(s), at)
}

/// The bytes of a text put together are those of its parts put together.
pub proof fn lemma_bytes_concat(a: Seq<char>, b: Seq<char>)
    ensures
        bytes(a + b) == bytes(a) + bytes(b),
    decreases a.len(),
{
    if a.len() == 0 {
        assert(a + b =~= b);
    } else {
        assert((a + b).drop_first() =~= a.drop_first() + b);
        lemma_bytes_concat(a.drop_first(), b);
        assert(bytes(a + b) =~= bytes(a) + bytes(b));
    }
}

/// A text has at least as many bytes as characters.
pub proof fn lemma_bytes_len(a: Seq<char>)
    ensures
        bytes(a).len() >= a.len(),
    decreases a.len(),
{
    if a.len() > 0 {
        lemma_bytes_len(a.drop_first());
    }
}

/// Where one text ends and another begins, the text put together has a boundary.
pub proof fn lemma_boundary_concat(a: Seq<char>, b: Seq<char>)
    ensures
        is_boundary(a + b, bytes(a).len() as int),
    decreases a.len(),
{
    encode_utf8_valid_utf8(a + b);
    if a.len() > 0 {
        assert((a + b).drop_first() =~= a.drop_first() + b);
        encode_utf8_first_scalar(a + b);
        lemma_bytes_concat(a, b);
        assert(pop_first_scalar(bytes(a + b)) =~= bytes(a.drop_first() + b));
        lemma_boundary_concat(a.drop_first(), b);
    }
}

/// Both ends of a text are boundaries: a cursor may stand at either end of any line.
pub proof fn law_ends_are_boundaries(s: Seq<char>)
    ensures
        is_boundary(s, 0),
        is_boundary(s, bytes(s).len() as int),
{
    encode_utf8_valid_utf8(s);
    is_char_boundary_start_end_of_seq(bytes(s));
}

/// A text splits at the byte length of a prefix into that prefix and the rest.
pub proof fn lemma_split_at_prefix(s: Seq<char>, prefix: Seq<char>)
    requires
        prefix.is_prefix_of(s),
    ensures
        is_boundary(s, bytes(prefix).len() as int),
        head_at(s, bytes(prefix).len() as int) == prefix,
        tail_at(s, bytes(prefix).len() as int) == s.skip(prefix.len() as int),
        bytes(s).len() == bytes(prefix).len() + bytes(s.skip(prefix.len() as int)).len(),
{
    let rest = s.skip(prefix.len() as int);
    assert(s =~= prefix + rest);
    lemma_bytes_concat(prefix, rest);
    lemma_boundary_concat(prefix, rest);
    encode_utf8_decode_utf8(prefix);
    encode_utf8_decode_utf8(rest);
    assert(bytes(s).subrange(0, bytes(prefix).len() as int) =~= bytes(prefix));
    assert(bytes(s).subrange(bytes(prefix).len() as int, bytes(s).len() as int) =~= bytes(rest));
}

/// A text splits at a boundary into what stands before it and what stands from it on.
pub proof fn lemma_split_at_boundary(s: Seq<char>, at: int)
    requires
        is_boundary(s, at),
    ensures
        0 <= at <= bytes(s).len(),
        s == head_at(s, at) + tail_at(s, at),
        bytes(head_at(s, at)).len() == at,
{
    encode_utf8_valid_utf8(s);
    encode_utf8_decode_utf8(s);
    lemma_boundary_in_range(bytes(s), at);
    valid_utf8_split(bytes(s), at);
    decode_utf8_split(bytes(s), at);
    decode_utf8_encode_utf8(bytes(s).subrange(0, at));
}

proof fn lemma_boundary_in_range(b: Seq<u8>, at: int)
    requires
        valid_utf8(b),
        is_char_boundary(b, at),
    ensures
        0 <= at <= b.len(),
{
}

/// The number of bytes of `s`.
pub fn byte_len(s: &str) -> (r: usize)
    ensures
        r == bytes(s@).len(),
{
    s.as_bytes().len()
}

/// The part of `s` from byte offset `at` on, as a string of its own.
pub fn text_from(s: &str, at: usize) -> (r: String)
    requires
        is_boundary(s@, at as int),
    ensures
        r@ == tail_at(s@, at as int),
{
    let tail = s.split_at(at).1;
    proof {
        encode_utf8_decode_utf8(tail@);
    }
    tail.to_owned()
}

// ---------------------------------------------------------------------------------------------
// Order
// ---------------------------------------------------------------------------------------------

/// The order of strings: by code points, the first difference deciding.
pub open spec fn not_after(a: Seq<char>, b: Seq<char>) -> bool
    decreases a.len(),
{
    a.len() == 0 || (b.len() > 0 && (a[0] < b[0] || (a[0] == b[0] && not_after(
        a.drop_first(),
        b.drop_first(),
    ))))
}

/// Whether every text of a list comes before those that follow it, or equals them.
pub open spec fn in_order(list: Seq<Seq<char>>) -> bool {
    forall|i: int, j: int| 0 <= i <= j < list.len() ==> not_after(#[trigger] list[i], #[trigger] list[j])
}

pub proof fn lemma_not_after_reflexive(a: Seq<char>)
    ensures
        not_after(a, a),
    decreases a.len(),
{
    if a.len() > 0 {
        lemma_not_after_reflexive(a.drop_first());
    }
}

pub proof fn lemma_not_after_total(a: Seq<char>, b: Seq<char>)
    ensures
        not_after(a, b) || not_after(b, a),
    decreases a.len(),
{
    if a.len() > 0 && b.len() > 0 {
        lemma_not_after_total(a.drop_first(), b.drop_first());
    }
}

pub proof fn lemma_not_after_transitive(a: Seq<char>, b: Seq<char>, c: Seq<char>)
    requires
        not_after(a, b),
        not_after(b, c),
    ensures
        not_after(a, c),
    decreases a.len(),
{
    if a.len() > 0 && a[0] == b[0] && b[0] == c[0] {
        lemma_not_after_transitive(a.drop_first(), b.drop_first(), c.drop_first());
    }
}

pub proof fn lemma_not_after_antisymmetric(a: Seq<char>, b: Seq<char>)
    requires
        not_after(a, b),
        not_after(b, a),
    ensures
        a == b,
    decreases a.len(),
{
    if a.len() > 0 {
        lemma_not_after_antisymmetric(a.drop_first(), b.drop_first());
        assert(a =~= seq![a[0]] + a.drop_first());
        assert(b =~= seq![b[0]] + b.drop_first());
    } else {
        assert(a =~= b);
    }
}

/// Whether `a` comes before `b` in the order of strings, or equals it.
pub fn is_not_after(a: &str, b: &str) -> (r: bool)
    ensures
        r == not_after(a@, b@),
{
    let mut left = a.chars();
    let mut right = b.chars();
    let ghost mut i: int = 0;
    loop
        invariant
            0 <= i <= a@.len(),
            i <= b@.len(),
            vstd::std_specs::iter::IteratorSpec::remaining(&left) == a@.skip(i),
            vstd::std_specs::iter::IteratorSpec::remaining(&right) == b@.skip(i),
            not_after(a@, b@) == not_after(a@.skip(i), b@.skip(i)),
        decreases a@.len() - i,
    {
        match left.next() {
            None => {
                return true;
            },
            Some(c) => match right.next() {
                None => {
                    return false;
                },
                Some(d) => {
                    assert(c == a@.skip(i)[0]);
                    assert(d == b@.skip(i)[0]);
                    if c < d {
                        return true;
                    }
                    if d < c {
                        return false;
                    }
                    proof {
                        assert(a@.skip(i).drop_first() == a@.skip(i + 1));
                        assert(b@.skip(i).drop_first() == b@.skip(i + 1));
                        i = i + 1;
                    }
                },
            },
        }
    }
}

// ---------------------------------------------------------------------------------------------
// Numbers
// ---------------------------------------------------------------------------------------------

/// The digit that stands for `d`, which is below ten.
pub open spec fn digit(d: nat) -> char {
    ('0' as nat + d) as char
}

/// The decimal numeral of `n`, without leading zeros.
pub open spec fn decimal(n: nat) -> Seq<char>
    decreases n,
{
    if n < 10 {
        seq![digit(n)]
    } else {
        decimal(n / 10).push(digit(n % 10))
    }
}

fn digit_text(d: u32) -> (r: &'static str)
    requires
        d < 10,
    ensures
        r@ == seq![digit(d as nat)],
{
    proof {
        reveal_strlit("0");
        reveal_strlit("1");
        reveal_strlit("2");
        reveal_strlit("3");
        reveal_strlit("4");
        reveal_strlit("5");
        reveal_strlit("6");
        reveal_strlit("7");
        reveal_strlit("8");
        reveal_strlit("9");
    }
    if d == 0 {
        "0"
    } else if d == 1 {
        "1"
    } else if d == 2 {
        "2"
    } else if d == 3 {
        "3"
    } else if d == 4 {
        "4"
    } else if d == 5 {
        "5"
    } else if d == 6 {
        "6"
    } else if d == 7 {
        "7"
    } else if d == 8 {
        "8"
    } else {
        "9"
    }
}

/// Writes the decimal numeral of `n` behind `out`.
pub fn push_decimal(out: &mut String, n: u32)
    ensures
        final(out)@ == old(out)@ + decimal(n as nat),
    decreases n,
{
    if n >= 10 {
        push_decimal(out, n / 10);
    }
    out.append(digit_text(n % 10));
    assert(out@ =~= old(out)@ + decimal(n as nat));
}

// ---------------------------------------------------------------------------------------------
// What holds of all texts
// ---------------------------------------------------------------------------------------------

/// The order of strings is that of a dictionary over code points: of two texts the one that begins the
/// other comes first, and otherwise the first place at which they differ decides.
pub proof fn law_order_is_by_first_difference(a: &str, b: &str, r: bool)
    requires
        call_ensures(is_not_after, (a, b), r),
    ensures
        r <==> a@.is_prefix_of(b@) || exists|k: int|
            0 <= k < a@.len() && k < b@.len() && a@.take(k) == b@.take(k) && #[trigger] a@[k] < b@[k],
{
    lemma_first_difference(a@, b@);
}

/// The order of strings, by the first difference.
pub proof fn lemma_first_difference(a: Seq<char>, b: Seq<char>)
    ensures
        not_after(a, b) <==> a.is_prefix_of(b) || exists|k: int|
            0 <= k < a.len() && k < b.len() && a.take(k) == b.take(k) && #[trigger] a[k] < b[k],
    decreases a.len(),
{
    if a.len() == 0 {
        assert(a =~= b.subrange(0, 0));
    } else if b.len() > 0 {
        let x = a.drop_first();
        let y = b.drop_first();
        lemma_first_difference(x, y);
        if a[0] == b[0] {
            if x.is_prefix_of(y) {
                assert forall|i: int| 0 <= i < a.len() implies a[i] == b[i] by {
                    if i > 0 {
                        assert(x[i - 1] == y.subrange(0, x.len() as int)[i - 1]);
                    }
                }
                assert(a =~= b.subrange(0, a.len() as int));
            }
            if a.is_prefix_of(b) {
                assert forall|i: int| 0 <= i < x.len() implies x[i] == y[i] by {
                    assert(a[i + 1] == b.subrange(0, a.len() as int)[i + 1]);
                }
                assert(x =~= y.subrange(0, x.len() as int));
            }
            if exists|k: int|
                0 <= k < x.len() && k < y.len() && x.take(k) == y.take(k) && #[trigger] x[k] < y[k] {
                let k = choose|k: int|
                    0 <= k < x.len() && k < y.len() && x.take(k) == y.take(k) && #[trigger] x[k] < y[k];
                assert(a.take(k + 1) =~= seq![a[0]] + x.take(k));
                assert(b.take(k + 1) =~= seq![b[0]] + y.take(k));
                assert(a[k + 1] < b[k + 1]);
            }
            if exists|k: int|
                0 <= k < a.len() && k < b.len() && a.take(k) == b.take(k) && #[trigger] a[k] < b[k] {
                let k = choose|k: int|
                    0 <= k < a.len() && k < b.len() && a.take(k) == b.take(k) && #[trigger] a[k] < b[k];
                assert(x.take(k - 1) =~= a.take(k).drop_first());
                assert(y.take(k - 1) =~= b.take(k).drop_first());
                assert(x[k - 1] < y[k - 1]);
            }
        } else {
            if a[0] < b[0] {
                assert(a.take(0) =~= b.take(0));
            }
            if a.is_prefix_of(b) {
                assert(a[0] == b.subrange(0, a.len() as int)[0]);
            }
            if exists|k: int|
                0 <= k < a.len() && k < b.len() && a.take(k) == b.take(k) && #[trigger] a[k] < b[k] {
                let k = choose|k: int|
                    0 <= k < a.len() && k < b.len() && a.take(k) == b.take(k) && #[trigger] a[k] < b[k];
                if k > 0 {
                    assert(a.take(k)[0] == b.take(k)[0]);
                }
            }
        }
    }
}

/// The number that digits stand for, the last one counting ones.
pub open spec fn number_of(digits: Seq<char>) -> int
    decreases digits.len(),
{
    if digits.len() == 0 {
        0
    } else {
        number_of(digits.drop_last()) * 10 + (digits.last() as int - '0' as int)
    }
}

/// Whether `digits` is how `n` is written: in digits that stand for it, without a zero in front of
/// others.
pub open spec fn is_numeral(digits: Seq<char>, n: int) -> bool {
    &&& digits.len() > 0
    &&& forall|i: int| 0 <= i < digits.len() ==> '0' <= #[trigger] digits[i] <= '9'
    &&& number_of(digits) == n
    &&& digits.len() > 1 ==> digits[0] != '0'
}

spec fn last_digit(n: nat) -> char {
    digit(n % 10)
}

/// A decimal numeral is how its number is written.
pub proof fn law_decimal(n: nat)
    ensures
        is_numeral(decimal(n), n as int),
        n > 0 ==> decimal(n)[0] != '0',
    decreases n,
{
    let d = last_digit(n);
    assert('0' <= d <= '9' && d as int - '0' as int == n % 10);
    if n >= 10 {
        law_decimal(n / 10);
        let front = decimal(n / 10);
        assert(decimal(n) == front.push(d));
        assert(decimal(n).drop_last() =~= front);
        assert(decimal(n).last() == d);
        assert(number_of(decimal(n)) == (n / 10) * 10 + n % 10);
    } else {
        assert(decimal(n) == seq![d]);
        assert(decimal(n).drop_last() =~= Seq::empty());
        assert(number_of(decimal(n).drop_last()) == 0);
    }
}

/// A number is written behind what is there, which stays.
pub proof fn law_number_is_written_behind(out: &mut String, n: u32, r: ())
    requires
        call_ensures(push_decimal, (out, n), r),
    ensures
        exists|digits: Seq<char>| final(out)@ == old(out)@ + digits && #[trigger] is_numeral(digits, n as int),
{
    law_decimal(n as nat);
}

/// A text splits at a byte offset into what takes up so many bytes and what is left, which is the part
/// from that offset on.
pub proof fn law_text_from_offset(s: &str, at: usize, r: String, head: Seq<char>, tail: Seq<char>)
    requires
        s@ == head + tail,
        at == encode_utf8(head).len(),
        call_ensures(text_from, (s, at), r),
    ensures
        r@ == tail,
{
    assert(s@.subrange(0, head.len() as int) =~= head);
    lemma_split_at_prefix(s@, head);
    assert(s@.skip(head.len() as int) =~= tail);
}

} // verus!
