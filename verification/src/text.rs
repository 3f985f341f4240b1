//! Decimal rendering of integers and the rule by which `core::fmt` fills a
//! bounded text buffer piece by piece.

use vstd::prelude::*;
use vstd::utf8::{is_ascii_chars, valid_utf8};
use vstd::string::StringSliceAdditionalSpecFns;

verus! {

/// The ASCII character of a decimal digit `d` (`0 <= d < 10`).
pub open spec fn digit_char(d: int) -> char {
    (48 + d) as char
}

/// The decimal digits of `n`, most significant first, as `Display` writes them.
pub open spec fn decimal_chars(n: nat) -> Seq<char>
    decreases n,
{
    if n < 10 {
        seq![digit_char(n as int)]
    } else {
        decimal_chars(n / 10).push(digit_char((n % 10) as int))
    }
}

/// `10` to the power `k`.
pub open spec fn pow10(k: nat) -> nat
    decreases k,
{
    if k == 0 {
        1
    } else {
        10 * pow10((k - 1) as nat)
    }
}

/// A number below `10^k` has at most `k` decimal digits, and its digits are
/// ASCII.
pub proof fn lemma_decimal_chars_shape(n: nat, k: nat)
    requires
        k >= 1,
        n < pow10(k),
    ensures
        1 <= decimal_chars(n).len() <= k,
        is_ascii_chars(decimal_chars(n)),
    decreases n,
{
    reveal_with_fuel(pow10, 2);
    assert(pow10(1) == 10);
    if n >= 10 {
        assert(k >= 2) by {
            if k == 1 {
                assert(n < 10);
            }
        }
        assert(n / 10 < pow10((k - 1) as nat));
        lemma_decimal_chars_shape(n / 10, (k - 1) as nat);
        let prev = decimal_chars(n / 10);
        let c = digit_char((n % 10) as int);
        assert(decimal_chars(n) == prev.push(c));
        assert forall|i| 0 <= i < prev.push(c).len() implies '\0' <= #[trigger] prev.push(c)[i]
            <= '\u{7f}' by {
            if i < prev.len() {
                assert(prev.push(c)[i] == prev[i]);
            }
        }
    }
}

/// The text that `Display` writes for the signed integer `v`.
pub open spec fn signed_decimal_chars(v: int) -> Seq<char> {
    if v < 0 {
        seq!['-'] + decimal_chars((-v) as nat)
    } else {
        decimal_chars(v as nat)
    }
}

/// What a formatter has written into a buffer of `cap` bytes after it was
/// handed `pieces` one after the other, and whether it is still writing: a
/// piece goes in whole when it fits, and the first piece that does not fit
/// ends the writing (later pieces are not written).
pub open spec fn fill_state(pieces: Seq<Seq<u8>>, cap: nat) -> (Seq<u8>, bool)
    decreases pieces.len(),
{
    if pieces.len() == 0 {
        (Seq::<u8>::empty(), true)
    } else {
        let (acc, writing) = fill_state(pieces.drop_last(), cap);
        let p = pieces.last();
        if writing && acc.len() + p.len() <= cap {
            (acc + p, true)
        } else {
            (acc, false)
        }
    }
}

/// The bytes a bounded buffer of `cap` bytes holds once `pieces` were written.
pub open spec fn formatted(pieces: Seq<Seq<u8>>, cap: nat) -> Seq<u8> {
    fill_state(pieces, cap).0
}

/// Whatever is written, a bounded buffer never holds more than its capacity.
pub proof fn lemma_formatted_within_capacity(pieces: Seq<Seq<u8>>, cap: nat)
    ensures
        formatted(pieces, cap).len() <= cap,
    decreases pieces.len(),
{
    if pieces.len() > 0 {
        lemma_formatted_within_capacity(pieces.drop_last(), cap);
    }
}

/// Appends one character to a `String`.
#[verifier::external_body]
pub(crate) fn string_push(s: &mut String, c: char)
    ensures
        final(s)@ == old(s)@.push(c),
{
    s.push(c)
}

/// The character of a decimal digit.
pub fn digit_to_char(d: u64) -> (c: char)
    requires
        d < 10,
    ensures
        c == digit_char(d as int),
{
    let b: u8 = 48u8 + (d as u8);
    b as char
}

/// Appends the decimal digits of `n` to `s`.
pub fn push_decimal(s: &mut String, n: u64)
    ensures
        final(s)@ == old(s)@ + decimal_chars(n as nat),
    decreases n,
{
    if n >= 10 {
        push_decimal(s, n / 10);
    }
    let c = digit_to_char(n % 10);
    string_push(s, c);
    proof {
        if n >= 10 {
            assert(decimal_chars(n as nat) == decimal_chars((n / 10) as nat).push(digit_char((n % 10) as int)));
        } else {
            assert(decimal_chars(n as nat) == seq![digit_char(n as int)]);
        }
    }
}

/// The decimal text of an unsigned integer.
pub fn decimal_string(n: u64) -> (s: String)
    ensures
        s@ == decimal_chars(n as nat),
{
    let mut s = String::new();
    push_decimal(&mut s, n);
    s
}

/// The decimal text of a signed integer, with a leading `-` when negative.
pub fn signed_decimal_string(v: i64) -> (s: String)
    ensures
        s@ == signed_decimal_chars(v as int),
{
    let mut s = String::new();
    if v < 0 {
        string_push(&mut s, '-');
        let magnitude: u64 = if v == i64::MIN {
            9223372036854775808u64
        } else {
            (-v) as u64
        };
        push_decimal(&mut s, magnitude);
    } else {
        push_decimal(&mut s, v as u64);
    }
    s
}

/// `core::str::from_utf8`: the bytes as a string slice when they are valid
/// UTF-8, nothing otherwise.
#[verifier::external_body]
pub(crate) fn str_from_utf8(v: &[u8]) -> (r: Option<&str>)
    ensures
        match r {
            Some(t) => t.spec_bytes() == v@ && valid_utf8(v@),
            None => !valid_utf8(v@),
        },
{
    match core::str::from_utf8(v) {
        Ok(t) => Some(t),
        Err(_) => None,
    }
}

/// Length of the longest prefix of `s` that is valid UTF-8.
pub open spec fn max_valid_prefix(s: Seq<u8>) -> nat
    decreases s.len(),
{
    if valid_utf8(s) || s.len() == 0 {
        s.len()
    } else {
        max_valid_prefix(s.drop_last())
    }
}

/// The longest valid prefix is a prefix, and it is valid UTF-8.
pub proof fn lemma_max_valid_prefix(s: Seq<u8>)
    ensures
        max_valid_prefix(s) <= s.len(),
        valid_utf8(s.take(max_valid_prefix(s) as int)),
    decreases s.len(),
{
    if valid_utf8(s) || s.len() == 0 {
        assert(s.take(s.len() as int) =~= s);
        if s.len() == 0 {
            assert(valid_utf8(s));
        }
    } else {
        lemma_max_valid_prefix(s.drop_last());
        assert(s.drop_last().take(max_valid_prefix(s) as int) =~= s.take(max_valid_prefix(s) as int));
    }
}

/// The text of the bytes `s` read as UTF-8, each byte that breaks the
/// encoding left out: the longest valid prefix, then the first byte after it
/// dropped, and the rest read the same way.
pub open spec fn utf8_clean(s: Seq<u8>) -> Seq<u8>
    decreases s.len(),
{
    if max_valid_prefix(s) >= s.len() {
        s
    } else {
        s.take(max_valid_prefix(s) as int) + utf8_clean(s.skip((max_valid_prefix(s) + 1) as int))
    }
}

/// Reading bytes as UTF-8 keeps valid text as it is.
pub proof fn lemma_utf8_clean_valid(s: Seq<u8>)
    requires
        valid_utf8(s),
    ensures
        utf8_clean(s) == s,
{
}

/// A byte that starts no valid UTF-8 text is dropped, and what follows it is
/// read as usual: nothing after it is lost.
pub proof fn lemma_utf8_clean_drops_orphan(b: u8, c: Seq<u8>)
    requires
        max_valid_prefix(seq![b] + c) == 0,
    ensures
        utf8_clean(seq![b] + c) == utf8_clean(c),
{
    assert((seq![b] + c).skip(1) =~= c);
    assert((seq![b] + c).take(0) + utf8_clean(c) =~= utf8_clean(c));
}

/// A continuation byte (0x80 to 0xBF), such as the rest of a character whose
/// first byte was overwritten, starts no valid UTF-8 text.
pub proof fn lemma_continuation_starts_nothing(s: Seq<u8>)
    requires
        s.len() > 0,
        0x80 <= s[0] <= 0xbf,
    ensures
        max_valid_prefix(s) == 0,
    decreases s.len(),
{
    assert(!valid_utf8(s));
    assert(max_valid_prefix(s) == max_valid_prefix(s.drop_last()));
    if s.len() > 1 {
        lemma_continuation_starts_nothing(s.drop_last());
    } else {
        assert(s.drop_last().len() == 0);
        assert(max_valid_prefix(s.drop_last()) == 0);
    }
}

/// Text that starts with the orphan rest of a cut character reads as the
/// text after it: the orphan byte is the only one left out.
pub proof fn lemma_utf8_clean_after_cut(b: u8, c: Seq<u8>)
    requires
        0x80 <= b <= 0xbf,
        valid_utf8(c),
    ensures
        utf8_clean(seq![b] + c) == c,
{
    lemma_continuation_starts_nothing(seq![b] + c);
    lemma_utf8_clean_drops_orphan(b, c);
    lemma_utf8_clean_valid(c);
}

/// Reading bytes as UTF-8 never lengthens them.
pub proof fn lemma_utf8_clean_len(s: Seq<u8>)
    ensures
        utf8_clean(s).len() <= s.len(),
    decreases s.len(),
{
    lemma_max_valid_prefix(s);
    if max_valid_prefix(s) < s.len() {
        lemma_utf8_clean_len(s.skip((max_valid_prefix(s) + 1) as int));
    }
}

/// `Utf8Error::valid_up_to` of the error that `core::str::from_utf8` returns
/// for bytes that are not valid UTF-8: the length of the longest prefix of `v`
/// that is valid UTF-8.
#[verifier::external_body]
pub(crate) fn utf8_error_valid_up_to(v: &[u8]) -> (n: usize)
    requires
        !valid_utf8(v@),
    ensures
        n == max_valid_prefix(v@),
{
    match core::str::from_utf8(v) {
        Ok(_) => 0,
        Err(e) => e.valid_up_to(),
    }
}

} // verus!
