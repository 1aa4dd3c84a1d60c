//! Character-level scanning: decimal digit strings and splitting a
//! character sequence on a separator, with the executable scanners the
//! parsers are built from.

use vstd::prelude::*;

verus! {

/// A decimal digit character.
pub open spec fn is_digit(c: char) -> bool {
    '0' <= c && c <= '9'
}

/// Numeric value of a digit character.
pub open spec fn digit_val(c: char) -> nat
    recommends
        is_digit(c),
{
    (c as int - '0' as int) as nat
}

/// Digit character for a value below ten.
pub open spec fn digit_char(d: nat) -> char
    recommends
        d < 10,
{
    seq!['0', '1', '2', '3', '4', '5', '6', '7', '8', '9'][d as int]
}

/// The canonical decimal rendering of a natural number, most
/// significant digit first, with no leading zeros (except for zero
/// itself).
pub open spec fn dec_digits(n: nat) -> Seq<char>
    decreases n,
{
    if n < 10 {
        seq![digit_char(n)]
    } else {
        dec_digits(n / 10).push(digit_char(n % 10))
    }
}

pub open spec fn all_digits(s: Seq<char>) -> bool {
    forall|i: int| 0 <= i < s.len() ==> is_digit(#[trigger] s[i])
}

/// Value of a digit string read most significant digit first.
pub open spec fn seg_val(s: Seq<char>) -> nat
    recommends
        all_digits(s),
    decreases s.len(),
{
    if s.len() == 0 {
        0
    } else {
        seg_val(s.drop_last()) * 10 + digit_val(s.last())
    }
}

/// Index of the first occurrence of `sep` in `s`, if any.
pub open spec fn first_index_of(s: Seq<char>, sep: char) -> Option<int>
    decreases s.len(),
{
    if s.len() == 0 {
        None
    } else if s[0] == sep {
        Some(0)
    } else {
        match first_index_of(s.drop_first(), sep) {
            None => None,
            Some(i) => Some(i + 1),
        }
    }
}

/// Splits `s` at every occurrence of `sep`; separators are dropped.
/// The result always has at least one segment, and splitting a
/// sequence without `sep` yields that sequence alone.
pub open spec fn split_on(s: Seq<char>, sep: char) -> Seq<Seq<char>>
    decreases s.len(),
{
    match first_index_of(s, sep) {
        None => seq![s],
        Some(i) => if 0 <= i < s.len() {
            seq![s.take(i)] + split_on(s.skip(i + 1), sep)
        } else {
            seq![s]
        },
    }
}

/// `first_index_of` finds nothing exactly when nothing is there.
pub proof fn lemma_first_index_none(s: Seq<char>, sep: char)
    requires
        forall|k: int| 0 <= k < s.len() ==> s[k] != sep,
    ensures
        first_index_of(s, sep) is None,
    decreases s.len(),
{
    if s.len() > 0 {
        assert(forall|k: int| 0 <= k < s.drop_first().len() ==> s.drop_first()[k] != sep);
        lemma_first_index_none(s.drop_first(), sep);
    }
}

/// `first_index_of` returns the first occurrence.
pub proof fn lemma_first_index_some(s: Seq<char>, sep: char, i: int)
    requires
        0 <= i < s.len(),
        s[i] == sep,
        forall|k: int| 0 <= k < i ==> s[k] != sep,
    ensures
        first_index_of(s, sep) == Some(i),
    decreases s.len(),
{
    if i > 0 {
        assert(s.drop_first()[i - 1] == sep);
        assert(forall|k: int| 0 <= k < i - 1 ==> s.drop_first()[k] != sep);
        lemma_first_index_some(s.drop_first(), sep, i - 1);
    }
}

/// Splitting a sequence free of the separator yields one segment.
pub proof fn lemma_split_whole(s: Seq<char>, sep: char)
    requires
        forall|k: int| 0 <= k < s.len() ==> s[k] != sep,
    ensures
        split_on(s, sep) == seq![s],
{
    lemma_first_index_none(s, sep);
}

/// Splitting at a known first separator peels off one segment.
pub proof fn lemma_split_step(s: Seq<char>, sep: char, i: int)
    requires
        0 <= i < s.len(),
        s[i] == sep,
        forall|k: int| 0 <= k < i ==> s[k] != sep,
    ensures
        split_on(s, sep) == seq![s.take(i)] + split_on(s.skip(i + 1), sep),
{
    lemma_first_index_some(s, sep, i);
}

/// A split has at least one segment.
pub proof fn lemma_split_len(s: Seq<char>, sep: char)
    ensures
        split_on(s, sep).len() >= 1,
{
}

/// A decimal rendering is a non-empty string of digits.
pub proof fn lemma_dec_digits_digits(n: nat)
    ensures
        dec_digits(n).len() >= 1,
        all_digits(dec_digits(n)),
    decreases n,
{
    if n < 10 {
        assert(is_digit(digit_char(n)));
    } else {
        lemma_dec_digits_digits(n / 10);
        assert(is_digit(digit_char(n % 10)));
    }
}

/// Reading a decimal rendering back gives the number.
pub proof fn lemma_dec_digits_val(n: nat)
    ensures
        seg_val(dec_digits(n)) == n,
    decreases n,
{
    if n < 10 {
        let s = dec_digits(n);
        assert(s.drop_last() =~= Seq::<char>::empty());
        assert(s.last() == digit_char(n));
        assert(seg_val(s.drop_last()) == 0);
        assert(digit_val(digit_char(n)) == n);
    } else {
        lemma_dec_digits_val(n / 10);
        let s = dec_digits(n);
        assert(s.drop_last() =~= dec_digits(n / 10));
        assert(s.last() == digit_char(n % 10));
        assert(digit_val(digit_char(n % 10)) == n % 10);
        assert(seg_val(s) == (n / 10) * 10 + n % 10);
        assert((n / 10) * 10 + n % 10 == n) by {
            vstd::arithmetic::div_mod::lemma_fundamental_div_mod(n as int, 10);
        }
    }
}

/// Splitting a sequence that starts with a separator-free prefix,
/// then the separator, peels the prefix off as the first segment.
pub proof fn lemma_split_concat(a: Seq<char>, rest: Seq<char>, sep: char)
    requires
        forall|k: int| 0 <= k < a.len() ==> a[k] != sep,
    ensures
        split_on(a + seq![sep] + rest, sep) == seq![a] + split_on(rest, sep),
{
    let s = a + seq![sep] + rest;
    assert(s[a.len() as int] == sep);
    assert(forall|k: int| 0 <= k < a.len() ==> s[k] == a[k]);
    lemma_split_step(s, sep, a.len() as int);
    assert(s.take(a.len() as int) =~= a);
    assert(s.skip(a.len() as int + 1) =~= rest);
}

/// The reading of `s` as an unsigned decimal number: defined when `s`
/// is non-empty, all digits, and its value fits.
pub open spec fn spec_parse_u32(s: Seq<char>) -> Option<u32> {
    if s.len() > 0 && all_digits(s) && seg_val(s) <= u32::MAX {
        Some(seg_val(s) as u32)
    } else {
        None
    }
}

/// A longer digit string reads as at least as large a value.
proof fn lemma_seg_val_monotone(s: Seq<char>, i: int)
    requires
        0 <= i < s.len(),
    ensures
        seg_val(s.take(i + 1)) >= seg_val(s.take(i)),
{
    assert(s.take(i + 1).drop_last() =~= s.take(i));
}

/// Parses `s` as an unsigned decimal number, exactly when `s` is a
/// non-empty string of digits whose value fits.
pub fn parse_u32_str(s: &str) -> (r: Option<u32>)
    ensures
        r == spec_parse_u32(s@),
{
    let len = s.unicode_len();
    if len == 0 {
        return None;
    }
    let mut val: u64 = 0;
    let mut overflow = false;
    let mut i: usize = 0;
    while i < len
        invariant
            0 < len == s@.len(),
            0 <= i <= len,
            all_digits(s@.take(i as int)),
            !overflow ==> val == seg_val(s@.take(i as int)) && val <= u32::MAX,
            overflow ==> seg_val(s@.take(i as int)) > u32::MAX,
        decreases len - i,
    {
        let c = s.get_char(i);
        if !(c >= '0' && c <= '9') {
            assert(!is_digit(s@[i as int]));
            return None;
        }
        let d: u32 = (c as u32) - ('0' as u32);
        proof {
            assert(s@.take(i + 1).drop_last() =~= s@.take(i as int));
            assert(s@.take(i + 1).last() == s@[i as int]);
            assert(d == digit_val(c));
        }
        if !overflow {
            let next: u64 = val * 10 + (d as u64);
            if next <= u32::MAX as u64 {
                val = next;
            } else {
                overflow = true;
            }
        } else {
            proof {
                lemma_seg_val_monotone(s@, i as int);
            }
        }
        i = i + 1;
    }
    proof {
        assert(s@.take(len as int) =~= s@);
    }
    if overflow {
        None
    } else {
        Some(val as u32)
    }
}

/// First index of `c` in `s` at or after `from`; the length of `s`
/// when `c` does not occur there.
pub fn find_char_from(s: &str, from: usize, c: char) -> (r: usize)
    requires
        from <= s@.len(),
    ensures
        from <= r <= s@.len(),
        forall|k: int| from <= k < r ==> s@[k] != c,
        r < s@.len() ==> s@[r as int] == c,
{
    let len = s.unicode_len();
    let mut i = from;
    while i < len
        invariant
            from <= i <= len,
            len == s@.len(),
            forall|k: int| from <= k < i ==> s@[k] != c,
        decreases len - i,
    {
        if s.get_char(i) == c {
            return i;
        }
        i = i + 1;
    }
    i
}

} // verus!
