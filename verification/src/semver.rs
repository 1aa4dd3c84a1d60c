//! A three-field version number — (major, minor, patch) — with its
//! total order and its canonical text form.

use core::cmp::Ordering;
use vstd::prelude::*;

use crate::text::dec_digits;
use crate::text::digit_char;
use crate::text::find_char_from;
use crate::text::lemma_dec_digits_digits;
use crate::text::lemma_dec_digits_val;
use crate::text::lemma_split_step;
use crate::text::lemma_split_whole;
use crate::text::parse_u32_str;
use crate::text::spec_parse_u32;
use crate::text::split_on;

verus! {

/// A version text did not parse: some taken segment is not a plain
/// decimal number that fits a 32-bit field.
#[derive(Clone, Copy, PartialEq, Eq, Structural, Debug)]
pub struct MalformedVersion;

#[derive(Clone, Copy, PartialEq, Eq, Structural, Debug)]
pub struct SemVer {
    pub major: u32,
    pub minor: u32,
    pub patch: u32,
}

/// Lexicographic order over (major, minor, patch).
pub open spec fn spec_compare(a: SemVer, b: SemVer) -> Ordering {
    if a.major < b.major {
        Ordering::Less
    } else if a.major > b.major {
        Ordering::Greater
    } else if a.minor < b.minor {
        Ordering::Less
    } else if a.minor > b.minor {
        Ordering::Greater
    } else if a.patch < b.patch {
        Ordering::Less
    } else if a.patch > b.patch {
        Ordering::Greater
    } else {
        Ordering::Equal
    }
}

/// The canonical text of a version: `major.minor.patch` in decimal.
pub open spec fn version_chars(v: SemVer) -> Seq<char> {
    dec_digits(v.major as nat) + seq!['.'] + dec_digits(v.minor as nat) + seq!['.'] + dec_digits(
        v.patch as nat,
    )
}

/// The reading of a version text: split on `.`, take up to three
/// segments (extra segments are ignored), each taken segment a decimal
/// number, absent trailing segments zero.
pub open spec fn spec_parse_version(s: Seq<char>) -> Option<SemVer> {
    let segs = split_on(s, '.');
    let major = spec_parse_u32(segs[0]);
    let minor = if segs.len() >= 2 {
        spec_parse_u32(segs[1])
    } else {
        Some(0u32)
    };
    let patch = if segs.len() >= 3 {
        spec_parse_u32(segs[2])
    } else {
        Some(0u32)
    };
    match (major, minor, patch) {
        (Some(a), Some(b), Some(c)) => Some(SemVer { major: a, minor: b, patch: c }),
        _ => None,
    }
}

/// Law: parsing the canonical text of a version gives that version
/// back, for every version.
pub proof fn lemma_format_parse_roundtrip(v: SemVer)
    ensures
        spec_parse_version(version_chars(v)) == Some(v),
{
    let a = dec_digits(v.major as nat);
    let b = dec_digits(v.minor as nat);
    let c = dec_digits(v.patch as nat);
    lemma_dec_digits_digits(v.major as nat);
    lemma_dec_digits_digits(v.minor as nat);
    lemma_dec_digits_digits(v.patch as nat);
    lemma_dec_digits_val(v.major as nat);
    lemma_dec_digits_val(v.minor as nat);
    lemma_dec_digits_val(v.patch as nat);
    assert(forall|k: int| 0 <= k < a.len() ==> a[k] != '.');
    assert(forall|k: int| 0 <= k < b.len() ==> b[k] != '.');
    assert(forall|k: int| 0 <= k < c.len() ==> c[k] != '.');
    assert(version_chars(v) =~= a + seq!['.'] + (b + seq!['.'] + c));
    crate::text::lemma_split_concat(a, b + seq!['.'] + c, '.');
    crate::text::lemma_split_concat(b, c, '.');
    lemma_split_whole(c, '.');
    assert(split_on(version_chars(v), '.') =~= seq![a, b, c]);
    assert(spec_parse_u32(a) == Some(v.major));
    assert(spec_parse_u32(b) == Some(v.minor));
    assert(spec_parse_u32(c) == Some(v.patch));
}

/// Law: every version compares equal to itself.
pub proof fn lemma_compare_reflexive(v: SemVer)
    ensures
        spec_compare(v, v) == Ordering::Equal,
{
}

/// Law: the comparison is a total order. It always yields exactly one
/// of the three outcomes, swapping the arguments swaps `Less` and
/// `Greater`, `Equal` holds exactly between equal versions, and the
/// order is transitive.
pub proof fn lemma_compare_total_order(a: SemVer, b: SemVer, c: SemVer)
    ensures
        spec_compare(a, b) == Ordering::Less || spec_compare(a, b) == Ordering::Equal
            || spec_compare(a, b) == Ordering::Greater,
        spec_compare(a, b) == Ordering::Less <==> spec_compare(b, a) == Ordering::Greater,
        spec_compare(a, b) == Ordering::Equal <==> spec_compare(b, a) == Ordering::Equal,
        spec_compare(a, b) == Ordering::Equal <==> a == b,
        spec_compare(a, b) == Ordering::Less && spec_compare(b, c) == Ordering::Less
            ==> spec_compare(a, c) == Ordering::Less,
{
}

/// The one-character string for a value below ten.
fn digit_str(d: u32) -> (r: &'static str)
    requires
        d < 10,
    ensures
        r@ =~= seq![digit_char(d as nat)],
{
    proof {
        reveal_strlit("0");
        reveal_strlit("1");
        reveal_strlit("2");
        reveal_strlit("3");
        reveal_strlit("4");
        reveal_strlit("5");
        reveal_strlit("6");
        reveal_strlit("7");
        reveal_strlit("8");
        reveal_strlit("9");
    }
    if d == 0 {
        "0"
    } else if d == 1 {
        "1"
    } else if d == 2 {
        "2"
    } else if d == 3 {
        "3"
    } else if d == 4 {
        "4"
    } else if d == 5 {
        "5"
    } else if d == 6 {
        "6"
    } else if d == 7 {
        "7"
    } else if d == 8 {
        "8"
    } else {
        "9"
    }
}

/// Renders `n` in decimal, most significant digit first.
fn u32_to_string(n: u32) -> (r: String)
    ensures
        r@ == dec_digits(n as nat),
    decreases n,
{
    if n < 10 {
        digit_str(n).to_owned()
    } else {
        let mut s = u32_to_string(n / 10);
        s.append(digit_str(n % 10));
        proof {
            assert(s@ =~= dec_digits(n as nat));
        }
        s
    }
}

impl SemVer {
    pub fn new(major: u32, minor: u32, patch: u32) -> (v: SemVer)
        ensures
            v == (SemVer { major, minor, patch }),
    {
        SemVer { major, minor, patch }
    }

    /// Compares major, then minor, then patch; `Equal` only when all
    /// three fields match.
    pub fn compare_versions(first: &SemVer, second: &SemVer) -> (r: Ordering)
        ensures
            r == spec_compare(*first, *second),
    {
        if first.major == second.major && first.minor == second.minor && first.patch
            == second.patch {
            return Ordering::Equal;
        }
        if first.major > second.major {
            return Ordering::Greater;
        } else if second.major > first.major {
            return Ordering::Less;
        }
        if first.minor > second.minor {
            return Ordering::Greater;
        } else if second.minor > first.minor {
            return Ordering::Less;
        }
        if first.patch > second.patch {
            return Ordering::Greater;
        }
        Ordering::Less
    }

    /// Parses a version text: `Ok` exactly when the text reads as a
    /// version (see `spec_parse_version`), `Err` otherwise.
    pub fn from_str(vers_str: &str) -> (r: Result<SemVer, MalformedVersion>)
        ensures
            match r {
                Ok(v) => spec_parse_version(vers_str@) == Some(v),
                Err(_) => spec_parse_version(vers_str@) is None,
            },
    {
        let ghost s = vers_str@;
        let ghost segs = split_on(s, '.');
        let len = vers_str.unicode_len();
        let i1 = find_char_from(vers_str, 0, '.');
        if i1 == len {
            proof {
                lemma_split_whole(s, '.');
                assert(s.subrange(0, i1 as int) =~= s);
            }
            let major = match parse_u32_str(vers_str.substring_char(0, i1)) {
                Some(a) => a,
                None => {
                    return Err(MalformedVersion);
                },
            };
            return Ok(SemVer { major, minor: 0, patch: 0 });
        }
        proof {
            lemma_split_step(s, '.', i1 as int);
            assert(segs[0] == s.take(i1 as int));
            assert(s.subrange(0, i1 as int) =~= s.take(i1 as int));
        }
        let major = match parse_u32_str(vers_str.substring_char(0, i1)) {
            Some(a) => a,
            None => {
                return Err(MalformedVersion);
            },
        };
        let ghost s2 = s.skip(i1 + 1);
        let i2 = find_char_from(vers_str, i1 + 1, '.');
        if i2 == len {
            proof {
                assert forall|k: int| 0 <= k < s2.len() implies s2[k] != '.' by {
                    assert(s2[k] == s[k + i1 + 1]);
                }
                lemma_split_whole(s2, '.');
                assert(segs =~= seq![s.take(i1 as int), s2]);
                assert(s.subrange(i1 + 1, len as int) =~= s2);
            }
            let minor = match parse_u32_str(vers_str.substring_char(i1 + 1, len)) {
                Some(b) => b,
                None => {
                    return Err(MalformedVersion);
                },
            };
            return Ok(SemVer { major, minor, patch: 0 });
        }
        let ghost j2 = i2 - (i1 + 1);
        proof {
            assert(s2[j2 as int] == s[i2 as int]);
            assert forall|k: int| 0 <= k < j2 implies s2[k] != '.' by {
                assert(s2[k] == s[k + i1 + 1]);
            }
            lemma_split_step(s2, '.', j2 as int);
            assert(s2.take(j2 as int) =~= s.subrange(i1 + 1, i2 as int));
            assert(segs[1] == s.subrange(i1 + 1, i2 as int));
        }
        let minor = match parse_u32_str(vers_str.substring_char(i1 + 1, i2)) {
            Some(b) => b,
            None => {
                return Err(MalformedVersion);
            },
        };
        let ghost s3 = s.skip(i2 + 1);
        proof {
            assert(s2.skip(j2 + 1) =~= s3);
            assert(segs.len() >= 3) by {
                crate::text::lemma_split_len(s3, '.');
            }
        }
        let i3 = find_char_from(vers_str, i2 + 1, '.');
        proof {
            if i3 == len {
                assert forall|k: int| 0 <= k < s3.len() implies s3[k] != '.' by {
                    assert(s3[k] == s[k + i2 + 1]);
                }
                lemma_split_whole(s3, '.');
                assert(s3 =~= s.subrange(i2 + 1, i3 as int));
            } else {
                let j3 = i3 - (i2 + 1);
                assert(s3[j3 as int] == s[i3 as int]);
                assert forall|k: int| 0 <= k < j3 implies s3[k] != '.' by {
                    assert(s3[k] == s[k + i2 + 1]);
                }
                lemma_split_step(s3, '.', j3 as int);
                assert(s3.take(j3 as int) =~= s.subrange(i2 + 1, i3 as int));
            }
            assert(segs[2] == s.subrange(i2 + 1, i3 as int));
        }
        let patch = match parse_u32_str(vers_str.substring_char(i2 + 1, i3)) {
            Some(c) => c,
            None => {
                return Err(MalformedVersion);
            },
        };
        Ok(SemVer { major, minor, patch })
    }

    /// The canonical `major.minor.patch` text.
    pub fn to_string(&self) -> (r: String)
        ensures
            r@ == version_chars(*self),
    {
        let mut s = u32_to_string(self.major);
        s.append(".");
        let minor = u32_to_string(self.minor);
        s.append(minor.as_str());
        s.append(".");
        let patch = u32_to_string(self.patch);
        s.append(patch.as_str());
        proof {
            reveal_strlit(".");
            assert(s@ =~= version_chars(*self));
        }
        s
    }
}

} // verus!
