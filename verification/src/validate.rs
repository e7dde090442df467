//! Validation of configuration values: `HH:MM` time literals and color
//! names.

use vstd::prelude::*;
use crate::clock::valid_time;
use crate::text::{lower, chars_of, lower_chars, chars_eq_str};

verus! {

/// Whether `c` is an ASCII decimal digit.
pub open spec fn is_digit(c: char) -> bool {
    48 <= c as u32 <= 57
}

/// The numeric value of an ASCII digit.
pub open spec fn digit_val(c: char) -> int {
    c as u32 - 48
}

/// Whether `s` is a non-empty run of ASCII digits.
pub open spec fn all_digits(s: Seq<char>) -> bool {
    s.len() > 0 && forall|i: int| 0 <= i < s.len() ==> is_digit(#[trigger] s[i])
}

/// The number a digit run denotes, most significant digit first.
pub open spec fn digits_val(s: Seq<char>) -> int
    decreases s.len(),
{
    if s.len() == 0 {
        0
    } else {
        digits_val(s.drop_last()) * 10 + digit_val(s.last())
    }
}

/// `j` splits `s` into the two segments of a time literal: it is the only
/// colon, and both sides are non-empty digit runs.
pub open spec fn split_at_colon(s: Seq<char>, j: int) -> bool {
    &&& 0 <= j < s.len()
    &&& s[j] == ':'
    &&& forall|i: int| 0 <= i < s.len() && i != j ==> s[i] != ':'
    &&& all_digits(s.subrange(0, j))
    &&& all_digits(s.subrange(j + 1, s.len() as int))
}

/// Whether `s` is a valid 24-hour time literal: a digit run for the hour, a
/// single colon, and a digit run for the minute, denoting at most 23 and 59.
pub open spec fn valid_time_literal(s: Seq<char>) -> bool {
    exists|j: int|
        #![auto]
        split_at_colon(s, j) && digits_val(s.subrange(0, j)) <= 23 && digits_val(
            s.subrange(j + 1, s.len() as int),
        ) <= 59
}

/// A digit run denotes a non-negative number.
proof fn lemma_digits_val_nonneg(s: Seq<char>)
    requires
        forall|i: int| 0 <= i < s.len() ==> is_digit(#[trigger] s[i]),
    ensures
        digits_val(s) >= 0,
    decreases s.len(),
{
    if s.len() > 0 {
        lemma_digits_val_nonneg(s.drop_last());
    }
}

/// Extending a digit run never shrinks the number it denotes.
proof fn lemma_digits_val_prefix(s: Seq<char>, n: int)
    requires
        forall|i: int| 0 <= i < s.len() ==> is_digit(#[trigger] s[i]),
        0 <= n <= s.len(),
    ensures
        digits_val(s) >= digits_val(s.subrange(0, n)),
    decreases s.len() - n,
{
    if n == s.len() {
        assert(s.subrange(0, n) =~= s);
    } else {
        assert(s.subrange(0, n + 1).drop_last() =~= s.subrange(0, n));
        lemma_digits_val_nonneg(s.subrange(0, n));
        lemma_digits_val_prefix(s, n + 1);
    }
}

/// Parses the digit run `v[from..to]` as a number at most 255: `None` when
/// the segment is empty, holds a non-digit, or denotes a larger number.
fn parse_u8_segment(v: &Vec<char>, from: usize, to: usize) -> (r: Option<u8>)
    requires
        from <= to <= v@.len(),
    ensures
        match r {
            Some(x) => all_digits(v@.subrange(from as int, to as int)) && digits_val(
                v@.subrange(from as int, to as int),
            ) == x,
            None => !(all_digits(v@.subrange(from as int, to as int)) && digits_val(
                v@.subrange(from as int, to as int),
            ) <= 255),
        },
{
    let ghost seg = v@.subrange(from as int, to as int);
    if from == to {
        return None;
    }
    let mut acc: u32 = 0;
    let mut i: usize = from;
    while i < to
        invariant
            from <= i <= to <= v@.len(),
            v@.len() == v.len(),
            seg == v@.subrange(from as int, to as int),
            acc <= 255,
            acc == digits_val(v@.subrange(from as int, i as int)),
            forall|j: int| from <= j < i ==> is_digit(#[trigger] v@[j]),
        decreases to - i,
    {
        let c = v[i];
        let u = c as u32;
        if u < 48 || u > 57 {
            proof {
                assert(seg[i - from] == v@[i as int]);
            }
            return None;
        }
        proof {
            assert(v@.subrange(from as int, i + 1).drop_last() =~= v@.subrange(
                from as int,
                i as int,
            ));
        }
        acc = acc * 10 + (u - 48);
        if acc > 255 {
            proof {
                if all_digits(seg) && digits_val(seg) <= 255 {
                    lemma_digits_val_prefix(seg, i + 1 - from);
                    assert(seg.subrange(0, i + 1 - from) =~= v@.subrange(from as int, i + 1));
                }
            }
            return None;
        }
        i = i + 1;
    }
    proof {
        assert(forall|j: int|
            0 <= j < seg.len() ==> is_digit(#[trigger] seg[j]) == is_digit(v@[from + j]));
    }
    Some(acc as u8)
}

/// Parses a `HH:MM` time literal: the hour and minute when `s` is two digit
/// runs separated by a single colon denoting a valid 24-hour time; `None`
/// exactly otherwise.
pub fn parse_time(s: &str) -> (r: Option<(u8, u8)>)
    ensures
        match r {
            Some(t) => valid_time(t.0, t.1) && exists|j: int|
                #![auto]
                split_at_colon(s@, j) && t.0 == digits_val(s@.subrange(0, j)) && t.1 == digits_val(
                    s@.subrange(j + 1, s@.len() as int),
                ),
            None => !valid_time_literal(s@),
        },
{
    let v = chars_of(s);
    let n = v.len();
    let mut colon: usize = 0;
    let mut count: usize = 0;
    let mut i: usize = 0;
    while i < n
        invariant
            i <= n,
            n == v@.len(),
            v@ == s@,
            count <= i,
            count == 0 ==> forall|j: int| 0 <= j < i ==> v@[j] != ':',
            count >= 1 ==> colon < i && v@[colon as int] == ':',
            count == 1 ==> forall|j: int| 0 <= j < i && j != colon ==> v@[j] != ':',
            count >= 2 ==> exists|j1: int, j2: int|
                0 <= j1 < j2 < i && v@[j1] == ':' && v@[j2] == ':',
        decreases n - i,
    {
        if v[i] == ':' {
            if count == 0 {
                colon = i;
            }
            count = count + 1;
        }
        i = i + 1;
    }
    if count != 1 {
        proof {
            if valid_time_literal(s@) {
                let j = choose|j: int|
                    #![auto]
                    split_at_colon(s@, j) && digits_val(s@.subrange(0, j)) <= 23 && digits_val(
                        s@.subrange(j + 1, s@.len() as int),
                    ) <= 59;
                assert(s@[j] == ':');
                if count >= 2 {
                    let (j1, j2) = choose|j1: int, j2: int|
                        0 <= j1 < j2 < n && v@[j1] == ':' && v@[j2] == ':';
                    assert(j1 == j && j2 == j);
                }
                assert(false);
            }
        }
        return None;
    }
    let ghost jj = colon as int;
    let hour = match parse_u8_segment(&v, 0, colon) {
        Some(x) => x,
        None => {
            proof {
                if valid_time_literal(s@) {
                    lemma_invalid_when_segment_bad(s@, jj);
                }
            }
            return None;
        },
    };
    let minute = match parse_u8_segment(&v, colon + 1, n) {
        Some(x) => x,
        None => {
            proof {
                if valid_time_literal(s@) {
                    lemma_invalid_when_segment_bad(s@, jj);
                }
            }
            return None;
        },
    };
    if hour > 23 || minute > 59 {
        proof {
            if valid_time_literal(s@) {
                lemma_invalid_when_segment_bad(s@, jj);
            }
        }
        return None;
    }
    proof {
        assert(split_at_colon(s@, jj));
    }
    Some((hour, minute))
}

/// If `s` has a unique colon at `j`, any valid split of `s` is the split at
/// `j`; stated as: a valid literal forces both segments at `j` to be digit
/// runs in range. Used contrapositively when a segment fails to parse.
proof fn lemma_invalid_when_segment_bad(s: Seq<char>, j: int)
    requires
        0 <= j < s.len(),
        s[j] == ':',
        forall|i: int| 0 <= i < s.len() && i != j ==> s[i] != ':',
        valid_time_literal(s),
    ensures
        all_digits(s.subrange(0, j)),
        digits_val(s.subrange(0, j)) <= 23,
        all_digits(s.subrange(j + 1, s.len() as int)),
        digits_val(s.subrange(j + 1, s.len() as int)) <= 59,
{
    let j2 = choose|j2: int|
        #![auto]
        split_at_colon(s, j2) && digits_val(s.subrange(0, j2)) <= 23 && digits_val(
            s.subrange(j2 + 1, s.len() as int),
        ) <= 59;
    assert(j2 == j);
}

/// Validates a `HH:MM` 24-hour time literal, with an error message for
/// anything else: `Ok` exactly on valid literals.
pub fn is_timestamp(val: String) -> (r: Result<(), String>)
    ensures
        r is Ok <==> valid_time_literal(val@),
        r matches Err(m) ==> m@ == "The value must be a valid 24-hour timestamp, HH:MM"@,
{
    match parse_time(val.as_str()) {
        Some(_) => Ok(()),
        None => Err(String::from_str("The value must be a valid 24-hour timestamp, HH:MM")),
    }
}

/// Whether `s` is one of the nine recognized color names.
pub open spec fn is_color_name(s: Seq<char>) -> bool {
    ||| s == "black"@
    ||| s == "blue"@
    ||| s == "green"@
    ||| s == "red"@
    ||| s == "cyan"@
    ||| s == "magenta"@
    ||| s == "yellow"@
    ||| s == "white"@
    ||| s == "grey"@
}

/// Validates a color name, ASCII case-insensitively: `Ok` exactly when the
/// lowercased value is a recognized name.
pub fn is_color(val: String) -> (r: Result<(), String>)
    ensures
        r is Ok <==> is_color_name(val@.map_values(|c: char| lower(c))),
        r matches Err(m) ==> m@
            == "Unknown color, available: black, blue, green, red, cyan, magenta, yellow, white, grey"@,
{
    let v = chars_of(val.as_str());
    let lv = lower_chars(&v);
    if chars_eq_str(&lv, "black") || chars_eq_str(&lv, "blue") || chars_eq_str(&lv, "green")
        || chars_eq_str(&lv, "red") || chars_eq_str(&lv, "cyan") || chars_eq_str(&lv, "magenta")
        || chars_eq_str(&lv, "yellow") || chars_eq_str(&lv, "white") || chars_eq_str(
        &lv,
        "grey",
    ) {
        Ok(())
    } else {
        Err(
            String::from_str(
                "Unknown color, available: black, blue, green, red, cyan, magenta, yellow, white, grey",
            ),
        )
    }
}

} // verus!
