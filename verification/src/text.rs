//! Character-level helpers shared by the alignment and validation logic:
//! ASCII case folding, apostrophe normalization, and conversions between
//! strings and character vectors.

use vstd::prelude::*;

verus! {

/// ASCII lowercase of one character; characters outside `A..=Z` are
/// unchanged.
pub open spec fn lower(c: char) -> char {
    if 65 <= c as u32 <= 90 {
        (((c as u32) + 32) as u8) as char
    } else {
        c
    }
}

/// The typographic apostrophe normalized to the plain ASCII apostrophe;
/// every other character is unchanged.
pub open spec fn normalize_apostrophe(c: char) -> char {
    if c == '\u{2019}' {
        '\''
    } else {
        c
    }
}

/// The inverse cosmetic step the presenter applies: every plain apostrophe
/// becomes typographic; other characters are unchanged.
pub open spec fn restore_apostrophe(c: char) -> char {
    if c == '\'' {
        '\u{2019}'
    } else {
        c
    }
}

/// Apostrophe normalization followed by ASCII lowercasing: the canonical
/// form in which a context phrase is compared against a rendering.
pub open spec fn canon(c: char) -> char {
    lower(normalize_apostrophe(c))
}

/// Computes `lower` on one character.
pub fn to_lower(c: char) -> (r: char)
    ensures
        r == lower(c),
{
    let u = c as u32;
    if 65 <= u && u <= 90 {
        ((u + 32) as u8) as char
    } else {
        c
    }
}

/// The characters of `s`, in order.
pub fn chars_of(s: &str) -> (r: Vec<char>)
    ensures
        r@ == s@,
{
    let n = s.unicode_len();
    let mut r: Vec<char> = Vec::new();
    let mut i: usize = 0;
    while i < n
        invariant
            i <= n,
            n == s@.len(),
            r@ == s@.subrange(0, i as int),
        decreases n - i,
    {
        r.push(s.get_char(i));
        i = i + 1;
        proof {
            assert(r@ =~= s@.subrange(0, i as int));
        }
    }
    proof {
        assert(r@ =~= s@);
    }
    r
}

/// Maps `lower` over every character.
pub fn lower_chars(v: &Vec<char>) -> (r: Vec<char>)
    ensures
        r@ == v@.map_values(|c: char| lower(c)),
{
    let mut r: Vec<char> = Vec::new();
    let mut i: usize = 0;
    while i < v.len()
        invariant
            i <= v@.len(),
            r@ == v@.subrange(0, i as int).map_values(|c: char| lower(c)),
        decreases v@.len() - i,
    {
        r.push(to_lower(v[i]));
        i = i + 1;
        proof {
            assert(r@ =~= v@.subrange(0, i as int).map_values(|c: char| lower(c)));
        }
    }
    proof {
        assert(v@.subrange(0, v@.len() as int) =~= v@);
    }
    r
}

/// Maps `normalize_apostrophe` over every character.
pub fn normalize_chars(v: &Vec<char>) -> (r: Vec<char>)
    ensures
        r@ == v@.map_values(|c: char| normalize_apostrophe(c)),
{
    let mut r: Vec<char> = Vec::new();
    let mut i: usize = 0;
    while i < v.len()
        invariant
            i <= v@.len(),
            r@ == v@.subrange(0, i as int).map_values(|c: char| normalize_apostrophe(c)),
        decreases v@.len() - i,
    {
        let c = v[i];
        if c == '\u{2019}' {
            r.push('\'');
        } else {
            r.push(c);
        }
        i = i + 1;
        proof {
            assert(r@ =~= v@.subrange(0, i as int).map_values(|c: char| normalize_apostrophe(c)));
        }
    }
    proof {
        assert(v@.subrange(0, v@.len() as int) =~= v@);
    }
    r
}

/// Maps `restore_apostrophe` over every character.
pub fn restore_chars(v: &Vec<char>) -> (r: Vec<char>)
    ensures
        r@ == v@.map_values(|c: char| restore_apostrophe(c)),
{
    let mut r: Vec<char> = Vec::new();
    let mut i: usize = 0;
    while i < v.len()
        invariant
            i <= v@.len(),
            r@ == v@.subrange(0, i as int).map_values(|c: char| restore_apostrophe(c)),
        decreases v@.len() - i,
    {
        let c = v[i];
        if c == '\'' {
            r.push('\u{2019}');
        } else {
            r.push(c);
        }
        i = i + 1;
        proof {
            assert(r@ =~= v@.subrange(0, i as int).map_values(|c: char| restore_apostrophe(c)));
        }
    }
    proof {
        assert(v@.subrange(0, v@.len() as int) =~= v@);
    }
    r
}

/// Maps `canon` over every character: the form in which a context phrase is
/// matched against a wrapped rendering.
pub fn canon_chars(v: &Vec<char>) -> (r: Vec<char>)
    ensures
        r@ == v@.map_values(|c: char| canon(c)),
{
    let n = normalize_chars(v);
    let r = lower_chars(&n);
    proof {
        assert(r@ =~= v@.map_values(|c: char| canon(c)));
    }
    r
}

/// Compares a character vector against a string, character for character.
pub fn chars_eq_str(v: &Vec<char>, s: &str) -> (r: bool)
    ensures
        r <==> v@ == s@,
{
    let n = s.unicode_len();
    if v.len() != n {
        proof {
            assert(v@.len() != s@.len());
        }
        return false;
    }
    let mut i: usize = 0;
    while i < n
        invariant
            i <= n,
            n == s@.len(),
            v@.len() == n,
            forall|j: int| 0 <= j < i ==> v@[j] == s@[j],
        decreases n - i,
    {
        if v[i] != s.get_char(i) {
            proof {
                assert(v@[i as int] != s@[i as int]);
            }
            return false;
        }
        i = i + 1;
    }
    proof {
        assert(v@ =~= s@);
    }
    true
}

} // verus!
