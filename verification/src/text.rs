//! Verified text utilities: code-point order, Unicode white-space trimming,
//! substring search, and ASCII character classes.
//!
//! All executable functions here are proved against spec functions over
//! `Seq<char>`, so contracts elsewhere in the crate can speak directly about
//! the characters of a string.

use vstd::prelude::*;
use vstd::string::StrSliceExecFns;

verus! {

// ---------------------------------------------------------------------------
// ASCII character classes
// ---------------------------------------------------------------------------

pub open spec fn spec_ascii_digit(c: char) -> bool {
    48 <= c as u32 <= 57
}

pub open spec fn spec_ascii_uppercase(c: char) -> bool {
    65 <= c as u32 <= 90
}

pub open spec fn spec_ascii_lowercase(c: char) -> bool {
    97 <= c as u32 <= 122
}

pub fn is_ascii_digit_char(c: char) -> (r: bool)
    ensures
        r == spec_ascii_digit(c),
{
    let u = c as u32;
    48 <= u && u <= 57
}

pub fn is_ascii_uppercase_char(c: char) -> (r: bool)
    ensures
        r == spec_ascii_uppercase(c),
{
    let u = c as u32;
    65 <= u && u <= 90
}

pub fn is_ascii_lowercase_char(c: char) -> (r: bool)
    ensures
        r == spec_ascii_lowercase(c),
{
    let u = c as u32;
    97 <= u && u <= 122
}

/// The Unicode `White_Space` property, the set honoured by `str::trim`.
pub open spec fn spec_space(c: char) -> bool {
    let u = c as u32;
    ||| u == 0x09
    ||| u == 0x0A
    ||| u == 0x0B
    ||| u == 0x0C
    ||| u == 0x0D
    ||| u == 0x20
    ||| u == 0x85
    ||| u == 0xA0
    ||| u == 0x1680
    ||| (0x2000 <= u && u <= 0x200A)
    ||| u == 0x2028
    ||| u == 0x2029
    ||| u == 0x202F
    ||| u == 0x205F
    ||| u == 0x3000
}

pub fn is_space_char(c: char) -> (r: bool)
    ensures
        r == spec_space(c),
{
    let u = c as u32;
    u == 0x09 || u == 0x0A || u == 0x0B || u == 0x0C || u == 0x0D || u == 0x20 || u == 0x85
        || u == 0xA0 || u == 0x1680 || (0x2000 <= u && u <= 0x200A) || u == 0x2028 || u == 0x2029
        || u == 0x202F || u == 0x205F || u == 0x3000
}

// ---------------------------------------------------------------------------
// Characters of a string as a vector
// ---------------------------------------------------------------------------

/// The characters of `s`, collected one by one.
pub fn chars_vec(s: &str) -> (r: Vec<char>)
    ensures
        r@ == s@,
{
    let n = s.unicode_len();
    let mut r: Vec<char> = Vec::new();
    let mut i: usize = 0;
    while i < n
        invariant
            n == s@.len(),
            i <= n,
            r@ == s@.take(i as int),
        decreases n - i,
    {
        let c = s.get_char(i);
        r.push(c);
        proof {
            assert(r@ =~= s@.take(i + 1 as int));
        }
        i = i + 1;
    }
    proof {
        assert(r@ =~= s@);
    }
    r
}

// ---------------------------------------------------------------------------
// Lexicographic order on code points
// ---------------------------------------------------------------------------

/// Lexicographic "less than or equal" by code point; the order in which the
/// catalog's timestamp strings are compared.
pub open spec fn lex_le(a: Seq<char>, b: Seq<char>) -> bool
    decreases a.len(),
{
    if a.len() == 0 {
        true
    } else if b.len() == 0 {
        false
    } else if (a[0] as u32) < (b[0] as u32) {
        true
    } else if (a[0] as u32) > (b[0] as u32) {
        false
    } else {
        lex_le(a.drop_first(), b.drop_first())
    }
}

/// The order is total.
pub proof fn lemma_lex_le_total(a: Seq<char>, b: Seq<char>)
    ensures
        lex_le(a, b) || lex_le(b, a),
    decreases a.len(),
{
    if a.len() == 0 || b.len() == 0 {
    } else if a[0] as u32 == b[0] as u32 {
        lemma_lex_le_total(a.drop_first(), b.drop_first());
    }
}

/// The order is reflexive.
pub proof fn lemma_lex_le_refl(a: Seq<char>)
    ensures
        lex_le(a, a),
    decreases a.len(),
{
    if a.len() > 0 {
        lemma_lex_le_refl(a.drop_first());
    }
}

/// The order is transitive.
pub proof fn lemma_lex_le_trans(a: Seq<char>, b: Seq<char>, c: Seq<char>)
    requires
        lex_le(a, b),
        lex_le(b, c),
    ensures
        lex_le(a, c),
    decreases a.len(),
{
    if a.len() == 0 || b.len() == 0 || c.len() == 0 {
    } else if a[0] as u32 == b[0] as u32 && b[0] as u32 == c[0] as u32 {
        lemma_lex_le_trans(a.drop_first(), b.drop_first(), c.drop_first());
    }
}

/// Dropping an equal prefix does not change the comparison.
proof fn lemma_lex_le_skip(a: Seq<char>, b: Seq<char>, i: int)
    requires
        0 <= i <= a.len(),
        i <= b.len(),
        forall|j: int| 0 <= j < i ==> a[j] == b[j],
    ensures
        lex_le(a, b) == lex_le(a.skip(i), b.skip(i)),
    decreases i,
{
    if i == 0 {
        assert(a.skip(0) =~= a);
        assert(b.skip(0) =~= b);
    } else {
        assert(a.len() > 0 && b.len() > 0 && a[0] == b[0]);
        assert(a.drop_first().skip(i - 1) =~= a.skip(i));
        assert(b.drop_first().skip(i - 1) =~= b.skip(i));
        lemma_lex_le_skip(a.drop_first(), b.drop_first(), i - 1);
    }
}

/// Compare two strings in the lexicographic code-point order.
pub fn str_lex_le(a: &str, b: &str) -> (r: bool)
    ensures
        r == lex_le(a@, b@),
{
    let alen = a.unicode_len();
    let blen = b.unicode_len();
    let mut i: usize = 0;
    while i < alen && i < blen
        invariant
            alen == a@.len(),
            blen == b@.len(),
            i <= alen,
            i <= blen,
            forall|j: int| 0 <= j < i ==> a@[j] == b@[j],
        decreases alen - i,
    {
        let ca = a.get_char(i);
        let cb = b.get_char(i);
        if ca != cb {
            proof {
                lemma_lex_le_skip(a@, b@, i as int);
                assert(a@.skip(i as int)[0] == a@[i as int]);
                assert(b@.skip(i as int)[0] == b@[i as int]);
            }
            return (ca as u32) < (cb as u32);
        }
        i = i + 1;
    }
    proof {
        lemma_lex_le_skip(a@, b@, i as int);
        if alen <= blen {
            assert(a@.skip(i as int).len() == 0);
        } else {
            assert(b@.skip(i as int).len() == 0);
            assert(a@.skip(i as int).len() > 0);
        }
    }
    alen <= blen
}

// ---------------------------------------------------------------------------
// Trimming white space
// ---------------------------------------------------------------------------

/// Index of the first character that is not white space (the length if all
/// characters are).
pub open spec fn first_non_space(s: Seq<char>) -> int
    decreases s.len(),
{
    if s.len() == 0 {
        0
    } else if !spec_space(s[0]) {
        0
    } else {
        1 + first_non_space(s.drop_first())
    }
}

/// One past the index of the last character that is not white space (zero if
/// all characters are).
pub open spec fn last_non_space_end(s: Seq<char>) -> int
    decreases s.len(),
{
    if s.len() == 0 {
        0
    } else if !spec_space(s.last()) {
        s.len() as int
    } else {
        last_non_space_end(s.drop_last())
    }
}

/// What `str::trim` returns: the string with leading and trailing white
/// space removed.
pub open spec fn trim_of(s: Seq<char>) -> Seq<char> {
    let lo = first_non_space(s);
    let hi = last_non_space_end(s);
    if lo < hi {
        s.subrange(lo, hi)
    } else {
        Seq::empty()
    }
}

proof fn lemma_first_non_space_at(s: Seq<char>, i: int)
    requires
        0 <= i <= s.len(),
        forall|j: int| 0 <= j < i ==> spec_space(s[j]),
        i < s.len() ==> !spec_space(s[i]),
    ensures
        first_non_space(s) == i,
    decreases i,
{
    if i == 0 {
    } else {
        lemma_first_non_space_at(s.drop_first(), i - 1);
    }
}

proof fn lemma_last_non_space_end_at(s: Seq<char>, i: int)
    requires
        0 <= i <= s.len(),
        forall|j: int| i <= j < s.len() ==> spec_space(s[j]),
        i > 0 ==> !spec_space(s[i - 1]),
    ensures
        last_non_space_end(s) == i,
    decreases s.len() - i,
{
    if i == s.len() {
    } else {
        lemma_last_non_space_end_at(s.drop_last(), i);
    }
}

/// Trim leading and trailing white space, as the standard library's `trim`
/// does.
pub fn str_trim(s: &str) -> (r: &str)
    ensures
        r@ == trim_of(s@),
{
    let n = s.unicode_len();
    let mut lo: usize = 0;
    while lo < n && is_space_char(s.get_char(lo))
        invariant
            n == s@.len(),
            lo <= n,
            forall|j: int| 0 <= j < lo ==> spec_space(s@[j]),
        decreases n - lo,
    {
        lo = lo + 1;
    }
    proof {
        lemma_first_non_space_at(s@, lo as int);
    }
    if lo == n {
        proof {
            lemma_last_non_space_end_at(s@, 0);
        }
        let r = s.substring_char(0, 0);
        proof {
            assert(r@ =~= trim_of(s@));
        }
        return r;
    }
    let mut hi: usize = n;
    while hi > lo && is_space_char(s.get_char(hi - 1))
        invariant
            n == s@.len(),
            lo < n,
            lo <= hi <= n,
            !spec_space(s@[lo as int]),
            forall|j: int| hi <= j < n ==> spec_space(s@[j]),
        decreases hi,
    {
        hi = hi - 1;
    }
    proof {
        assert(hi > lo);
        lemma_last_non_space_end_at(s@, hi as int);
    }
    s.substring_char(lo, hi)
}

// ---------------------------------------------------------------------------
// Substring search
// ---------------------------------------------------------------------------

/// `needle` occurs contiguously within `hay`.
pub open spec fn contains_seq(hay: Seq<char>, needle: Seq<char>) -> bool {
    exists|i: int|
        0 <= i && i + needle.len() <= hay.len() && #[trigger] hay.subrange(i, i + needle.len())
            == needle
}

/// Whether `needle` occurs in `hay`, as `str::contains` reports it.
pub fn chars_contains(hay: &Vec<char>, needle: &Vec<char>) -> (r: bool)
    ensures
        r == contains_seq(hay@, needle@),
{
    let nlen = needle.len();
    let hlen = hay.len();
    if nlen > hlen {
        return false;
    }
    let mut i: usize = 0;
    while i <= hlen - nlen
        invariant
            nlen == needle@.len(),
            hlen == hay@.len(),
            nlen <= hlen,
            i <= hlen - nlen + 1,
            forall|k: int|
                0 <= k < i ==> #[trigger] hay@.subrange(k, k + needle@.len()) != needle@,
        decreases hlen - nlen - i + 1,
    {
        let mut j: usize = 0;
        let mut matched = true;
        while matched && j < nlen
            invariant
                nlen == needle@.len(),
                hlen == hay@.len(),
                i + nlen <= hlen,
                j <= nlen,
                matched ==> forall|k: int| 0 <= k < j ==> hay@[i + k] == needle@[k],
                !matched ==> exists|k: int| 0 <= k < nlen && hay@[i + k] != needle@[k],
            decreases nlen - j,
        {
            if hay[i + j] != needle[j] {
                matched = false;
                j = nlen;
            } else {
                j = j + 1;
            }
        }
        if matched {
            proof {
                assert(hay@.subrange(i as int, i + needle@.len()) =~= needle@);
            }
            return true;
        }
        proof {
            let k = choose|k: int| 0 <= k < nlen && hay@[i + k] != needle@[k];
            assert(hay@.subrange(i as int, i + needle@.len())[k] == hay@[i + k]);
        }
        i = i + 1;
    }
    proof {
        if contains_seq(hay@, needle@) {
            let w = choose|w: int|
                0 <= w && w + needle@.len() <= hay@.len() && #[trigger] hay@.subrange(
                    w,
                    w + needle@.len(),
                ) == needle@;
            assert(hay@.subrange(w, w + needle@.len()) != needle@);
        }
    }
    false
}

} // verus!
