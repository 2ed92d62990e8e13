//! Display names are keyed by a slug: every character outside `A-Z`, `a-z`,
//! `0-9` becomes `-`, and ASCII letters are lowered.
use vstd::prelude::*;

use crate::strs::char_from_u32;
use crate::strs::push_char;
use vstd::string::StringExecFns;

verus! {

/// An ASCII letter or digit, the only characters a slug keeps.
pub open spec fn is_slug_alnum(c: char) -> bool {
    ||| 'A' <= c && c <= 'Z'
    ||| 'a' <= c && c <= 'z'
    ||| '0' <= c && c <= '9'
}

/// ASCII lowering of a single character; anything outside `A-Z` is kept.
pub open spec fn lower_char(c: char) -> char {
    if 'A' <= c && c <= 'Z' {
        ((c as u32) + 32) as char
    } else {
        c
    }
}

/// What the sanitizer does to one character.
pub open spec fn slug_char(c: char) -> char {
    if is_slug_alnum(c) {
        lower_char(c)
    } else {
        '-'
    }
}

/// The slug of a whole name, character by character.
pub open spec fn slug_of(s: Seq<char>) -> Seq<char> {
    s.map_values(|c: char| slug_char(c))
}

/// Maps a display name to its URL- and key-safe slug.
pub fn sanitize(s: &str) -> (r: String)
    ensures
        r@ == slug_of(s@),
{
    let len = s.unicode_len();
    let mut r = String::new();
    let mut i: usize = 0;
    while i < len
        invariant
            i <= len,
            len == s@.len(),
            r@ == slug_of(s@.subrange(0, i as int)),
        decreases len - i,
    {
        let c = s.get_char(i);
        let out = if c >= 'A' && c <= 'Z' {
            let lowered = (c as u32) + 32;
            proof {
                assert(lowered == lower_char(c) as u32);
            }
            char_from_u32(lowered)
        } else if (c >= 'a' && c <= 'z') || (c >= '0' && c <= '9') {
            c
        } else {
            '-'
        };
        push_char(&mut r, out);
        proof {
            assert(out == slug_char(s@[i as int]));
            assert(r@ =~= slug_of(s@.subrange(0, i + 1 as int)));
        }
        i = i + 1;
    }
    proof {
        assert(s@.subrange(0, len as int) =~= s@);
    }
    r
}

/// The character for one decimal digit.
pub open spec fn digit_char(n: int) -> char {
    ((48 + n) as u32) as char
}

/// The decimal digits of a number, most significant first.
pub open spec fn dec_digits(n: nat) -> Seq<char>
    decreases n,
{
    if n < 10 {
        seq![digit_char(n as int)]
    } else {
        dec_digits(n / 10).push(digit_char((n % 10) as int))
    }
}

/// The key probed at step `k`: the slug itself first, then the slug with
/// `-1`, `-2`, ... appended.
pub open spec fn key_at(slug: Seq<char>, k: nat) -> Seq<char> {
    if k == 0 {
        slug
    } else {
        slug + seq!['-'] + dec_digits(k)
    }
}

pub proof fn lemma_dec_digits_len(n: nat)
    ensures
        dec_digits(n).len() >= 1,
        n < 10 ==> dec_digits(n).len() == 1,
        n >= 10 ==> dec_digits(n).len() >= 2,
    decreases n,
{
    if n >= 10 {
        lemma_dec_digits_len(n / 10);
    }
}

/// Distinct numbers have distinct digit strings.
pub proof fn lemma_dec_digits_injective(a: nat, b: nat)
    requires
        dec_digits(a) == dec_digits(b),
    ensures
        a == b,
    decreases a,
{
    lemma_dec_digits_len(a);
    lemma_dec_digits_len(b);
    if a < 10 && b < 10 {
        assert(dec_digits(a)[0] == digit_char(a as int));
        assert(dec_digits(b)[0] == digit_char(b as int));
        assert(digit_char(a as int) as u32 == 48 + a);
        assert(digit_char(b as int) as u32 == 48 + b);
    } else if a >= 10 && b >= 10 {
        let da = dec_digits(a);
        let db = dec_digits(b);
        assert(da.last() == digit_char((a % 10) as int));
        assert(db.last() == digit_char((b % 10) as int));
        assert(digit_char((a % 10) as int) as u32 == 48 + a % 10);
        assert(digit_char((b % 10) as int) as u32 == 48 + b % 10);
        assert(a % 10 == b % 10);
        assert(da.drop_last() =~= dec_digits(a / 10));
        assert(db.drop_last() =~= dec_digits(b / 10));
        lemma_dec_digits_injective(a / 10, b / 10);
    } else if a < 10 {
        assert(dec_digits(a).len() == 1 && dec_digits(b).len() >= 2);
    } else {
        assert(dec_digits(b).len() == 1 && dec_digits(a).len() >= 2);
    }
}

/// Distinct probe steps always probe distinct keys.
pub proof fn lemma_key_at_injective(slug: Seq<char>, k1: nat, k2: nat)
    requires
        key_at(slug, k1) == key_at(slug, k2),
    ensures
        k1 == k2,
{
    lemma_dec_digits_len(k1);
    lemma_dec_digits_len(k2);
    if k1 == 0 && k2 != 0 {
        assert(key_at(slug, k2).len() > slug.len());
    } else if k1 != 0 && k2 == 0 {
        assert(key_at(slug, k1).len() > slug.len());
    } else if k1 != 0 && k2 != 0 {
        let s1 = key_at(slug, k1);
        let s2 = key_at(slug, k2);
        assert(dec_digits(k1) =~= s1.subrange(slug.len() as int + 1, s1.len() as int));
        assert(dec_digits(k2) =~= s2.subrange(slug.len() as int + 1, s2.len() as int));
        lemma_dec_digits_injective(k1, k2);
    }
}

/// The character for one decimal digit.
fn digit_exec(n: usize) -> (c: char)
    requires
        n < 10,
    ensures
        c == digit_char(n as int),
{
    char_from_u32(48 + n as u32)
}

/// Renders a number in decimal.
pub fn usize_string(n: usize) -> (r: String)
    ensures
        r@ == dec_digits(n as nat),
    decreases n,
{
    if n < 10 {
        let mut s = String::new();
        push_char(&mut s, digit_exec(n));
        proof {
            assert(s@ =~= dec_digits(n as nat));
        }
        s
    } else {
        let mut s = usize_string(n / 10);
        push_char(&mut s, digit_exec(n % 10));
        s
    }
}

/// Builds the key probed at step `k` from a slug.
pub fn make_key(slug: &String, k: usize) -> (r: String)
    ensures
        r@ == key_at(slug@, k as nat),
{
    if k == 0 {
        slug.clone()
    } else {
        let mut r = slug.clone();
        push_char(&mut r, '-');
        let digits = usize_string(k);
        r.append(digits.as_str());
        proof {
            assert(r@ =~= key_at(slug@, k as nat));
        }
        r
    }
}

} // verus!
