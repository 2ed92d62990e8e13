//! Small verified helpers over strings: equality, lexicographic order and
//! substring search, all specified over the `Seq<char>` view.
use vstd::prelude::*;

verus! {

/// Relies on `String::push`: appends exactly one character at the end.
#[verifier::external_body]
pub(crate) fn push_char(s: &mut String, c: char)
    ensures
        final(s)@ == old(s)@.push(c),
{
    s.push(c);
}

/// The view of an optional string, for contracts over optional fields.
pub open spec fn opt_view(o: Option<String>) -> Option<Seq<char>> {
    match o {
        Some(s) => Some(s@),
        None => None,
    }
}

/// Character-for-character equality of two string slices.
pub fn str_eq(a: &str, b: &str) -> (r: bool)
    ensures
        r == (a@ == b@),
{
    let alen = a.unicode_len();
    let blen = b.unicode_len();
    if alen != blen {
        proof {
            assert(a@ != b@);
        }
        return false;
    }
    let mut i: usize = 0;
    while i < alen
        invariant
            i <= alen,
            alen == a@.len(),
            alen == b@.len(),
            forall|j: int| 0 <= j < i ==> a@[j] == b@[j],
        decreases alen - i,
    {
        if a.get_char(i) != b.get_char(i) {
            proof {
                assert(a@[i as int] != b@[i as int]);
            }
            return false;
        }
        i = i + 1;
    }
    proof {
        assert(a@ =~= b@);
    }
    true
}

/// Lexicographic order over the characters' code points: the order the
/// catalog lists artists and albums in.
pub open spec fn str_le_spec(a: Seq<char>, b: Seq<char>) -> bool
    decreases a.len(),
{
    if a.len() == 0 {
        true
    } else if b.len() == 0 {
        false
    } else if (a[0] as u32) < (b[0] as u32) {
        true
    } else if (b[0] as u32) < (a[0] as u32) {
        false
    } else {
        str_le_spec(a.drop_first(), b.drop_first())
    }
}

pub proof fn lemma_str_le_total(a: Seq<char>, b: Seq<char>)
    ensures
        str_le_spec(a, b) || str_le_spec(b, a),
    decreases a.len(),
{
    if a.len() == 0 || b.len() == 0 {
    } else if a[0] as u32 == b[0] as u32 {
        lemma_str_le_total(a.drop_first(), b.drop_first());
    }
}

pub proof fn lemma_str_le_trans(a: Seq<char>, b: Seq<char>, c: Seq<char>)
    requires
        str_le_spec(a, b),
        str_le_spec(b, c),
    ensures
        str_le_spec(a, c),
    decreases a.len(),
{
    if a.len() == 0 || b.len() == 0 || c.len() == 0 {
    } else {
        if a[0] as u32 == b[0] as u32 && b[0] as u32 == c[0] as u32 {
            lemma_str_le_trans(a.drop_first(), b.drop_first(), c.drop_first());
        }
    }
}

/// Decides the lexicographic order.
pub fn str_le(a: &str, b: &str) -> (r: bool)
    ensures
        r == str_le_spec(a@, b@),
{
    let alen = a.unicode_len();
    let blen = b.unicode_len();
    proof {
        assert(a@.subrange(0, alen as int) =~= a@);
        assert(b@.subrange(0, blen as int) =~= b@);
    }
    let mut i: usize = 0;
    loop
        invariant
            i <= alen,
            i <= blen,
            alen == a@.len(),
            blen == b@.len(),
            str_le_spec(a@, b@) == str_le_spec(
                a@.subrange(i as int, alen as int),
                b@.subrange(i as int, blen as int),
            ),
        decreases alen - i,
    {
        if i == alen {
            proof {
                assert(a@.subrange(i as int, alen as int).len() == 0);
            }
            return true;
        }
        if i == blen {
            proof {
                assert(b@.subrange(i as int, blen as int).len() == 0);
                assert(a@.subrange(i as int, alen as int).len() > 0);
            }
            return false;
        }
        let ca = a.get_char(i);
        let cb = b.get_char(i);
        proof {
            let arest = a@.subrange(i as int, alen as int);
            let brest = b@.subrange(i as int, blen as int);
            assert(arest[0] == a@[i as int]);
            assert(brest[0] == b@[i as int]);
            assert(arest.drop_first() =~= a@.subrange(i + 1, alen as int));
            assert(brest.drop_first() =~= b@.subrange(i + 1, blen as int));
        }
        if (ca as u32) < (cb as u32) {
            return true;
        }
        if (cb as u32) < (ca as u32) {
            return false;
        }
        i = i + 1;
    }
}

/// Whether `pat` occurs at position `i` of `s`.
pub open spec fn matches_at(s: Seq<char>, pat: Seq<char>, i: int) -> bool {
    0 <= i && i + pat.len() <= s.len() && s.subrange(i, i + pat.len() as int) =~= pat
}

/// `pat` occurs contiguously somewhere inside `s`.
pub open spec fn has_substring(s: Seq<char>, pat: Seq<char>) -> bool {
    exists|i: int| matches_at(s, pat, i)
}

/// Naive substring search, the rating rule's only engine.
pub fn contains_sub(s: &str, pat: &str) -> (r: bool)
    ensures
        r == has_substring(s@, pat@),
{
    let slen = s.unicode_len();
    let plen = pat.unicode_len();
    if plen > slen {
        proof {
            assert(!has_substring(s@, pat@));
        }
        return false;
    }
    let mut i: usize = 0;
    while i <= slen - plen
        invariant
            plen <= slen,
            slen == s@.len(),
            plen == pat@.len(),
            i <= slen - plen + 1,
            forall|m: int| 0 <= m < i ==> !matches_at(s@, pat@, m),
        decreases slen - plen - i + 1,
    {
        let mut j: usize = 0;
        let mut hit = true;
        while hit && j < plen
            invariant
                i + plen <= slen,
                slen == s@.len(),
                plen == pat@.len(),
                j <= plen,
                hit ==> forall|m: int| 0 <= m < j ==> s@[i + m] == pat@[m],
                !hit ==> !matches_at(s@, pat@, i as int),
            decreases plen - j + (if hit { 1int } else { 0int }),
        {
            if s.get_char(i + j) != pat.get_char(j) {
                hit = false;

                proof {
                    assert(s@.subrange(i as int, i + plen as int)[j as int] != pat@[j as int]);
                    assert(!matches_at(s@, pat@, i as int));
                }
            } else {
                j = j + 1;
            }
        }
        if hit {
            proof {
                assert forall|m: int| 0 <= m < plen implies s@.subrange(
                    i as int,
                    i + plen as int,
                )[m] == pat@[m] by {}
                assert(s@.subrange(i as int, i + plen as int) =~= pat@);
                assert(matches_at(s@, pat@, i as int));
            }
            return true;
        }
        i = i + 1;
    }
    proof {
        assert forall|m: int| 0 <= m && m + pat@.len() <= s@.len() implies !matches_at(
            s@,
            pat@,
            m,
        ) by {
            assert(m < i);
        }
        assert(!has_substring(s@, pat@));
    }
    false
}

/// ASCII lowering of one character, for case-insensitive tag keys.
pub open spec fn ascii_lower(c: char) -> char {
    if 'A' <= c && c <= 'Z' {
        ((c as u32) + 32) as char
    } else {
        c
    }
}

/// Case-insensitive (ASCII) equality, the rule metadata keys are matched by.
pub open spec fn eq_ignore_case(a: Seq<char>, b: Seq<char>) -> bool {
    a.len() == b.len() && forall|i: int| 0 <= i < a.len() ==> ascii_lower(a[i]) == ascii_lower(b[i])
}

/// Decides case-insensitive (ASCII) equality.
pub fn str_eq_ignore_case(a: &str, b: &str) -> (r: bool)
    ensures
        r == eq_ignore_case(a@, b@),
{
    let alen = a.unicode_len();
    let blen = b.unicode_len();
    if alen != blen {
        return false;
    }
    let mut i: usize = 0;
    while i < alen
        invariant
            i <= alen,
            alen == a@.len(),
            alen == b@.len(),
            forall|j: int| 0 <= j < i ==> ascii_lower(a@[j]) == ascii_lower(b@[j]),
        decreases alen - i,
    {
        let ca = lower_exec(a.get_char(i));
        let cb = lower_exec(b.get_char(i));
        if ca != cb {
            return false;
        }
        i = i + 1;
    }
    true
}

/// Executable ASCII lowering.
pub fn lower_exec(c: char) -> (r: char)
    ensures
        r == ascii_lower(c),
{
    if c >= 'A' && c <= 'Z' {
        let v = (c as u32) + 32;
        char_from_u32(v)
    } else {
        c
    }
}

/// Relies on `char::from_u32`: for a scalar value below the surrogate range
/// the result is the character with that code point.
#[verifier::external_body]
pub(crate) fn char_from_u32(v: u32) -> (c: char)
    requires
        v < 0xD800,
    ensures
        c as u32 == v,
{
    char::from_u32(v).unwrap()
}

} // verus!
