//! Paths and URLs. A path is a plain slash-separated string, as the walker
//! reports it; a URL is the files prefix, a slash, and the percent-encoded
//! path relative to the base directory.
use vstd::prelude::*;

use crate::error::Error;
use crate::strs::opt_view;
use crate::strs::push_char;
use crate::strs::str_eq;
use vstd::string::StrSliceExecFns;
use vstd::string::StringSliceAdditionalSpecFns;
use vstd::string::StringExecFns;

verus! {

/// `i` is the position of the last slash of `p`.
pub open spec fn is_last_slash(p: Seq<char>, i: int) -> bool {
    0 <= i < p.len() && p[i] == '/' && (forall|j: int| i < j < p.len() ==> p[j] != '/')
}

/// `p` holds a slash at all.
pub open spec fn has_slash(p: Seq<char>) -> bool {
    exists|i: int| 0 <= i < p.len() && p[i] == '/'
}

/// The position of the last slash of `p`; meaningful only when one exists.
pub open spec fn last_slash(p: Seq<char>) -> int {
    choose|i: int| is_last_slash(p, i)
}

pub proof fn lemma_last_slash_exists(p: Seq<char>)
    requires
        has_slash(p),
    ensures
        is_last_slash(p, last_slash(p)),
    decreases p.len(),
{
    if p.len() > 0 {
        if p[p.len() - 1] == '/' {
            assert(is_last_slash(p, p.len() - 1));
        } else {
            let q = p.drop_last();
            assert(has_slash(q)) by {
                let w = choose|i: int| 0 <= i < p.len() && p[i] == '/';
                assert(0 <= w < q.len() && q[w] == '/');
            }
            lemma_last_slash_exists(q);
            let i = last_slash(q);
            assert(p[i] == q[i]);
            assert forall|j: int| i < j < p.len() implies p[j] != '/' by {
                if j < p.len() - 1 {
                    assert(p[j] == q[j]);
                }
            }
            assert(is_last_slash(p, i));
        }
        assert(is_last_slash(p, last_slash(p)));
    }
}

/// Two positions can not both be the last slash.
pub proof fn lemma_last_slash_unique(p: Seq<char>, i: int, j: int)
    requires
        is_last_slash(p, i),
        is_last_slash(p, j),
    ensures
        i == j,
{
}

/// The directory part of a path: the text before the last slash, empty when
/// the path has no slash.
pub open spec fn parent_of(p: Seq<char>) -> Seq<char> {
    if has_slash(p) {
        p.subrange(0, last_slash(p))
    } else {
        Seq::empty()
    }
}

/// The file part of a path: the text after the last slash, the whole path
/// when it has no slash.
pub open spec fn file_name_of(p: Seq<char>) -> Seq<char> {
    if has_slash(p) {
        p.subrange(last_slash(p) + 1, p.len() as int)
    } else {
        p
    }
}

/// The position of the last slash, if any.
fn find_last_slash(p: &str) -> (r: Option<usize>)
    ensures
        match r {
            Some(i) => is_last_slash(p@, i as int),
            None => !has_slash(p@),
        },
{
    let len = p.unicode_len();
    let mut i = len;
    while i > 0
        invariant
            i <= len,
            len == p@.len(),
            forall|j: int| i <= j < len ==> p@[j] != '/',
        decreases i,
    {
        i = i - 1;
        if p.get_char(i) == '/' {
            return Some(i);
        }
    }
    None
}

/// The directory part of a path.
pub fn parent_dir(p: &str) -> (r: String)
    ensures
        r@ == parent_of(p@),
{
    match find_last_slash(p) {
        Some(i) => {
            proof {
                lemma_last_slash_exists(p@);
                lemma_last_slash_unique(p@, i as int, last_slash(p@));
            }
            let s = p.substring_char(0, i);
            String::from_str(s)
        },
        None => String::new(),
    }
}

/// The file part of a path.
pub fn file_name(p: &str) -> (r: String)
    ensures
        r@ == file_name_of(p@),
{
    let len = p.unicode_len();
    match find_last_slash(p) {
        Some(i) => {
            proof {
                lemma_last_slash_exists(p@);
                lemma_last_slash_unique(p@, i as int, last_slash(p@));
            }
            let s = p.substring_char(i + 1, len);
            String::from_str(s)
        },
        None => String::from_str(p),
    }
}

/// `i` is the position of the last dot of `p`.
pub open spec fn is_last_dot(p: Seq<char>, i: int) -> bool {
    0 <= i < p.len() && p[i] == '.' && (forall|j: int| i < j < p.len() ==> p[j] != '.')
}

/// `p` holds a dot at all.
pub open spec fn has_dot(p: Seq<char>) -> bool {
    exists|i: int| 0 <= i < p.len() && p[i] == '.'
}

/// The position of the last dot of `p`; meaningful only when one exists.
pub open spec fn last_dot(p: Seq<char>) -> int {
    choose|i: int| is_last_dot(p, i)
}

pub proof fn lemma_last_dot_exists(p: Seq<char>)
    requires
        has_dot(p),
    ensures
        is_last_dot(p, last_dot(p)),
    decreases p.len(),
{
    if p.len() > 0 {
        if p[p.len() - 1] == '.' {
            assert(is_last_dot(p, p.len() - 1));
        } else {
            let q = p.drop_last();
            assert(has_dot(q)) by {
                let w = choose|i: int| 0 <= i < p.len() && p[i] == '.';
                assert(0 <= w < q.len() && q[w] == '.');
            }
            lemma_last_dot_exists(q);
            let i = last_dot(q);
            assert(p[i] == q[i]);
            assert forall|j: int| i < j < p.len() implies p[j] != '.' by {
                if j < p.len() - 1 {
                    assert(p[j] == q[j]);
                }
            }
            assert(is_last_dot(p, i));
        }
        assert(is_last_dot(p, last_dot(p)));
    }
}

/// Two positions can not both be the last dot.
pub proof fn lemma_last_dot_unique(p: Seq<char>, i: int, j: int)
    requires
        is_last_dot(p, i),
        is_last_dot(p, j),
    ensures
        i == j,
{
}

/// The position of the last dot, if any.
pub fn find_last_dot(p: &str) -> (r: Option<usize>)
    ensures
        match r {
            Some(i) => is_last_dot(p@, i as int),
            None => !has_dot(p@),
        },
{
    let len = p.unicode_len();
    let mut i = len;
    while i > 0
        invariant
            i <= len,
            len == p@.len(),
            forall|j: int| i <= j < len ==> p@[j] != '.',
        decreases i,
    {
        i = i - 1;
        if p.get_char(i) == '.' {
            return Some(i);
        }
    }
    None
}

/// Whether two optional paths name the same place.
pub fn paths_eq(p1: &Option<String>, p2: &Option<String>) -> (r: bool)
    ensures
        r == (opt_view(*p1) == opt_view(*p2)),
{
    match (p1, p2) {
        (None, None) => true,
        (Some(a), Some(b)) => str_eq(a.as_str(), b.as_str()),
        _ => false,
    }
}

/// A byte a URL keeps as it stands: ASCII letters and digits, and the five
/// path characters `/`, `-`, `_`, `.`, `+`.
pub open spec fn keeps_byte(b: u8) -> bool {
    ||| 48 <= b <= 57
    ||| 65 <= b <= 90
    ||| 97 <= b <= 122
    ||| b == 47
    ||| b == 45
    ||| b == 95
    ||| b == 46
    ||| b == 43
}

/// The upper-case hexadecimal digit for `n`, `0 <= n < 16`.
pub open spec fn hex_char(n: int) -> char {
    if 0 <= n < 10 {
        ((48 + n) as u32) as char
    } else {
        ((55 + n) as u32) as char
    }
}

/// How one byte of a path is written in a URL.
pub open spec fn enc_byte(b: u8) -> Seq<char> {
    if keeps_byte(b) {
        seq![b as char]
    } else {
        seq!['%', hex_char(b as int / 16), hex_char(b as int % 16)]
    }
}

/// The percent-encoding of a byte string, byte for byte.
pub open spec fn pct_encode(bs: Seq<u8>) -> Seq<char>
    decreases bs.len(),
{
    if bs.len() == 0 {
        Seq::empty()
    } else {
        pct_encode(bs.drop_last()) + enc_byte(bs.last())
    }
}

/// Relies on `percent_encoding::percent_encode_byte`: the result is `%`
/// followed by the byte's two upper-case hexadecimal digits.
#[verifier::external_body]
fn pct_byte(b: u8) -> (r: &'static str)
    ensures
        r@ == seq!['%', hex_char(b as int / 16), hex_char(b as int % 16)],
{
    percent_encoding::percent_encode_byte(b)
}

/// Percent-encodes the bytes of a path, keeping only the bytes a URL keeps.
pub fn encode_path(s: &str) -> (r: String)
    ensures
        r@ == pct_encode(s.spec_bytes()),
{
    let bs = s.as_bytes_vec();
    let mut r = String::new();
    let mut i: usize = 0;
    while i < bs.len()
        invariant
            i <= bs@.len(),
            bs@ == s.spec_bytes(),
            r@ == pct_encode(bs@.subrange(0, i as int)),
        decreases bs@.len() - i,
    {
        let b = bs[i];
        if (48 <= b && b <= 57) || (65 <= b && b <= 90) || (97 <= b && b <= 122) || b == 47 || b
            == 45 || b == 95 || b == 46 || b == 43 {
            push_char(&mut r, b as char);
            proof {
                assert(enc_byte(b) =~= seq![b as char]);
            }
        } else {
            let e = pct_byte(b);
            r.append(e);
        }
        proof {
            let pre = bs@.subrange(0, i + 1 as int);
            assert(pre.drop_last() =~= bs@.subrange(0, i as int));
            assert(pre.last() == b);
            assert(r@ =~= pct_encode(pre));
        }
        i = i + 1;
    }
    proof {
        assert(bs@.subrange(0, bs@.len() as int) =~= bs@);
    }
    r
}

/// The path relative to the base directory: defined when `base` is a prefix
/// of `path` on a component boundary; one separating slash is dropped.
pub open spec fn strip_base(path: Seq<char>, base: Seq<char>) -> Option<Seq<char>> {
    if base.len() <= path.len() && path.subrange(0, base.len() as int) == base && (base.len()
        == path.len() || path[base.len() as int] == '/' || (base.len() > 0 && base.last() == '/')) {
        let rest = path.subrange(base.len() as int, path.len() as int);
        if rest.len() > 0 && rest[0] == '/' {
            Some(rest.drop_first())
        } else {
            Some(rest)
        }
    } else {
        None
    }
}

/// The web address of a file relative to the base directory.
pub open spec fn url_of(files_url: Seq<char>, rest: Seq<char>) -> Seq<char> {
    files_url + "/"@ + pct_encode(vstd::utf8::encode_utf8(rest))
}

/// The web address of a file: the files prefix, a slash, and the
/// percent-encoded path relative to the base directory. A path outside the
/// base directory is an indexing error, surfaced with the path attached.
pub fn find_url(path: &str, base: &str, files_url: &str) -> (r: Result<String, Error>)
    ensures
        r is Ok <==> strip_base(path@, base@) is Some,
        r matches Ok(u) ==> u@ == url_of(files_url@, strip_base(path@, base@).unwrap()),
        r matches Err(e) ==> e matches Error::IndexingError { path: p, what } && opt_view(p)
            == Some(path@) && what@ == "formatting url"@,
{
    let plen = path.unicode_len();
    let blen = base.unicode_len();
    let ok: bool = if blen <= plen {
        let head = path.substring_char(0, blen);
        if str_eq(head, base) {
            if blen == plen {
                true
            } else if path.get_char(blen) == '/' {
                true
            } else if blen > 0 && base.get_char(blen - 1) == '/' {
                true
            } else {
                false
            }
        } else {
            false
        }
    } else {
        false
    };
    if !ok {
        return Err(
            Error::IndexingError {
                path: Some(String::from_str(path)),
                what: String::from_str("formatting url"),
            },
        );
    }
    let rest_start = if blen < plen && path.get_char(blen) == '/' {
        blen + 1
    } else {
        blen
    };
    let rest = path.substring_char(rest_start, plen);
    proof {
        let spec_rest0 = path@.subrange(blen as int, plen as int);
        if spec_rest0.len() > 0 && spec_rest0[0] == '/' {
            assert(rest@ =~= spec_rest0.drop_first());
        } else {
            assert(rest@ =~= spec_rest0);
        }
        assert(Some(rest@) == strip_base(path@, base@));
    }
    let encoded = encode_path(rest);
    let u = String::from_str(files_url).concat("/").concat(encoded.as_str());
    proof {
        assert(rest.spec_bytes() == vstd::utf8::encode_utf8(rest@));
        assert(u@ =~= files_url@ + "/"@ + pct_encode(vstd::utf8::encode_utf8(rest@)));
    }
    Ok(u)
}

/// The place a generated cover is written to: the song's own path with the
/// generated-cover suffix appended, which lands it beside the song.
pub fn make_cover_path(song_path: &str) -> (r: String)
    requires
        file_name_of(song_path@).len() > 0,
    ensures
        r@ == song_path@ + "-ms1-cover-small-generated.jpg"@,
{
    String::from_str(song_path).concat("-ms1-cover-small-generated.jpg")
}

} // verus!
