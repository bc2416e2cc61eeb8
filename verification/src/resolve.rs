//! The identifier resolver: maps a URL to the stable identifier that
//! keys the thumbnail cache.
//!
//! An ordered list of URL-shape markers is tried in sequence; the first
//! marker found in the URL captures the non-empty run of characters
//! after it, up to the next `?`, `&` or `/`, as the identifier. When no
//! marker yields a token, the identifier is the MD5 digest of the URL
//! text, rendered as 32 lowercase hexadecimal characters. Resolution is
//! a pure function of the URL: no randomness and no time dependence, so
//! cache files remain valid across runs.

use vstd::prelude::*;
use vstd::string::StrSliceExecFns;
use crate::text::{chars_vec, find_sub_from, first_match_from};

verus! {

/// A character that ends a captured identifier token.
pub open spec fn is_stop(c: char) -> bool {
    c == '?' || c == '&' || c == '/'
}

/// Executable mirror of `is_stop`.
fn is_stop_char(c: char) -> (r: bool)
    ensures
        r == is_stop(c),
{
    c == '?' || c == '&' || c == '/'
}

/// Index of the first token-ending character of `s`, or `s.len()` when
/// none occurs.
pub open spec fn first_stop(s: Seq<char>) -> int
    decreases s.len(),
{
    if s.len() == 0 {
        0
    } else if is_stop(s[0]) {
        0
    } else {
        1 + first_stop(s.drop_first())
    }
}

/// An index below which no character stops a token, and which stops one
/// itself when in range, is `first_stop`.
proof fn lemma_first_stop_is(s: Seq<char>, k: int)
    requires
        0 <= k <= s.len(),
        forall|j: int| 0 <= j < k ==> !is_stop(s[j]),
        k < s.len() ==> is_stop(s[k]),
    ensures
        first_stop(s) == k,
    decreases s.len(),
{
    if s.len() == 0 {
    } else if is_stop(s[0]) {
        assert(k == 0);
    } else {
        let t = s.drop_first();
        assert(k >= 1);
        assert forall|j: int| 0 <= j < k - 1 implies !is_stop(t[j]) by {
            assert(t[j] == s[j + 1]);
        }
        if k - 1 < t.len() {
            assert(t[k - 1] == s[k]);
        }
        lemma_first_stop_is(t, k - 1);
    }
}

/// The token starting at `start`: the run of characters from `start` up
/// to the first `?`, `&` or `/` after it (or the end of `s`).
pub open spec fn token_after(s: Seq<char>, start: int) -> Seq<char> {
    s.subrange(start, start + first_stop(s.skip(start)))
}

/// The identifier a single marker captures from `s`: the non-empty token
/// right after the marker's first occurrence, if both exist.
pub open spec fn marker_token(s: Seq<char>, m: Seq<char>) -> Option<Seq<char>> {
    match first_match_from(s, m, 0) {
        Some(i) => {
            let t = token_after(s, i + m.len());
            if t.len() > 0 {
                Some(t)
            } else {
                None
            }
        },
        None => None,
    }
}

/// The identifier captured from a share-style watch URL: the non-empty
/// token right after the first `&v=` that follows the first
/// `youtube.com/watch?` occurrence, if all of these exist.
pub open spec fn share_token(s: Seq<char>) -> Option<Seq<char>> {
    match first_match_from(s, "youtube.com/watch?"@, 0) {
        Some(i) => match first_match_from(s, "&v="@, i + "youtube.com/watch?"@.len() as int) {
            Some(j) => {
                let t = token_after(s, j + "&v="@.len() as int);
                if t.len() > 0 {
                    Some(t)
                } else {
                    None
                }
            },
            None => None,
        },
        None => None,
    }
}

/// The identifier a recognized hosting URL carries, resolved by trying
/// the URL-shape markers in a fixed order; `None` when no shape matches.
pub open spec fn hosted_token(s: Seq<char>) -> Option<Seq<char>> {
    if marker_token(s, "youtu.be/"@) is Some {
        marker_token(s, "youtu.be/"@)
    } else if marker_token(s, "youtube.com/embed/"@) is Some {
        marker_token(s, "youtube.com/embed/"@)
    } else if marker_token(s, "youtube.com/v/"@) is Some {
        marker_token(s, "youtube.com/v/"@)
    } else if marker_token(s, "youtube.com/watch?v="@) is Some {
        marker_token(s, "youtube.com/watch?v="@)
    } else if share_token(s) is Some {
        share_token(s)
    } else {
        None
    }
}

/// The digest identifier of a URL with no recognized hosting shape.
/// What the 32 characters are is fixed by the MD5 algorithm; the library
/// names the result rather than restating that algorithm.
pub uninterp spec fn md5_hex_of(s: Seq<char>) -> Seq<char>;

/// A lowercase hexadecimal digit.
pub open spec fn is_hex_lower(c: char) -> bool {
    ('0' <= c && c <= '9') || ('a' <= c && c <= 'f')
}

/// The identifier of a URL: the captured hosting token when one exists,
/// the MD5 hex digest of the URL text otherwise.
pub open spec fn id_of(u: Seq<char>) -> Seq<char> {
    match hosted_token(u) {
        Some(t) => t,
        None => md5_hex_of(u),
    }
}

/// Relies on `md5::compute` and the `md5` crate's `LowerHex` rendering:
/// the digest of a byte string depends on those bytes alone (hence on
/// the characters of `s` alone), and is rendered as exactly 32 lowercase
/// hexadecimal characters, two per digest byte.
#[verifier::external_body]
fn md5_hex(s: &str) -> (r: String)
    ensures
        r@ == md5_hex_of(s@),
        r@.len() == 32,
        forall|i: int| 0 <= i < r@.len() ==> is_hex_lower(r@[i]),
{
    format!("{:x}", md5::compute(s.as_bytes()))
}

/// First index at or after `from` holding a token-ending character, or
/// `v.len()` when none follows.
fn scan_stop(v: &Vec<char>, from: usize) -> (r: usize)
    requires
        from <= v.len(),
    ensures
        from <= r <= v.len(),
        r - from == first_stop(v@.skip(from as int)),
{
    let n = v.len();
    let mut i: usize = from;
    while i < n && !is_stop_char(v[i])
        invariant
            from <= i <= n == v.len(),
            forall|j: int| from <= j < i ==> !is_stop(v@[j]),
        decreases n - i,
    {
        i += 1;
    }
    proof {
        let s = v@.skip(from as int);
        assert forall|j: int| 0 <= j < i - from implies !is_stop(s[j]) by {
            assert(s[j] == v@[from + j]);
        }
        if i < n {
            assert(s[i - from] == v@[i as int]);
        }
        lemma_first_stop_is(s, i - from);
    }
    i
}

/// Tries one URL-shape marker against the URL, capturing the token that
/// `marker_token` describes.
fn try_marker(url: &str, v: &Vec<char>, m: &str) -> (r: Option<String>)
    requires
        v@ == url@,
    ensures
        (match r {
            Some(t) => marker_token(url@, m@) == Some(t@),
            None => marker_token(url@, m@) is None,
        }),
{
    let mv = chars_vec(m);
    match find_sub_from(v, &mv, 0) {
        Some(i) => {
            let vn = v.len();
            let mn = mv.len();
            proof {
                assert(i + mn <= vn);
            }
            let start = i + mn;
            let e = scan_stop(v, start);
            if e > start {
                let t = url.substring_char(start, e);
                proof {
                    assert(token_after(url@, start as int) =~= url@.subrange(
                        start as int,
                        e as int,
                    ));
                }
                Some(t.to_owned())
            } else {
                None
            }
        },
        None => None,
    }
}

/// Tries the share-style watch shape, capturing the token that
/// `share_token` describes.
fn try_share(url: &str, v: &Vec<char>) -> (r: Option<String>)
    requires
        v@ == url@,
    ensures
        (match r {
            Some(t) => share_token(url@) == Some(t@),
            None => share_token(url@) is None,
        }),
{
    let base = chars_vec("youtube.com/watch?");
    match find_sub_from(v, &base, 0) {
        Some(i) => {
            let vn = v.len();
            let bn = base.len();
            proof {
                assert(i + bn <= vn);
            }
            let amp = chars_vec("&v=");
            match find_sub_from(v, &amp, i + bn) {
                Some(j) => {
                    let an = amp.len();
                    proof {
                        assert(j + an <= vn);
                    }
                    let start = j + an;
                    let e = scan_stop(v, start);
                    if e > start {
                        let t = url.substring_char(start, e);
                        proof {
                            assert(token_after(url@, start as int) =~= url@.subrange(
                                start as int,
                                e as int,
                            ));
                        }
                        Some(t.to_owned())
                    } else {
                        None
                    }
                },
                None => None,
            }
        },
        None => None,
    }
}

/// Resolves a URL to its stable identifier: the captured hosting token
/// when the URL matches a recognized shape, the 32-character MD5 hex
/// digest of the URL text otherwise. Pure: the result depends on the
/// URL text alone.
pub fn resolve(url: &str) -> (r: String)
    ensures
        r@ == id_of(url@),
        hosted_token(url@) is None ==> r@.len() == 32 && forall|i: int|
            0 <= i < r@.len() ==> is_hex_lower(r@[i]),
{
    let v = chars_vec(url);
    if let Some(t) = try_marker(url, &v, "youtu.be/") {
        return t;
    }
    if let Some(t) = try_marker(url, &v, "youtube.com/embed/") {
        return t;
    }
    if let Some(t) = try_marker(url, &v, "youtube.com/v/") {
        return t;
    }
    if let Some(t) = try_marker(url, &v, "youtube.com/watch?v=") {
        return t;
    }
    if let Some(t) = try_share(url, &v) {
        return t;
    }
    md5_hex(url)
}

/// Identifier resolution is a pure function: any two resolutions of the
/// same URL text agree, however often and in whatever process they are
/// computed.
pub proof fn lemma_resolve_deterministic(
    u1: Seq<char>,
    u2: Seq<char>,
    r1: Seq<char>,
    r2: Seq<char>,
)
    requires
        u1 == u2,
        r1 == id_of(u1),
        r2 == id_of(u2),
    ensures
        r1 == r2,
{
}

} // verus!
