//! Character-level text helpers: Unicode whitespace, trimming, comparing.

use vstd::prelude::*;
use vstd::string::*;

verus! {

/// The Unicode `White_Space` property, which `char::is_whitespace`,
/// `str::trim`, `str::split_whitespace` and the `\s` class all use.
pub open spec fn is_white_space(c: char) -> bool {
    ||| '\u{9}' <= c <= '\u{d}'
    ||| c == ' '
    ||| c == '\u{85}'
    ||| c == '\u{a0}'
    ||| c == '\u{1680}'
    ||| '\u{2000}' <= c <= '\u{200a}'
    ||| c == '\u{2028}'
    ||| c == '\u{2029}'
    ||| c == '\u{202f}'
    ||| c == '\u{205f}'
    ||| c == '\u{3000}'
}

/// Whether `c` is Unicode whitespace.
pub fn is_whitespace_char(c: char) -> (r: bool)
    ensures
        r == is_white_space(c),
{
    ('\u{9}' <= c && c <= '\u{d}') || c == ' ' || c == '\u{85}' || c == '\u{a0}' || c
        == '\u{1680}' || ('\u{2000}' <= c && c <= '\u{200a}') || c == '\u{2028}' || c
        == '\u{2029}' || c == '\u{202f}' || c == '\u{205f}' || c == '\u{3000}'
}

/// The characters of `s`, in order.
pub fn chars_of(s: &str) -> (v: Vec<char>)
    ensures
        v@ == s@,
{
    let mut v: Vec<char> = Vec::new();
    for c in it: s.chars()
        invariant
            v@ == it.seq().take(it.index() as int),
    {
        v.push(c);
    }
    v
}


/// The first index at or after `i` that does not hold whitespace.
pub open spec fn skip_white_space(s: Seq<char>, i: int) -> int
    decreases s.len() - i,
{
    if 0 <= i < s.len() && is_white_space(s[i]) {
        skip_white_space(s, i + 1)
    } else {
        i
    }
}

/// The last end, at or before `j` and not below `lo`, whose preceding
/// character is not whitespace (or `lo` itself).
pub open spec fn back_white_space(s: Seq<char>, lo: int, j: int) -> int
    decreases j - lo,
{
    if lo < j <= s.len() && is_white_space(s[j - 1]) {
        back_white_space(s, lo, j - 1)
    } else {
        j
    }
}

/// Where the text of `s` starts once leading whitespace is dropped.
pub open spec fn trim_start(s: Seq<char>) -> int {
    skip_white_space(s, 0)
}

/// Where the text of `s` ends once trailing whitespace is dropped.
pub open spec fn trim_end(s: Seq<char>) -> int {
    back_white_space(s, trim_start(s), s.len() as int)
}

/// `s` without its leading and trailing whitespace, as `str::trim` gives it.
pub open spec fn spec_trim(s: Seq<char>) -> Seq<char> {
    s.subrange(trim_start(s), trim_end(s))
}

pub proof fn lemma_skip_white_space(s: Seq<char>, i: int)
    requires
        0 <= i <= s.len(),
    ensures
        i <= skip_white_space(s, i) <= s.len(),
        forall|k: int| i <= k < skip_white_space(s, i) ==> is_white_space(#[trigger] s[k]),
        skip_white_space(s, i) < s.len() ==> !is_white_space(s[skip_white_space(s, i)]),
    decreases s.len() - i,
{
    if i < s.len() && is_white_space(s[i]) {
        lemma_skip_white_space(s, i + 1);
    }
}

pub proof fn lemma_back_white_space(s: Seq<char>, lo: int, j: int)
    requires
        0 <= lo <= j <= s.len(),
    ensures
        lo <= back_white_space(s, lo, j) <= j,
        forall|k: int| back_white_space(s, lo, j) <= k < j ==> is_white_space(#[trigger] s[k]),
        back_white_space(s, lo, j) > lo ==> !is_white_space(s[back_white_space(s, lo, j) - 1]),
    decreases j - lo,
{
    if lo < j && is_white_space(s[j - 1]) {
        lemma_back_white_space(s, lo, j - 1);
    }
}

/// The bounds of the trimmed text: everything before `trim_start` and from
/// `trim_end` on is whitespace, and the text between them neither starts nor
/// ends with whitespace.
pub proof fn lemma_trim_bounds(s: Seq<char>)
    ensures
        0 <= trim_start(s) <= trim_end(s) <= s.len(),
        forall|k: int| 0 <= k < trim_start(s) ==> is_white_space(#[trigger] s[k]),
        forall|k: int| trim_end(s) <= k < s.len() ==> is_white_space(#[trigger] s[k]),
        trim_start(s) < trim_end(s) ==> !is_white_space(s[trim_start(s)]),
        trim_start(s) < trim_end(s) ==> !is_white_space(s[trim_end(s) - 1]),
        trim_start(s) == trim_end(s) ==> forall|k: int|
            0 <= k < s.len() ==> is_white_space(#[trigger] s[k]),
{
    lemma_skip_white_space(s, 0);
    lemma_back_white_space(s, trim_start(s), s.len() as int);
}

/// Trimming takes off whitespace only, and leaves text that neither starts nor
/// ends with whitespace; trimming it again changes nothing.
pub proof fn lemma_trim_shape(s: Seq<char>)
    ensures
        ({
            let t = spec_trim(s);
            &&& s == s.take(trim_start(s)) + t + s.skip(trim_end(s))
            &&& forall|k: int| 0 <= k < trim_start(s) ==> is_white_space(#[trigger] s[k])
            &&& forall|k: int| trim_end(s) <= k < s.len() ==> is_white_space(#[trigger] s[k])
            &&& t.len() > 0 ==> !is_white_space(t[0]) && !is_white_space(t[t.len() - 1])
            &&& spec_trim(t) == t
        }),
{
    lemma_trim_bounds(s);
    let t = spec_trim(s);
    assert(s =~= s.take(trim_start(s)) + t + s.skip(trim_end(s)));
    lemma_trim_bounds(t);
    if t.len() > 0 {
        assert(trim_start(t) == 0);
        assert(trim_end(t) == t.len());
    } else {
        assert(trim_start(t) == 0);
    }
    assert(spec_trim(t) =~= t);
}

/// `s` without leading and trailing Unicode whitespace.
pub fn trim(s: &str) -> (r: &str)
    ensures
        r@ == spec_trim(s@),
{
    let v = chars_of(s);
    let n = v.len();
    let mut i: usize = 0;
    while i < n && is_whitespace_char(v[i])
        invariant
            0 <= i <= n,
            n == s@.len(),
            v@ == s@,
            skip_white_space(s@, 0) == skip_white_space(s@, i as int),
        decreases n - i,
    {
        i = i + 1;
    }
    let mut j: usize = n;
    while j > i && is_whitespace_char(v[j - 1])
        invariant
            i <= j <= n,
            n == s@.len(),
            v@ == s@,
            i == trim_start(s@),
            back_white_space(s@, i as int, n as int) == back_white_space(s@, i as int, j as int),
        decreases j,
    {
        j = j - 1;
    }
    s.substring_char(i, j)
}

/// Whether `a` and `b` hold the same text.
pub fn same_text(a: &str, b: &str) -> (r: bool)
    ensures
        r == (a@ == b@),
{
    let x = a.as_bytes();
    let y = b.as_bytes();
    proof {
        vstd::utf8::encode_utf8_decode_utf8(a@);
        vstd::utf8::encode_utf8_decode_utf8(b@);
    }
    if x.len() != y.len() {
        return false;
    }
    let mut k: usize = 0;
    while k < x.len()
        invariant
            x.len() == y.len(),
            x@ == vstd::utf8::encode_utf8(a@),
            y@ == vstd::utf8::encode_utf8(b@),
            0 <= k <= x.len(),
            forall|i: int| 0 <= i < k ==> x@[i] == y@[i],
        decreases x.len() - k,
    {
        if x[k] != y[k] {
            return false;
        }
        k = k + 1;
    }
    assert(x@ =~= y@);
    true
}

/// What `str::to_lowercase` gives for the text `s`: the Unicode lowercase
/// mapping of its characters (a final `Σ` depends on its neighbours).
pub uninterp spec fn lowercase(s: Seq<char>) -> Seq<char>;

/// `s` with its ASCII capitals made lowercase, every other character kept.
pub open spec fn ascii_lowercase(s: Seq<char>) -> Seq<char> {
    s.map_values(|c: char| ascii_lower(c))
}

/// Calls `str::to_lowercase`. The contract names the result, and states the
/// ASCII part of the Unicode mapping that std uses: on ASCII text, `A`-`Z`
/// become `a`-`z` and every other character stays. The rest of the Unicode
/// case table is not restated here.
#[verifier::external_body]
pub(crate) fn to_lowercase(s: &str) -> (r: String)
    ensures
        r@ == lowercase(s@),
        vstd::utf8::is_ascii_chars(s@) ==> r@ == ascii_lowercase(s@),
{
    s.to_lowercase()
}

/// The ASCII lowercase of a character: `A`-`Z` become `a`-`z`, every other
/// character stays as it is.
pub open spec fn ascii_lower(c: char) -> char {
    if 'A' <= c <= 'Z' {
        ((c as u32) + 32) as char
    } else {
        c
    }
}

} // verus!
