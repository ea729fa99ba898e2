//! The `[zed-style key=value ...]` marker that a terminal title may carry.
//!
//! The marker is `[zed-style`, then either `]` right away or whitespace, a
//! body without `]`, and the first `]` after it. It may stand anywhere in the
//! title; the leftmost one counts. Its body is a list of whitespace-separated
//! `key=value` tokens, and a bare `[zed-style]` resets the style.

use vstd::prelude::*;
use vstd::string::*;
use crate::color::{parse_hex, spec_parse_hex};
use crate::style::{
    clamp_badge, clean_state, empty_style, opt_style, spec_clamp_badge, spec_clean_state,
    spec_known_state, StyleView, ThreadVisualStyle,
};
use crate::text::{
    ascii_lowercase, chars_of, is_white_space, is_whitespace_char, lemma_skip_white_space, same_text,
    skip_white_space, spec_trim, trim,
};

verus! {

/// The characters that open a marker.
pub open spec fn marker_prefix() -> Seq<char> {
    seq!['[', 'z', 'e', 'd', '-', 's', 't', 'y', 'l', 'e']
}

/// The first `]` at or after `i`.
pub open spec fn close_from(t: Seq<char>, i: int) -> Option<int>
    decreases t.len() - i,
{
    if 0 <= i < t.len() {
        if t[i] == ']' {
            Some(i)
        } else {
            close_from(t, i + 1)
        }
    } else {
        None
    }
}

/// The marker that starts at `p`, if one does: where it ends (one past its
/// `]`) and where its body starts and ends.
///
/// After `[zed-style` comes either `]`, which closes an empty marker, or
/// whitespace; then the body runs from the end of that whitespace to the
/// first `]`, which closes the marker. Anything else is no marker at `p`.
pub open spec fn marker_at(t: Seq<char>, p: int) -> Option<(int, int, int)> {
    let q = p + 10;
    if 0 <= p && q < t.len() && t.subrange(p, q) == marker_prefix() {
        if t[q] == ']' {
            Some((q + 1, q + 1, q + 1))
        } else if is_white_space(t[q]) {
            match close_from(t, q) {
                Some(e) => Some((e + 1, skip_white_space(t, q), e)),
                None => None,
            }
        } else {
            None
        }
    } else {
        None
    }
}

/// The leftmost marker that starts at or after `p`: its start, its end, and
/// its body's start and end.
pub open spec fn marker_from(t: Seq<char>, p: int) -> Option<(int, int, int, int)>
    decreases t.len() - p,
{
    if 0 <= p < t.len() {
        match marker_at(t, p) {
            Some((e, bs, be)) => Some((p, e, bs, be)),
            None => marker_from(t, p + 1),
        }
    } else {
        None
    }
}

/// The leftmost marker of the title `t`.
pub open spec fn find_marker(t: Seq<char>) -> Option<(int, int, int, int)> {
    marker_from(t, 0)
}

/// How many characters `s` starts with before its first whitespace.
pub open spec fn word_len(s: Seq<char>) -> nat
    decreases s.len(),
{
    if s.len() > 0 && !is_white_space(s[0]) {
        1 + word_len(s.drop_first())
    } else {
        0
    }
}

/// A word is as long as the run of non-whitespace that starts `s`.
pub proof fn lemma_word_len(s: Seq<char>)
    ensures
        word_len(s) <= s.len(),
        forall|k: int| 0 <= k < word_len(s) ==> !is_white_space(#[trigger] s[k]),
        word_len(s) < s.len() ==> is_white_space(s[word_len(s) as int]),
    decreases s.len(),
{
    if s.len() > 0 && !is_white_space(s[0]) {
        lemma_word_len(s.drop_first());
        assert forall|k: int| 0 <= k < word_len(s) implies !is_white_space(#[trigger] s[k]) by {
            if k > 0 {
                assert(s[k] == s.drop_first()[k - 1]);
            }
        }
    }
}

/// The maximal runs of non-whitespace characters of `s`, in order, as
/// `str::split_whitespace` yields them.
pub open spec fn split_whitespace(s: Seq<char>) -> Seq<Seq<char>>
    decreases s.len(),
{
    if s.len() == 0 {
        seq![]
    } else if is_white_space(s[0]) {
        split_whitespace(s.drop_first())
    } else {
        proof {
            lemma_word_len(s);
        }
        seq![s.take(word_len(s) as int)] + split_whitespace(s.skip(word_len(s) as int))
    }
}

/// Where the first `=` of `s` stands.
pub open spec fn equals_index(s: Seq<char>) -> Option<int>
    decreases s.len(),
{
    if s.len() == 0 {
        None
    } else if s[0] == '=' {
        Some(0)
    } else {
        match equals_index(s.drop_first()) {
            Some(j) => Some(j + 1),
            None => None,
        }
    }
}

/// The style after one `key=value` pair: a known key sets its field from the
/// value (an invalid value clears it), an unknown key changes nothing.
pub open spec fn spec_apply_pair(st: StyleView, key: Seq<char>, value: Seq<char>) -> StyleView {
    if key == "accent"@ {
        StyleView { accent_color: spec_parse_hex(vstd::utf8::encode_utf8(value)), ..st }
    } else if key == "icon"@ {
        StyleView { icon_color: spec_parse_hex(vstd::utf8::encode_utf8(value)), ..st }
    } else if key == "background"@ {
        StyleView { background_tint: spec_parse_hex(vstd::utf8::encode_utf8(value)), ..st }
    } else if key == "badge"@ {
        StyleView { badge: spec_clamp_badge(value), ..st }
    } else if key == "state"@ {
        StyleView { state: spec_clean_state(value), ..st }
    } else {
        st
    }
}

/// The style after one token: split at its first `=`; a token without `=`
/// changes nothing.
pub open spec fn spec_apply_token(st: StyleView, tok: Seq<char>) -> StyleView {
    match equals_index(tok) {
        Some(j) => spec_apply_pair(st, tok.take(j), tok.skip(j + 1)),
        None => st,
    }
}

/// The style after the tokens in order, so that a later token wins.
pub open spec fn spec_apply_tokens(st: StyleView, toks: Seq<Seq<char>>) -> StyleView
    decreases toks.len(),
{
    if toks.len() == 0 {
        st
    } else {
        spec_apply_tokens(spec_apply_token(st, toks[0]), toks.drop_first())
    }
}

/// The style a marker body describes, starting from the empty style.
pub open spec fn marker_style(body: Seq<char>) -> StyleView {
    spec_apply_tokens(empty_style(), split_whitespace(body))
}

/// What a title gives: without a marker, no style and the title as it is;
/// with one, the style of its body and the title without the marker, trimmed.
pub open spec fn spec_title_marker(t: Seq<char>) -> (Option<StyleView>, Seq<char>) {
    match find_marker(t) {
        None => (None, t),
        Some((p, e, bs, be)) => (
            Some(marker_style(t.subrange(bs, be))),
            spec_trim(t.take(p) + t.skip(e)),
        ),
    }
}


/// A marker needs `]` or whitespace right after `[zed-style`: `[zed-styleX]`
/// is none.
pub proof fn lemma_marker_word_boundary(t: Seq<char>, p: int)
    ensures
        marker_at(t, p) is Some ==> t[p + 10] == ']' || is_white_space(t[p + 10]),
{
}

/// Text of whitespace only has no tokens.
pub proof fn lemma_blank_has_no_tokens(s: Seq<char>)
    requires
        forall|k: int| 0 <= k < s.len() ==> is_white_space(#[trigger] s[k]),
    ensures
        split_whitespace(s) == Seq::<Seq<char>>::empty(),
    decreases s.len(),
{
    if s.len() > 0 {
        assert forall|k: int| 0 <= k < s.len() - 1 implies is_white_space(
            #[trigger] s.drop_first()[k],
        ) by {
            assert(s.drop_first()[k] == s[k + 1]);
        }
        lemma_blank_has_no_tokens(s.drop_first());
    }
}

/// `[zed-style]`, or a marker whose body is only whitespace, is the explicit
/// reset: it yields the empty style.
pub proof fn lemma_blank_marker_resets(t: Seq<char>)
    requires
        find_marker(t) matches Some((p, e, bs, be)) && forall|k: int|
            bs <= k < be ==> is_white_space(#[trigger] t[k]),
    ensures
        spec_title_marker(t).0 == Some(empty_style()),
{
    let (p, e, bs, be) = find_marker(t)->0;
    lemma_marker_bounds(t, 0);
    let body = t.subrange(bs, be);
    assert forall|k: int| 0 <= k < body.len() implies is_white_space(#[trigger] body[k]) by {
        assert(body[k] == t[bs + k]);
    }
    lemma_blank_has_no_tokens(body);
}

/// Once a marker is taken out, the title that is left neither starts nor ends
/// with whitespace, and it is what remains around the marker, trimmed.
pub proof fn lemma_cleaned_title_is_trimmed(t: Seq<char>)
    requires
        find_marker(t) is Some,
    ensures
        ({
            let (p, e, bs, be) = find_marker(t)->0;
            let c = spec_title_marker(t).1;
            &&& c == spec_trim(t.take(p) + t.skip(e))
            &&& c.len() > 0 ==> !is_white_space(c[0]) && !is_white_space(c[c.len() - 1])
            &&& spec_trim(c) == c
        }),
{
    let (p, e, bs, be) = find_marker(t)->0;
    crate::text::lemma_trim_shape(t.take(p) + t.skip(e));
}

proof fn lemma_word_len_of(w: Seq<char>, tail: Seq<char>)
    requires
        forall|k: int| 0 <= k < w.len() ==> !is_white_space(#[trigger] w[k]),
        tail.len() == 0 || is_white_space(tail[0]),
    ensures
        word_len(w + tail) == w.len(),
    decreases w.len(),
{
    if w.len() > 0 {
        assert((w + tail).drop_first() =~= w.drop_first() + tail);
        assert forall|k: int| 0 <= k < w.drop_first().len() implies !is_white_space(
            #[trigger] w.drop_first()[k],
        ) by {
            assert(w.drop_first()[k] == w[k + 1]);
        }
        lemma_word_len_of(w.drop_first(), tail);
    } else {
        assert(w + tail =~= tail);
    }
}

/// A word followed by a space and more text is the first token; a word alone
/// is the only one.
pub proof fn lemma_split_word(w: Seq<char>, rest: Seq<char>)
    requires
        w.len() > 0,
        forall|k: int| 0 <= k < w.len() ==> !is_white_space(#[trigger] w[k]),
    ensures
        split_whitespace(w + seq![' '] + rest) == seq![w] + split_whitespace(rest),
        split_whitespace(w) == seq![w],
{
    let s = w + seq![' '] + rest;
    assert(s =~= w + (seq![' '] + rest));
    lemma_word_len_of(w, seq![' '] + rest);
    assert(s[0] == w[0]);
    assert(s.take(w.len() as int) =~= w);
    let tail = seq![' '] + rest;
    assert(s.skip(w.len() as int) =~= tail);
    assert(tail.drop_first() =~= rest);
    assert(split_whitespace(tail) == split_whitespace(rest));
    lemma_word_len_of(w, Seq::<char>::empty());
    assert(w + Seq::<char>::empty() =~= w);
    assert(w.take(w.len() as int) =~= w);
    assert(w.skip(w.len() as int) =~= Seq::<char>::empty());
    assert(split_whitespace(Seq::<char>::empty()) =~= Seq::<Seq<char>>::empty());
    assert(seq![w.take(w.len() as int)] + split_whitespace(w.skip(w.len() as int)) =~= seq![w]);
}

/// `key=value` splits at the `=` after a key that holds none.
pub proof fn lemma_pair_token(key: Seq<char>, value: Seq<char>)
    requires
        forall|k: int| 0 <= k < key.len() ==> #[trigger] key[k] != '=',
    ensures
        equals_index(key + seq!['='] + value) == Some(key.len() as int),
        (key + seq!['='] + value).take(key.len() as int) == key,
        (key + seq!['='] + value).skip(key.len() + 1int) == value,
    decreases key.len(),
{
    let s = key + seq!['='] + value;
    assert(s.take(key.len() as int) =~= key);
    assert(s.skip(key.len() + 1int) =~= value);
    if key.len() > 0 {
        assert(s.drop_first() =~= key.drop_first() + seq!['='] + value);
        assert forall|k: int| 0 <= k < key.drop_first().len() implies #[trigger] key.drop_first()[k]
            != '=' by {
            assert(key.drop_first()[k] == key[k + 1]);
        }
        lemma_pair_token(key.drop_first(), value);
        assert(s[0] == key[0]);
    } else {
        assert(s[0] == '=');
    }
}

proof fn lemma_close_at(t: Seq<char>, i: int, c: int)
    requires
        0 <= i <= c < t.len(),
        t[c] == ']',
        forall|k: int| i <= k < c ==> #[trigger] t[k] != ']',
    ensures
        close_from(t, i) == Some(c),
    decreases c - i,
{
    if i < c {
        lemma_close_at(t, i + 1, c);
    }
}

/// A title that opens with `[zed-style `, a body that starts with no
/// whitespace and holds no `]`, and `]`, carries that marker with that body.
pub proof fn lemma_leading_marker(body: Seq<char>, after: Seq<char>)
    requires
        body.len() > 0,
        !is_white_space(body[0]),
        forall|k: int| 0 <= k < body.len() ==> #[trigger] body[k] != ']',
    ensures
        ({
            let t = marker_prefix() + seq![' '] + body + seq![']'] + after;
            &&& find_marker(t) == Some((0int, body.len() + 12int, 11int, body.len() + 11int))
            &&& spec_title_marker(t).0 == Some(marker_style(body))
        }),
{
    let t = marker_prefix() + seq![' '] + body + seq![']'] + after;
    let n = body.len() as int;
    assert(t.subrange(0, 10) =~= marker_prefix());
    assert(t[10] == ' ');
    assert(t[11] == body[0]);
    assert(t[11 + n] == ']');
    assert forall|k: int| 10 <= k < 11 + n implies #[trigger] t[k] != ']' by {
        if k > 10 {
            assert(t[k] == body[k - 11]);
        }
    }
    lemma_close_at(t, 10, 11 + n);
    assert(skip_white_space(t, 11) == 11);
    assert(skip_white_space(t, 10) == 11);
    assert(marker_at(t, 0) == Some((n + 12, 11int, n + 11)));
    assert(t.subrange(11, 11 + n) =~= body);
}

/// The style after a single `key=value` token.
pub proof fn lemma_single_token_style(st: StyleView, key: Seq<char>, value: Seq<char>)
    requires
        forall|k: int| 0 <= k < key.len() ==> #[trigger] key[k] != '=',
    ensures
        spec_apply_tokens(st, seq![key + seq!['='] + value]) == spec_apply_pair(st, key, value),
{
    lemma_pair_token(key, value);
    let tok = key + seq!['='] + value;
    let toks = seq![tok];
    assert(toks[0] == tok);
    assert(toks.drop_first() =~= Seq::<Seq<char>>::empty());
    let st1 = spec_apply_token(st, tok);
    assert(spec_apply_tokens(st1, Seq::<Seq<char>>::empty()) == st1);
    assert(st1 == spec_apply_pair(st, key, value));
}

/// A state named in a marker is read without regard to ASCII letter case:
/// `[zed-style state=RUNNING]` gives the state `running`, and so the same
/// canonical state as `state=running`.
pub proof fn lemma_marker_state_ignores_case(v: Seq<char>, after: Seq<char>)
    requires
        v.len() > 0,
        vstd::utf8::is_ascii_chars(v),
        forall|k: int| 0 <= k < v.len() ==> !is_white_space(#[trigger] v[k]) && v[k] != ']',
    ensures
        ({
            let t = marker_prefix() + seq![' '] + ("state"@ + seq!['='] + v) + seq![']'] + after;
            &&& spec_title_marker(t).0 matches Some(st)
            &&& st.state == Some(ascii_lowercase(v))
            &&& spec_known_state(st.state) == spec_known_state(Some(ascii_lowercase(v)))
        }),
{
    reveal_strlit("state");
    reveal_strlit("accent");
    reveal_strlit("icon");
    reveal_strlit("background");
    reveal_strlit("badge");
    let key = "state"@;
    let body = key + seq!['='] + v;
    assert forall|k: int| 0 <= k < body.len() implies !is_white_space(#[trigger] body[k])
        && body[k] != ']' by {
        if k > 5 {
            assert(body[k] == v[k - 6]);
        }
    }
    lemma_leading_marker(body, after);
    lemma_split_word(body, Seq::<char>::empty());
    lemma_single_token_style(empty_style(), key, v);
    assert(key != "accent"@ && key != "icon"@ && key != "background"@ && key != "badge"@);
    crate::style::lemma_trim_keeps_unspaced(v);
}

/// The marker found is the leftmost one: a marker stands where it was found,
/// none starts before it, and when none is found none starts anywhere.
pub proof fn lemma_marker_is_leftmost(t: Seq<char>)
    ensures
        find_marker(t) matches Some((p, e, bs, be)) ==> marker_at(t, p) == Some((e, bs, be))
            && forall|q: int| 0 <= q < p ==> (#[trigger] marker_at(t, q)) is None,
        find_marker(t) is None ==> forall|q: int| (#[trigger] marker_at(t, q)) is None,
{
    lemma_marker_from_leftmost(t, 0);
}

proof fn lemma_marker_from_leftmost(t: Seq<char>, p: int)
    requires
        0 <= p,
    ensures
        marker_from(t, p) matches Some((s, e, bs, be)) ==> p <= s && marker_at(t, s) == Some((e, bs, be))
            && forall|q: int| p <= q < s ==> (#[trigger] marker_at(t, q)) is None,
        marker_from(t, p) is None ==> forall|q: int| p <= q ==> (#[trigger] marker_at(t, q)) is None,
    decreases t.len() - p,
{
    if p < t.len() {
        if marker_at(t, p) is None {
            lemma_marker_from_leftmost(t, p + 1);
        }
    } else {
        assert forall|q: int| p <= q implies (#[trigger] marker_at(t, q)) is None by {}
    }
}

/// What a marker at `p` is, character by character: `[zed-style` at `p`; its
/// body starts after the whitespace that follows the prefix (there is some
/// unless the marker closes at once) and does not start with whitespace;
/// the body holds no `]`; and the marker ends just after the `]` that closes
/// the body. Conversely a `[zed-style` followed by `]`, or by whitespace and
/// then somewhere a `]`, is a marker.
pub proof fn lemma_marker_shape(t: Seq<char>, p: int)
    ensures
        marker_at(t, p) matches Some((e, bs, be)) ==> {
            &&& 0 <= p && p + 10 < e <= t.len() && p + 10 <= bs <= be <= e
            &&& t.subrange(p, p + 10) == marker_prefix()
            &&& t[e - 1] == ']'
            &&& forall|k: int| p + 10 <= k < e - 1 ==> #[trigger] t[k] != ']'
            &&& (e - 1 == p + 10 || is_white_space(t[p + 10]))
            &&& (bs == be || be == e - 1)
            &&& forall|k: int| p + 10 <= k < bs && k < e - 1 ==> is_white_space(#[trigger] t[k])
            &&& (bs < be ==> !is_white_space(t[bs]))
            &&& (be == e - 1 ==> bs == be || !is_white_space(t[bs]))
        },
        0 <= p && p + 10 < t.len() && t.subrange(p, p + 10) == marker_prefix() && (t[p + 10] == ']'
            || (is_white_space(t[p + 10]) && exists|c: int| p + 10 < c < t.len() && #[trigger] t[c]
            == ']')) ==> marker_at(t, p) is Some,
{
    let q = p + 10;
    if 0 <= p && q < t.len() && t.subrange(p, q) == marker_prefix() && t[q] != ']' && is_white_space(t[q]) {
        lemma_close_from(t, q);
        lemma_skip_white_space(t, q);
        if close_from(t, q) is Some {
            let c = close_from(t, q)->0;
            if skip_white_space(t, q) > c {
                assert(is_white_space(t[c]));
            }
            assert(t[q] != ']');
        } else {
            if exists|c: int| q < c < t.len() && #[trigger] t[c] == ']' {
                let c = choose|c: int| q < c < t.len() && #[trigger] t[c] == ']';
                assert(t[c] != ']');
            }
        }
    }
}

/// Tokens apply in order: the style after some tokens and then one more is
/// that one token applied to the style after the others, so a later token
/// overrides an earlier one.
pub proof fn lemma_tokens_apply_in_order(st: StyleView, toks: Seq<Seq<char>>, tok: Seq<char>)
    ensures
        spec_apply_tokens(st, toks.push(tok)) == spec_apply_token(spec_apply_tokens(st, toks), tok),
    decreases toks.len(),
{
    if toks.len() == 0 {
        let one = toks.push(tok);
        assert(one[0] == tok);
        assert(one.drop_first() =~= Seq::<Seq<char>>::empty());
        let st1 = spec_apply_token(st, tok);
        assert(spec_apply_tokens(st1, Seq::<Seq<char>>::empty()) == st1);
    } else {
        assert(toks.push(tok)[0] == toks[0]);
        assert(toks.push(tok).drop_first() =~= toks.drop_first().push(tok));
        lemma_tokens_apply_in_order(spec_apply_token(st, toks[0]), toks.drop_first(), tok);
    }
}

/// A token without `=`, and a pair whose key is none of `accent`, `icon`,
/// `background`, `badge` and `state`, change nothing; a known key sets its own
/// field from the value and leaves every other field as it was.
pub proof fn lemma_pair_sets_its_field(st: StyleView, key: Seq<char>, value: Seq<char>, tok: Seq<char>)
    ensures
        (forall|k: int| 0 <= k < tok.len() ==> #[trigger] tok[k] != '=') ==> spec_apply_token(st, tok)
            == st,
        key != "accent"@ && key != "icon"@ && key != "background"@ && key != "badge"@ && key
            != "state"@ ==> spec_apply_pair(st, key, value) == st,
        key == "accent"@ ==> spec_apply_pair(st, key, value) == (StyleView {
            accent_color: spec_parse_hex(vstd::utf8::encode_utf8(value)),
            ..st
        }),
        key == "icon"@ ==> spec_apply_pair(st, key, value) == (StyleView {
            icon_color: spec_parse_hex(vstd::utf8::encode_utf8(value)),
            ..st
        }),
        key == "background"@ ==> spec_apply_pair(st, key, value) == (StyleView {
            background_tint: spec_parse_hex(vstd::utf8::encode_utf8(value)),
            ..st
        }),
        key == "badge"@ ==> spec_apply_pair(st, key, value) == (StyleView {
            badge: spec_clamp_badge(value),
            ..st
        }),
        key == "state"@ ==> spec_apply_pair(st, key, value) == (StyleView {
            state: spec_clean_state(value),
            ..st
        }),
{
    reveal_strlit("accent");
    reveal_strlit("icon");
    reveal_strlit("background");
    reveal_strlit("badge");
    reveal_strlit("state");
    assert("accent"@.len() == 6 && "icon"@.len() == 4 && "background"@.len() == 10);
    assert("badge"@.len() == 5 && "state"@.len() == 5 && "badge"@[0] != "state"@[0]);
    lemma_equals_index(tok);
}

/// Where a marker stands in a title, in characters: `start..end` is the whole
/// marker and `body_start..body_end` its body.
#[derive(Clone, Copy, Debug, PartialEq, Eq)]
pub struct MarkerMatch {
    pub start: usize,
    pub end: usize,
    pub body_start: usize,
    pub body_end: usize,
}

impl MarkerMatch {
    /// The four positions as spec integers.
    pub open spec fn spans(self) -> (int, int, int, int) {
        (self.start as int, self.end as int, self.body_start as int, self.body_end as int)
    }
}

proof fn lemma_close_from(t: Seq<char>, i: int)
    requires
        0 <= i,
    ensures
        close_from(t, i) matches Some(c) ==> i <= c < t.len() && t[c] == ']' && forall|k: int|
            i <= k < c ==> #[trigger] t[k] != ']',
        close_from(t, i) is None ==> forall|k: int| i <= k < t.len() ==> #[trigger] t[k] != ']',
    decreases t.len() - i,
{
    if 0 <= i < t.len() && t[i] != ']' {
        lemma_close_from(t, i + 1);
    }
}

/// A marker found at or after `p` starts there or later and holds its body
/// after the prefix and before its end.
pub proof fn lemma_marker_bounds(t: Seq<char>, p: int)
    requires
        0 <= p,
    ensures
        marker_from(t, p) matches Some((s, e, bs, be)) ==> p <= s && s + 10 < bs <= be <= e
            <= t.len(),
    decreases t.len() - p,
{
    if 0 <= p < t.len() {
        match marker_at(t, p) {
            Some((e, bs, be)) => {
                let q = p + 10;
                if t[q] != ']' {
                    lemma_close_from(t, q);
                    lemma_skip_white_space(t, q);
                    let c = close_from(t, q)->0;
                    if skip_white_space(t, q) > c {
                        assert(is_white_space(t[c]));
                    }
                }
            },
            None => {
                lemma_marker_bounds(t, p + 1);
            },
        }
    }
}

/// Whether `t[p..p + 10]` reads `[zed-style`.
fn at_marker_prefix(t: &Vec<char>, p: usize) -> (r: bool)
    requires
        p + 10 <= t.len(),
    ensures
        r == (t@.subrange(p as int, p + 10) == marker_prefix()),
{
    let r = t[p] == '[' && t[p + 1] == 'z' && t[p + 2] == 'e' && t[p + 3] == 'd' && t[p + 4]
        == '-' && t[p + 5] == 's' && t[p + 6] == 't' && t[p + 7] == 'y' && t[p + 8] == 'l' && t[p
        + 9] == 'e';
    proof {
        let w = t@.subrange(p as int, p + 10);
        if r {
            assert(w =~= marker_prefix());
        } else {
            if w == marker_prefix() {
                assert(w[0] == '[' && w[1] == 'z' && w[2] == 'e' && w[3] == 'd' && w[4] == '-');
                assert(w[5] == 's' && w[6] == 't' && w[7] == 'y' && w[8] == 'l' && w[9] == 'e');
            }
        }
    }
    r
}

/// The marker that starts at `p`, if one does.
fn marker_at_exec(t: &Vec<char>, p: usize) -> (r: Option<(usize, usize, usize)>)
    requires
        p < t.len(),
    ensures
        match r {
            None => marker_at(t@, p as int) is None,
            Some((e, bs, be)) => marker_at(t@, p as int) == Some((e as int, bs as int, be as int)),
        },
{
    let n = t.len();
    if n < 11 || p >= n - 10 || !at_marker_prefix(t, p) {
        return None;
    }
    let q = p + 10;
    if t[q] == ']' {
        return Some((q + 1, q + 1, q + 1));
    }
    if !is_whitespace_char(t[q]) {
        return None;
    }
    let mut c = q;
    while c < n && t[c] != ']'
        invariant
            q <= c <= n,
            n == t.len(),
            close_from(t@, q as int) == close_from(t@, c as int),
        decreases n - c,
    {
        c = c + 1;
    }
    if c == n {
        return None;
    }
    let mut w = q;
    while w < n && is_whitespace_char(t[w])
        invariant
            q <= w <= n,
            n == t.len(),
            skip_white_space(t@, q as int) == skip_white_space(t@, w as int),
        decreases n - w,
    {
        w = w + 1;
    }
    Some((c + 1, w, c))
}

/// Finds the leftmost `[zed-style ...]` marker of `title`, in characters.
pub fn locate_marker(title: &str) -> (r: Option<MarkerMatch>)
    ensures
        match r {
            None => find_marker(title@) is None,
            Some(m) => find_marker(title@) == Some(m.spans()),
        },
{
    let t = chars_of(title);
    find_marker_in(&t)
}

fn find_marker_in(t: &Vec<char>) -> (r: Option<MarkerMatch>)
    ensures
        match r {
            None => find_marker(t@) is None,
            Some(m) => find_marker(t@) == Some(m.spans()),
        },
{
    let n = t.len();
    let mut p: usize = 0;
    while p < n
        invariant
            p <= n,
            n == t.len(),
            find_marker(t@) == marker_from(t@, p as int),
        decreases n - p,
    {
        match marker_at_exec(t, p) {
            Some((e, bs, be)) => {
                return Some(MarkerMatch { start: p, end: e, body_start: bs, body_end: be });
            },
            None => {},
        }
        p = p + 1;
    }
    None
}


/// Applies one `key=value` pair to `style`.
fn apply_pair(style: &mut ThreadVisualStyle, key: &str, value: &str)
    ensures
        final(style)@ == spec_apply_pair(old(style)@, key@, value@),
{
    if same_text(key, "accent") {
        style.accent_color = parse_hex(value);
    } else if same_text(key, "icon") {
        style.icon_color = parse_hex(value);
    } else if same_text(key, "background") {
        style.background_tint = parse_hex(value);
    } else if same_text(key, "badge") {
        style.badge = clamp_badge(value);
    } else if same_text(key, "state") {
        style.state = clean_state(value);
    }
}

proof fn lemma_equals_index(s: Seq<char>)
    ensures
        equals_index(s) matches Some(j) ==> 0 <= j < s.len() && s[j] == '=' && forall|k: int|
            0 <= k < j ==> #[trigger] s[k] != '=',
        equals_index(s) is None ==> forall|k: int| 0 <= k < s.len() ==> #[trigger] s[k] != '=',
    decreases s.len(),
{
    if s.len() > 0 && s[0] != '=' {
        lemma_equals_index(s.drop_first());
        assert forall|k: int| 0 < k < s.len() implies #[trigger] s[k] == s.drop_first()[k - 1] by {}
    }
}

/// Applies the token `title[i..k]` to `style`.
fn apply_token(style: &mut ThreadVisualStyle, title: &str, t: &Vec<char>, i: usize, k: usize)
    requires
        t@ == title@,
        i <= k <= t.len(),
    ensures
        final(style)@ == spec_apply_token(old(style)@, title@.subrange(i as int, k as int)),
{
    let ghost tok = title@.subrange(i as int, k as int);
    let mut j = i;
    while j < k && t[j] != '='
        invariant
            i <= j <= k,
            k <= t.len(),
            t@ == title@,
            forall|m: int| i <= m < j ==> #[trigger] t@[m] != '=',
        decreases k - j,
    {
        j = j + 1;
    }
    proof {
        lemma_equals_index(tok);
    }
    if j == k {
        proof {
            if equals_index(tok) is Some {
                let x = equals_index(tok)->0;
                assert(tok[x] == t@[i + x]);
            }
        }
        return;
    }
    proof {
        assert(tok[j - i] == '=');
        assert forall|m: int| 0 <= m < j - i implies #[trigger] tok[m] != '=' by {
            assert(tok[m] == t@[i + m]);
        }
        match equals_index(tok) {
            Some(x) => {
                if x < j - i {
                    assert(tok[x] != '=');
                }
                if x > j - i {
                    assert(tok[j - i] != '=');
                }
            },
            None => {},
        }
        assert(equals_index(tok) == Some((j - i) as int));
        assert(tok.take(j - i) =~= title@.subrange(i as int, j as int));
        assert(tok.skip(j - i + 1) =~= title@.subrange(j + 1, k as int));
    }
    let key = title.substring_char(i, j);
    let value = title.substring_char(j + 1, k);
    apply_pair(style, key, value);
}

/// The style that the marker body `title[bs..be]` describes.
fn style_from_body(title: &str, t: &Vec<char>, bs: usize, be: usize) -> (r: ThreadVisualStyle)
    requires
        t@ == title@,
        bs <= be <= t.len(),
    ensures
        r@ == marker_style(title@.subrange(bs as int, be as int)),
{
    let mut style = ThreadVisualStyle::default();
    let mut i = bs;
    while i < be
        invariant
            bs <= i <= be,
            be <= t.len(),
            t@ == title@,
            spec_apply_tokens(style@, split_whitespace(title@.subrange(i as int, be as int)))
                == marker_style(title@.subrange(bs as int, be as int)),
        decreases be - i,
    {
        let ghost s = title@.subrange(i as int, be as int);
        assert(s.drop_first() =~= title@.subrange(i + 1, be as int));
        if is_whitespace_char(t[i]) {
            i = i + 1;
        } else {
            let mut k = i + 1;
            while k < be && !is_whitespace_char(t[k])
                invariant
                    i < k <= be,
                    be <= t.len(),
                    t@ == title@,
                    word_len(s) == (k - i) + word_len(title@.subrange(k as int, be as int)),
                decreases be - k,
            {
                assert(title@.subrange(k as int, be as int).drop_first() =~= title@.subrange(
                    k + 1,
                    be as int,
                ));
                k = k + 1;
            }
            let ghost before = style@;
            apply_token(&mut style, title, t, i, k);
            proof {
                assert(word_len(s) == k - i);
                let w = s.take(k - i);
                assert(w =~= title@.subrange(i as int, k as int));
                assert(s.skip(k - i) =~= title@.subrange(k as int, be as int));
                let toks = split_whitespace(s);
                assert(toks == seq![w] + split_whitespace(title@.subrange(k as int, be as int)));
                assert(toks[0] == w);
                assert(toks.drop_first() =~= split_whitespace(title@.subrange(k as int, be as int)));
            }
            i = k;
        }
    }
    proof {
        assert(split_whitespace(title@.subrange(be as int, be as int)) =~= Seq::<Seq<char>>::empty());
    }
    style
}

/// Extracts a `[zed-style ...]` marker from a terminal title, returning the
/// parsed style (if any) and the cleaned title with the marker removed.
///
/// The marker is matched anywhere in the string. Surrounding whitespace is
/// collapsed so the visible title never carries a leading/trailing gap.
pub fn parse_title_marker(title: &str) -> (r: (Option<ThreadVisualStyle>, String))
    ensures
        opt_style(r.0) == spec_title_marker(title@).0,
        r.1@ == spec_title_marker(title@).1,
        find_marker(title@) is None ==> r.0 is None && r.1@ == title@,
        find_marker(title@) is Some ==> r.0 is Some,
{
    let t = chars_of(title);
    match find_marker_in(&t) {
        None => (None, title.to_owned()),
        Some(m) => {
            proof {
                lemma_marker_bounds(t@, 0);
            }
            let style = style_from_body(title, &t, m.body_start, m.body_end);
            let mut joined = title.substring_char(0, m.start).to_owned();
            joined.append(title.substring_char(m.end, t.len()));
            proof {
                assert(joined@ =~= title@.take(m.start as int) + title@.skip(m.end as int));
            }
            let cleaned = trim(joined.as_str()).to_owned();
            (Some(style), cleaned)
        },
    }
}

} // verus!
