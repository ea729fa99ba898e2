//! The style of one row: colours, a short badge and an optional state.

use vstd::prelude::*;
use vstd::string::*;
use crate::color::Rgba8;
use crate::text::{
    ascii_lower, ascii_lowercase, is_white_space, lowercase, same_text, spec_trim, to_lowercase,
    trim,
};

verus! {

/// The longest badge, in UTF-8 bytes.
pub const BADGE_MAX_LEN: usize = 16;

/// The four canonical thread states a producer can name.
#[derive(Clone, Copy, Debug, PartialEq, Eq)]
pub enum KnownState {
    Running,
    WaitingForConfirmation,
    Completed,
    Error,
}

/// How a producer wants a thread or terminal row to look.
///
/// Every field is optional: a field left out, or one whose value did not
/// parse, falls back to the row's own look.
#[derive(Clone, Debug, PartialEq, Eq)]
pub struct ThreadVisualStyle {
    pub accent_color: Option<Rgba8>,
    pub icon_color: Option<Rgba8>,
    pub background_tint: Option<Rgba8>,
    pub badge: Option<String>,
    pub state: Option<String>,
}

/// The text of an optional string.
pub open spec fn opt_text(s: Option<String>) -> Option<Seq<char>> {
    match s {
        Some(x) => Some(x@),
        None => None,
    }
}

/// A [`ThreadVisualStyle`] with its texts as character sequences.
#[verifier::ext_equal]
pub struct StyleView {
    pub accent_color: Option<Rgba8>,
    pub icon_color: Option<Rgba8>,
    pub background_tint: Option<Rgba8>,
    pub badge: Option<Seq<char>>,
    pub state: Option<Seq<char>>,
}

impl View for ThreadVisualStyle {
    type V = StyleView;

    open spec fn view(&self) -> StyleView {
        StyleView {
            accent_color: self.accent_color,
            icon_color: self.icon_color,
            background_tint: self.background_tint,
            badge: opt_text(self.badge),
            state: opt_text(self.state),
        }
    }
}

/// The style of an optional style.
pub open spec fn opt_style(s: Option<ThreadVisualStyle>) -> Option<StyleView> {
    match s {
        Some(x) => Some(x@),
        None => None,
    }
}

/// The style with every field unset.
pub open spec fn empty_style() -> StyleView {
    StyleView {
        accent_color: None,
        icon_color: None,
        background_tint: None,
        badge: None,
        state: None,
    }
}

impl Default for ThreadVisualStyle {
    fn default() -> (r: Self)
        ensures
            r@ == empty_style(),
    {
        ThreadVisualStyle {
            accent_color: None,
            icon_color: None,
            background_tint: None,
            badge: None,
            state: None,
        }
    }
}

/// The canonical state a state text names, if it names one exactly.
pub open spec fn spec_known_state(state: Option<Seq<char>>) -> Option<KnownState> {
    match state {
        Some(s) => if s == "running"@ {
            Some(KnownState::Running)
        } else if s == "waiting-for-confirmation"@ {
            Some(KnownState::WaitingForConfirmation)
        } else if s == "completed"@ {
            Some(KnownState::Completed)
        } else if s == "error"@ {
            Some(KnownState::Error)
        } else {
            None
        },
        None => None,
    }
}

impl ThreadVisualStyle {
    /// Returns `Some(_)` only for the four canonical states. Unknown state
    /// strings render as decoration but do not override a thread's intrinsic
    /// status icon.
    pub fn known_state(&self) -> (r: Option<KnownState>)
        ensures
            r == spec_known_state(self@.state),
            r == Some(KnownState::Running) <==> self@.state == Some("running"@),
            r == Some(KnownState::WaitingForConfirmation) <==> self@.state == Some(
                "waiting-for-confirmation"@,
            ),
            r == Some(KnownState::Completed) <==> self@.state == Some("completed"@),
            r == Some(KnownState::Error) <==> self@.state == Some("error"@),
    {
        proof {
            if self@.state is Some {
                lemma_known_state_exact(self@.state->0);
            }
        }
        match &self.state {
            None => None,
            Some(s) => {
                let s = s.as_str();
                if same_text(s, "running") {
                    Some(KnownState::Running)
                } else if same_text(s, "waiting-for-confirmation") {
                    Some(KnownState::WaitingForConfirmation)
                } else if same_text(s, "completed") {
                    Some(KnownState::Completed)
                } else if same_text(s, "error") {
                    Some(KnownState::Error)
                } else {
                    None
                }
            },
        }
    }
}

/// Only the four canonical texts, exactly, name a known state: each names
/// its own state, and every other text (one that merely starts with a
/// canonical text too) and an absent state name none.
pub proof fn lemma_known_state_exact(s: Seq<char>)
    ensures
        spec_known_state(Some(s)) == Some(KnownState::Running) <==> s == "running"@,
        spec_known_state(Some(s)) == Some(KnownState::WaitingForConfirmation) <==> s
            == "waiting-for-confirmation"@,
        spec_known_state(Some(s)) == Some(KnownState::Completed) <==> s == "completed"@,
        spec_known_state(Some(s)) == Some(KnownState::Error) <==> s == "error"@,
        spec_known_state(Some(s)) is None <==> s != "running"@ && s != "waiting-for-confirmation"@
            && s != "completed"@ && s != "error"@,
        spec_known_state(None) is None,
{
    reveal_strlit("running");
    reveal_strlit("waiting-for-confirmation");
    reveal_strlit("completed");
    reveal_strlit("error");
    assert("running"@.len() == 7 && "waiting-for-confirmation"@.len() == 24);
    assert("completed"@.len() == 9 && "error"@.len() == 5);
}

/// The largest char boundary of the UTF-8 bytes `b` at or below `i`.
pub open spec fn boundary_at_or_below(b: Seq<u8>, i: int) -> int
    decreases i,
{
    if i <= 0 || vstd::utf8::is_char_boundary(b, i) {
        i
    } else {
        boundary_at_or_below(b, i - 1)
    }
}

/// The badge a text gives: trimmed, `None` when nothing is left, and cut to
/// at most [`BADGE_MAX_LEN`] bytes at the last character boundary that fits.
pub open spec fn spec_clamp_badge(s: Seq<char>) -> Option<Seq<char>> {
    let t = spec_trim(s);
    let b = vstd::utf8::encode_utf8(t);
    if t.len() == 0 {
        None
    } else if b.len() <= BADGE_MAX_LEN {
        Some(t)
    } else {
        Some(vstd::utf8::decode_utf8(b.take(boundary_at_or_below(b, BADGE_MAX_LEN as int))))
    }
}

/// Trims a badge and cuts it to at most [`BADGE_MAX_LEN`] bytes without
/// splitting a character; an empty badge is no badge.
pub fn clamp_badge(input: &str) -> (r: Option<String>)
    ensures
        opt_text(r) == spec_clamp_badge(input@),
{
    let trimmed = trim(input);
    if trimmed.is_empty() {
        return None;
    }
    let byte_len = trimmed.as_bytes().len();
    assert(byte_len == vstd::utf8::encode_utf8(trimmed@).len());
    if byte_len <= BADGE_MAX_LEN {
        return Some(trimmed.to_owned());
    }
    let ghost b = vstd::utf8::encode_utf8(trimmed@);
    proof {
        vstd::utf8::encode_utf8_valid_utf8(trimmed@);
        vstd::utf8::is_char_boundary_start_end_of_seq(b);
    }
    let mut boundary: usize = BADGE_MAX_LEN;
    while !trimmed.is_char_boundary(boundary)
        invariant
            0 <= boundary <= BADGE_MAX_LEN,
            b == vstd::utf8::encode_utf8(trimmed@),
            vstd::utf8::valid_utf8(b),
            vstd::utf8::is_char_boundary(b, 0),
            boundary_at_or_below(b, BADGE_MAX_LEN as int) == boundary_at_or_below(
                b,
                boundary as int,
            ),
        decreases boundary,
    {
        boundary = boundary - 1;
    }
    let (head, _) = trimmed.split_at(boundary);
    proof {
        vstd::utf8::encode_utf8_decode_utf8(head@);
        assert(b.subrange(0, boundary as int) =~= b.take(boundary as int));
    }
    Some(head.to_owned())
}

proof fn lemma_boundary_at_or_below(b: Seq<u8>, i: int)
    requires
        vstd::utf8::valid_utf8(b),
        0 <= i,
    ensures
        0 <= boundary_at_or_below(b, i) <= i,
        vstd::utf8::is_char_boundary(b, boundary_at_or_below(b, i)),
    decreases i,
{
    vstd::utf8::is_char_boundary_start_end_of_seq(b);
    if i > 0 && !vstd::utf8::is_char_boundary(b, i) {
        lemma_boundary_at_or_below(b, i - 1);
    }
}

proof fn lemma_encode_concat(a: Seq<char>, b: Seq<char>)
    ensures
        vstd::utf8::encode_utf8(a + b) == vstd::utf8::encode_utf8(a) + vstd::utf8::encode_utf8(b),
    decreases a.len(),
{
    if a.len() == 0 {
        assert(a + b =~= b);
        assert(vstd::utf8::encode_utf8(a) + vstd::utf8::encode_utf8(b) =~= vstd::utf8::encode_utf8(b));
    } else {
        assert((a + b)[0] == a[0]);
        assert((a + b).drop_first() =~= a.drop_first() + b);
        lemma_encode_concat(a.drop_first(), b);
        let es = vstd::utf8::encode_scalar(a[0] as u32);
        assert(vstd::utf8::encode_utf8(a + b) == es + vstd::utf8::encode_utf8((a + b).drop_first()));
        assert(es + (vstd::utf8::encode_utf8(a.drop_first()) + vstd::utf8::encode_utf8(b)) =~= (es
            + vstd::utf8::encode_utf8(a.drop_first())) + vstd::utf8::encode_utf8(b));
    }
}

proof fn lemma_prefix_is_boundary(t: Seq<char>, m: int)
    requires
        0 <= m <= t.len(),
    ensures
        vstd::utf8::is_char_boundary(
            vstd::utf8::encode_utf8(t),
            vstd::utf8::encode_utf8(t.take(m)).len() as int,
        ),
    decreases m,
{
    vstd::utf8::encode_utf8_valid_utf8(t);
    let b = vstd::utf8::encode_utf8(t);
    if m == 0 {
        assert(t.take(0) =~= Seq::<char>::empty());
    } else {
        let r = t.drop_first();
        lemma_prefix_is_boundary(r, m - 1);
        vstd::utf8::encode_utf8_valid_utf8(r);
        let es = vstd::utf8::encode_scalar(t[0] as u32);
        vstd::utf8::encode_utf8_first_scalar(t);
        assert(t.take(m)[0] == t[0]);
        assert(t.take(m).drop_first() =~= r.take(m - 1));
        assert(vstd::utf8::encode_utf8(t.take(m)) == es + vstd::utf8::encode_utf8(r.take(m - 1)));
        assert(b == es + vstd::utf8::encode_utf8(r));
        assert(vstd::utf8::pop_first_scalar(b) =~= vstd::utf8::encode_utf8(r));
        lemma_encode_concat(r.take(m - 1), r.skip(m - 1));
        assert(r.take(m - 1) + r.skip(m - 1) =~= r);
        assert(es.len() >= 1);
    }
}

proof fn lemma_boundary_below_is_largest(b: Seq<u8>, i: int, j: int)
    requires
        vstd::utf8::valid_utf8(b),
        0 <= j <= i,
        vstd::utf8::is_char_boundary(b, j),
    ensures
        boundary_at_or_below(b, i) >= j,
    decreases i,
{
    if i > j && !vstd::utf8::is_char_boundary(b, i) {
        lemma_boundary_below_is_largest(b, i - 1, j);
    }
}

/// A badge is there exactly when the trimmed text is not empty; it fits in
/// [`BADGE_MAX_LEN`] bytes, starts the trimmed text, and is all of it when the
/// trimmed text already fits.
pub proof fn lemma_badge_fits(s: Seq<char>)
    ensures
        spec_clamp_badge(s) is None <==> spec_trim(s).len() == 0,
        spec_clamp_badge(s) matches Some(x) ==> vstd::utf8::encode_utf8(x).len() <= BADGE_MAX_LEN
            && spec_trim(s).take(x.len() as int) == x,
        vstd::utf8::encode_utf8(spec_trim(s)).len() <= BADGE_MAX_LEN && spec_trim(s).len() > 0
            ==> spec_clamp_badge(s) == Some(spec_trim(s)),
        spec_clamp_badge(s) matches Some(x) ==> (x.len() < spec_trim(s).len()
            ==> vstd::utf8::encode_utf8(spec_trim(s).take(x.len() + 1int)).len() > BADGE_MAX_LEN),
{
    let t = spec_trim(s);
    let b = vstd::utf8::encode_utf8(t);
    if t.len() > 0 && b.len() > BADGE_MAX_LEN {
        vstd::utf8::encode_utf8_valid_utf8(t);
        vstd::utf8::encode_utf8_decode_utf8(t);
        let k = boundary_at_or_below(b, BADGE_MAX_LEN as int);
        lemma_boundary_at_or_below(b, BADGE_MAX_LEN as int);
        vstd::utf8::valid_utf8_split(b, k);
        vstd::utf8::decode_utf8_split(b, k);
        assert(b.subrange(0, k) =~= b.take(k));
        let x = vstd::utf8::decode_utf8(b.take(k));
        vstd::utf8::decode_utf8_encode_utf8(b.take(k));
        assert(t == x + vstd::utf8::decode_utf8(b.subrange(k, b.len() as int)));
        assert(t.take(x.len() as int) =~= x);
        if x.len() < t.len() {
            let m = x.len() + 1int;
            lemma_prefix_is_boundary(t, m);
            assert(t.take(m) =~= t.take(x.len() as int) + seq![t[x.len() as int]]);
            lemma_encode_concat(t.take(x.len() as int), seq![t[x.len() as int]]);
            let one = seq![t[x.len() as int]];
            assert(one.drop_first() =~= Seq::<char>::empty());
            assert(vstd::utf8::encode_utf8(one).len() >= 1);
            let big = vstd::utf8::encode_utf8(t.take(m)).len() as int;
            assert(big > k);
            if big <= BADGE_MAX_LEN {
                lemma_boundary_below_is_largest(b, BADGE_MAX_LEN as int, big);
            }
        }
    }
}

/// The lowercase of a state text: for ASCII text, its capitals made
/// lowercase; otherwise std's Unicode lowercase of it.
pub open spec fn state_lowercase(t: Seq<char>) -> Seq<char> {
    if vstd::utf8::is_ascii_chars(t) {
        ascii_lowercase(t)
    } else {
        lowercase(t)
    }
}

/// The state a text gives: trimmed and lowercased, `None` when nothing is left.
pub open spec fn spec_clean_state(s: Seq<char>) -> Option<Seq<char>> {
    let t = spec_trim(s);
    if t.len() == 0 {
        None
    } else {
        Some(state_lowercase(t))
    }
}

/// Trims and lowercases a state; an empty state is no state.
pub fn clean_state(input: &str) -> (r: Option<String>)
    ensures
        opt_text(r) == spec_clean_state(input@),
{
    let trimmed = trim(input);
    if trimmed.is_empty() {
        return None;
    }
    Some(to_lowercase(trimmed))
}


/// Text without whitespace is its own trim.
pub proof fn lemma_trim_keeps_unspaced(x: Seq<char>)
    requires
        forall|k: int| 0 <= k < x.len() ==> !is_white_space(#[trigger] x[k]),
    ensures
        spec_trim(x) == x,
{
    crate::text::lemma_trim_bounds(x);
    if x.len() > 0 {
        assert(crate::text::trim_start(x) == 0);
        assert(crate::text::trim_end(x) == x.len());
    }
    assert(spec_trim(x) =~= x);
}

/// On ASCII text, cleaning a state settles after one pass: a cleaned state
/// cleans to itself.
pub proof fn lemma_clean_state_settles(s: Seq<char>)
    requires
        vstd::utf8::is_ascii_chars(s),
    ensures
        spec_clean_state(s) matches Some(t) ==> spec_clean_state(t) == Some(t),
{
    let t0 = spec_trim(s);
    if t0.len() > 0 {
        crate::text::lemma_trim_bounds(s);
        let t = ascii_lowercase(t0);
        assert(vstd::utf8::is_ascii_chars(t0)) by {
            assert forall|i: int| 0 <= i < t0.len() implies '\0' <= #[trigger] t0[i] <= '\u{7f}' by {
                assert(t0[i] == s[crate::text::trim_start(s) + i]);
            }
        }
        assert(vstd::utf8::is_ascii_chars(t));
        assert(t[0] == ascii_lower(t0[0]));
        assert(t[t.len() - 1] == ascii_lower(t0[t0.len() - 1]));
        assert(t0[0] == s[crate::text::trim_start(s)]);
        assert(t0[t0.len() - 1] == s[crate::text::trim_end(s) - 1]);
        crate::text::lemma_trim_bounds(t);
        assert(crate::text::trim_start(t) == 0);
        assert(crate::text::trim_end(t) == t.len());
        assert(spec_trim(t) =~= t);
        assert(ascii_lowercase(t) =~= t);
    }
}


/// A state is absent exactly when the text is all whitespace; for ASCII text
/// it is the trimmed text, letter for letter, with capitals made lowercase,
/// so it holds no capital.
pub proof fn lemma_clean_state_shape(s: Seq<char>)
    ensures
        spec_clean_state(s) is None <==> forall|k: int| 0 <= k < s.len() ==> is_white_space(#[trigger] s[k]),
        vstd::utf8::is_ascii_chars(s) ==> (spec_clean_state(s) matches Some(x) ==> {
            &&& x.len() == spec_trim(s).len()
            &&& forall|k: int| 0 <= k < x.len() ==> #[trigger] x[k] == ascii_lower(spec_trim(s)[k])
            &&& forall|k: int| 0 <= k < x.len() ==> !('A' <= #[trigger] x[k] <= 'Z')
        }),
{
    crate::text::lemma_trim_bounds(s);
    let t = spec_trim(s);
    if t.len() > 0 {
        assert(s[crate::text::trim_start(s)] == t[0]);
    }
    if vstd::utf8::is_ascii_chars(s) && t.len() > 0 {
        assert(vstd::utf8::is_ascii_chars(t)) by {
            assert forall|i: int| 0 <= i < t.len() implies '\0' <= #[trigger] t[i] <= '\u{7f}' by {
                assert(t[i] == s[crate::text::trim_start(s) + i]);
            }
        }
    }
}

} // verus!
