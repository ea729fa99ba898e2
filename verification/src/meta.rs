//! The style entry of an ACP `_meta` map.
//!
//! A `_meta` map is JSON. What the parser reads of it is held here as plain
//! values: for each key of the map, whether its value is an object and, if
//! so, which of that object's values are strings.

use vstd::prelude::*;
use crate::color::{parse_hex, spec_parse_hex, Rgba8};
use crate::style::{
    clamp_badge, clean_state, opt_style, spec_clamp_badge, spec_clean_state, StyleView,
    ThreadVisualStyle,
};
use crate::marker::{marker_style, spec_apply_pair, spec_apply_token, spec_apply_tokens, spec_title_marker, split_whitespace};
use crate::style::empty_style;
use crate::text::{is_white_space, same_text};

verus! {

/// Namespaced ACP `_meta` key. Producers attach a JSON object under this key
/// describing how the row should look.
pub const ZED_THREAD_STYLE_META_KEY: &'static str = "zed.dev/thread_style";

/// A value inside the style object: a JSON string, or anything else.
#[derive(Clone, Debug, PartialEq, Eq)]
pub enum MetaField {
    Text(String),
    Other,
}

/// A value of the `_meta` map: a JSON object with its entries, or anything else.
#[derive(Clone, Debug, PartialEq, Eq)]
pub enum MetaValue {
    Object(Vec<(String, MetaField)>),
    Other,
}

/// An ACP `_meta` map: its keys, each with what its value is. Keys are distinct,
/// as in any JSON object.
#[derive(Clone, Debug, PartialEq, Eq)]
pub struct Meta {
    pub entries: Vec<(String, MetaValue)>,
}

/// The value stored under `key` (the first entry with that key).
pub open spec fn lookup<V>(entries: Seq<(String, V)>, key: Seq<char>) -> Option<V>
    decreases entries.len(),
{
    if entries.len() == 0 {
        None
    } else if entries[0].0@ == key {
        Some(entries[0].1)
    } else {
        lookup(entries.drop_first(), key)
    }
}

/// The string stored under `key` of the style object, if that value is a string.
pub open spec fn text_field(fields: Seq<(String, MetaField)>, key: Seq<char>) -> Option<Seq<char>> {
    match lookup(fields, key) {
        Some(MetaField::Text(s)) => Some(s@),
        _ => None,
    }
}

/// A colour field: parsed when it is a string, unset otherwise.
pub open spec fn color_field(fields: Seq<(String, MetaField)>, key: Seq<char>) -> Option<Rgba8> {
    match text_field(fields, key) {
        Some(s) => spec_parse_hex(vstd::utf8::encode_utf8(s)),
        None => None,
    }
}

/// The style a style object describes. Each field is read on its own: a
/// missing or invalid field is left unset and spoils nothing else.
pub open spec fn spec_object_style(fields: Seq<(String, MetaField)>) -> StyleView {
    StyleView {
        accent_color: color_field(fields, "accent_color"@),
        icon_color: color_field(fields, "icon_color"@),
        background_tint: color_field(fields, "background_tint"@),
        badge: match text_field(fields, "badge"@) {
            Some(s) => spec_clamp_badge(s),
            None => None,
        },
        state: match text_field(fields, "state"@) {
            Some(s) => spec_clean_state(s),
            None => None,
        },
    }
}

/// The style a `_meta` map carries: `None` when the style key is absent or
/// its value is not an object.
pub open spec fn spec_parse_meta(meta: Meta) -> Option<StyleView> {
    match lookup(meta.entries@, ZED_THREAD_STYLE_META_KEY@) {
        Some(MetaValue::Object(fields)) => Some(spec_object_style(fields@)),
        _ => None,
    }
}

/// Finds the value stored under `key`.
fn find_entry<'a, V>(entries: &'a Vec<(String, V)>, key: &str) -> (r: Option<&'a V>)
    ensures
        match r {
            Some(v) => lookup(entries@, key@) == Some(*v),
            None => lookup(entries@, key@) is None,
        },
{
    let mut i: usize = 0;
    assert(entries@.skip(0) =~= entries@);
    while i < entries.len()
        invariant
            i <= entries.len(),
            lookup(entries@, key@) == lookup(entries@.skip(i as int), key@),
        decreases entries.len() - i,
    {
        let ghost rest = entries@.skip(i as int);
        assert(rest[0] == entries@[i as int]);
        assert(rest.drop_first() =~= entries@.skip(i + 1));
        if same_text(entries[i].0.as_str(), key) {
            return Some(&entries[i].1);
        }
        i = i + 1;
    }
    None
}

/// The string stored under `key` of a style object, if it is a string.
fn find_text<'a>(fields: &'a Vec<(String, MetaField)>, key: &str) -> (r: Option<&'a str>)
    ensures
        match r {
            Some(s) => text_field(fields@, key@) == Some(s@),
            None => text_field(fields@, key@) is None,
        },
{
    match find_entry(fields, key) {
        Some(MetaField::Text(s)) => Some(s.as_str()),
        _ => None,
    }
}

/// Parse the `zed.dev/thread_style` entry from an ACP `_meta` map.
///
/// Returns `None` if the key is absent or its value is not a JSON object.
/// Invalid fields inside the object are silently dropped (per the
/// "ignore-and-fall-back" contract) rather than failing the whole parse.
pub fn parse_meta(meta: &Meta) -> (r: Option<ThreadVisualStyle>)
    ensures
        opt_style(r) == spec_parse_meta(*meta),
        r is Some <==> lookup(meta.entries@, ZED_THREAD_STYLE_META_KEY@) matches Some(
            MetaValue::Object(_),
        ),
{
    let fields = match find_entry(&meta.entries, ZED_THREAD_STYLE_META_KEY) {
        Some(MetaValue::Object(fields)) => fields,
        _ => {
            return None;
        },
    };
    let mut style = ThreadVisualStyle::default();
    if let Some(s) = find_text(fields, "accent_color") {
        style.accent_color = parse_hex(s);
    }
    if let Some(s) = find_text(fields, "icon_color") {
        style.icon_color = parse_hex(s);
    }
    if let Some(s) = find_text(fields, "background_tint") {
        style.background_tint = parse_hex(s);
    }
    if let Some(s) = find_text(fields, "badge") {
        style.badge = clamp_badge(s);
    }
    if let Some(s) = find_text(fields, "state") {
        style.state = clean_state(s);
    }
    Some(style)
}

/// Convenience wrapper for the common `Option<acp::Meta>` shape exposed by
/// most ACP carrier types.
pub fn parse_meta_opt(meta: &Option<Meta>) -> (r: Option<ThreadVisualStyle>)
    ensures
        opt_style(r) == match meta {
            Some(m) => spec_parse_meta(*m),
            None => None,
        },
{
    match meta {
        Some(m) => parse_meta(m),
        None => None,
    }
}


/// A lookup finds the first entry with the key, and finds nothing exactly
/// when no entry has it.
pub proof fn lemma_lookup<V>(entries: Seq<(String, V)>, key: Seq<char>)
    ensures
        lookup(entries, key) is None <==> forall|i: int|
            0 <= i < entries.len() ==> (#[trigger] entries[i]).0@ != key,
        lookup(entries, key) matches Some(v) ==> exists|i: int|
            0 <= i < entries.len() && (#[trigger] entries[i]).0@ == key && entries[i].1 == v
                && forall|j: int| 0 <= j < i ==> (#[trigger] entries[j]).0@ != key,
    decreases entries.len(),
{
    if entries.len() > 0 {
        let rest = entries.drop_first();
        lemma_lookup(rest, key);
        assert forall|i: int| 0 < i < entries.len() implies #[trigger] entries[i] == rest[i - 1] by {}
        if entries[0].0@ == key {
            assert(lookup(entries, key) == Some(entries[0].1));
        } else {
            if lookup(rest, key) is Some {
                let v = lookup(rest, key)->0;
                let i = choose|i: int|
                    0 <= i < rest.len() && (#[trigger] rest[i]).0@ == key && rest[i].1 == v
                        && forall|j: int| 0 <= j < i ==> (#[trigger] rest[j]).0@ != key;
                assert(entries[i + 1] == rest[i]);
                assert forall|j: int| 0 <= j < i + 1 implies (#[trigger] entries[j]).0@ != key by {
                    if j > 0 {
                        assert(entries[j] == rest[j - 1]);
                    }
                }
            } else {
                assert forall|i: int| 0 <= i < entries.len() implies (#[trigger] entries[i]).0@
                    != key by {
                    if i > 0 {
                        assert(entries[i] == rest[i - 1]);
                    }
                }
            }
        }
    }
}

/// Each field of the style is read from the object's entry of the same name
/// alone: absent or not a string, the field is unset; a string, the field is
/// what that string gives; and two objects that agree on a field's entry give
/// that field alike, whatever their other entries hold.
pub proof fn lemma_style_fields_read_on_their_own(
    f: Seq<(String, MetaField)>,
    g: Seq<(String, MetaField)>,
)
    ensures
        text_field(f, "accent_color"@) is None ==> spec_object_style(f).accent_color is None,
        text_field(f, "icon_color"@) is None ==> spec_object_style(f).icon_color is None,
        text_field(f, "background_tint"@) is None ==> spec_object_style(f).background_tint is None,
        text_field(f, "badge"@) is None ==> spec_object_style(f).badge is None,
        text_field(f, "state"@) is None ==> spec_object_style(f).state is None,
        text_field(f, "accent_color"@) matches Some(x) ==> spec_object_style(f).accent_color
            == spec_parse_hex(vstd::utf8::encode_utf8(x)),
        text_field(f, "icon_color"@) matches Some(x) ==> spec_object_style(f).icon_color
            == spec_parse_hex(vstd::utf8::encode_utf8(x)),
        text_field(f, "background_tint"@) matches Some(x) ==> spec_object_style(f).background_tint
            == spec_parse_hex(vstd::utf8::encode_utf8(x)),
        text_field(f, "badge"@) matches Some(x) ==> spec_object_style(f).badge == spec_clamp_badge(x),
        text_field(f, "state"@) matches Some(x) ==> spec_object_style(f).state == spec_clean_state(x),
        text_field(f, "accent_color"@) == text_field(g, "accent_color"@) ==> spec_object_style(
            f,
        ).accent_color == spec_object_style(g).accent_color,
        text_field(f, "icon_color"@) == text_field(g, "icon_color"@) ==> spec_object_style(
            f,
        ).icon_color == spec_object_style(g).icon_color,
        text_field(f, "background_tint"@) == text_field(g, "background_tint"@) ==> spec_object_style(
            f,
        ).background_tint == spec_object_style(g).background_tint,
        text_field(f, "badge"@) == text_field(g, "badge"@) ==> spec_object_style(f).badge
            == spec_object_style(g).badge,
        text_field(f, "state"@) == text_field(g, "state"@) ==> spec_object_style(f).state
            == spec_object_style(g).state,
{
}

/// `x` holds no whitespace and no `]`, so it can stand as one marker word.
pub open spec fn marker_word(x: Seq<char>) -> bool {
    forall|k: int| 0 <= k < x.len() ==> !is_white_space(#[trigger] x[k]) && x[k] != ']'
}

proof fn lemma_marker_word_concat(x: Seq<char>, y: Seq<char>)
    requires
        marker_word(x),
        marker_word(y),
    ensures
        marker_word(x + y),
{
    assert forall|k: int| 0 <= k < (x + y).len() implies !is_white_space(#[trigger] (x + y)[k])
        && (x + y)[k] != ']' by {
        if k < x.len() {
            assert((x + y)[k] == x[k]);
        } else {
            assert((x + y)[k] == y[k - x.len()]);
        }
    }
}

proof fn lemma_no_close_concat(x: Seq<char>, y: Seq<char>)
    requires
        forall|k: int| 0 <= k < x.len() ==> #[trigger] x[k] != ']',
        forall|k: int| 0 <= k < y.len() ==> #[trigger] y[k] != ']',
    ensures
        forall|k: int| 0 <= k < (x + y).len() ==> #[trigger] (x + y)[k] != ']',
{
    assert forall|k: int| 0 <= k < (x + y).len() implies #[trigger] (x + y)[k] != ']' by {
        if k < x.len() {
            assert((x + y)[k] == x[k]);
        } else {
            assert((x + y)[k] == y[k - x.len()]);
        }
    }
}

/// The token `key=value`.
pub open spec fn pair_token(key: Seq<char>, value: Seq<char>) -> Seq<char> {
    key + seq!['='] + value
}

/// The marker body `accent=a icon=i background=g badge=b state=s`.
pub open spec fn full_marker_body(
    a: Seq<char>,
    i: Seq<char>,
    g: Seq<char>,
    b: Seq<char>,
    s: Seq<char>,
) -> Seq<char> {
    let sp = seq![' '];
    pair_token("accent"@, a) + sp + (pair_token("icon"@, i) + sp + (pair_token("background"@, g)
        + sp + (pair_token("badge"@, b) + sp + pair_token("state"@, s))))
}

proof fn lemma_apply_tokens_cons(st: StyleView, tok: Seq<char>, rest: Seq<Seq<char>>)
    ensures
        spec_apply_tokens(st, seq![tok] + rest) == spec_apply_tokens(spec_apply_token(st, tok), rest),
{
    let toks = seq![tok] + rest;
    assert(toks[0] == tok);
    assert(toks.drop_first() =~= rest);
}

proof fn lemma_word_of_pair(key: Seq<char>, value: Seq<char>, st: StyleView)
    requires
        key.len() > 0,
        marker_word(key),
        forall|k: int| 0 <= k < key.len() ==> #[trigger] key[k] != '=',
        marker_word(value),
    ensures
        marker_word(pair_token(key, value)),
        pair_token(key, value).len() > 0,
        spec_apply_token(st, pair_token(key, value)) == spec_apply_pair(st, key, value),
{
    crate::marker::lemma_pair_token(key, value);
    lemma_marker_word_concat(key, seq!['=']);
    lemma_marker_word_concat(key + seq!['='], value);
}

/// The two ways to give a style agree: a `_meta` style object whose five
/// fields are the strings `a`, `i`, `g`, `b` and `s` gives the same style as
/// the title marker `[zed-style accent=a icon=i background=g badge=b state=s]`,
/// for strings that can stand in a marker (no whitespace, no `]`).
pub proof fn lemma_meta_and_marker_agree(
    meta: Meta,
    a: Seq<char>,
    i: Seq<char>,
    g: Seq<char>,
    b: Seq<char>,
    s: Seq<char>,
    after: Seq<char>,
)
    requires
        lookup(meta.entries@, ZED_THREAD_STYLE_META_KEY@) matches Some(MetaValue::Object(fields))
            && text_field(fields@, "accent_color"@) == Some(a) && text_field(fields@, "icon_color"@)
            == Some(i) && text_field(fields@, "background_tint"@) == Some(g) && text_field(
            fields@,
            "badge"@,
        ) == Some(b) && text_field(fields@, "state"@) == Some(s),
        marker_word(a),
        marker_word(i),
        marker_word(g),
        marker_word(b),
        marker_word(s),
    ensures
        spec_parse_meta(meta) == spec_title_marker(
            crate::marker::marker_prefix() + seq![' '] + full_marker_body(a, i, g, b, s) + seq![']']
                + after,
        ).0,
{
    reveal_strlit("accent");
    reveal_strlit("icon");
    reveal_strlit("background");
    reveal_strlit("badge");
    reveal_strlit("state");
    let sp = seq![' '];
    assert(marker_word("accent"@) && marker_word("icon"@) && marker_word("background"@));
    assert(marker_word("badge"@) && marker_word("state"@));
    assert(forall|k: int| 0 <= k < "accent"@.len() ==> #[trigger] "accent"@[k] != '=');
    assert(forall|k: int| 0 <= k < "icon"@.len() ==> #[trigger] "icon"@[k] != '=');
    assert(forall|k: int| 0 <= k < "background"@.len() ==> #[trigger] "background"@[k] != '=');
    assert(forall|k: int| 0 <= k < "badge"@.len() ==> #[trigger] "badge"@[k] != '=');
    assert(forall|k: int| 0 <= k < "state"@.len() ==> #[trigger] "state"@[k] != '=');

    let w1 = pair_token("accent"@, a);
    let w2 = pair_token("icon"@, i);
    let w3 = pair_token("background"@, g);
    let w4 = pair_token("badge"@, b);
    let w5 = pair_token("state"@, s);
    let st0 = empty_style();
    lemma_word_of_pair("accent"@, a, st0);
    let st1 = spec_apply_pair(st0, "accent"@, a);
    lemma_word_of_pair("icon"@, i, st1);
    let st2 = spec_apply_pair(st1, "icon"@, i);
    lemma_word_of_pair("background"@, g, st2);
    let st3 = spec_apply_pair(st2, "background"@, g);
    lemma_word_of_pair("badge"@, b, st3);
    let st4 = spec_apply_pair(st3, "badge"@, b);
    lemma_word_of_pair("state"@, s, st4);
    let st5 = spec_apply_pair(st4, "state"@, s);

    let r4 = w4 + sp + w5;
    let r3 = w3 + sp + r4;
    let r2 = w2 + sp + r3;
    let body = w1 + sp + r2;
    assert(body == full_marker_body(a, i, g, b, s));

    assert(forall|k: int| 0 <= k < sp.len() ==> #[trigger] sp[k] != ']');
    lemma_no_close_concat(w4, sp);
    lemma_no_close_concat(w4 + sp, w5);
    lemma_no_close_concat(w3, sp);
    lemma_no_close_concat(w3 + sp, r4);
    lemma_no_close_concat(w2, sp);
    lemma_no_close_concat(w2 + sp, r3);
    lemma_no_close_concat(w1, sp);
    lemma_no_close_concat(w1 + sp, r2);
    assert(body[0] == w1[0]);
    crate::marker::lemma_leading_marker(body, after);

    crate::marker::lemma_split_word(w1, r2);
    crate::marker::lemma_split_word(w2, r3);
    crate::marker::lemma_split_word(w3, r4);
    crate::marker::lemma_split_word(w4, w5);
    crate::marker::lemma_split_word(w5, Seq::<char>::empty());
    let toks = split_whitespace(body);
    assert(toks == seq![w1] + (seq![w2] + (seq![w3] + (seq![w4] + seq![w5]))));

    lemma_apply_tokens_cons(st0, w1, seq![w2] + (seq![w3] + (seq![w4] + seq![w5])));
    lemma_apply_tokens_cons(st1, w2, seq![w3] + (seq![w4] + seq![w5]));
    lemma_apply_tokens_cons(st2, w3, seq![w4] + seq![w5]);
    lemma_apply_tokens_cons(st3, w4, seq![w5]);
    lemma_apply_tokens_cons(st4, w5, Seq::<Seq<char>>::empty());
    assert(seq![w5] + Seq::<Seq<char>>::empty() =~= seq![w5]);
    assert(spec_apply_tokens(st5, Seq::<Seq<char>>::empty()) == st5);
    assert(marker_style(body) == st5);
    let fields = match lookup(meta.entries@, ZED_THREAD_STYLE_META_KEY@) {
        Some(MetaValue::Object(f)) => f,
        _ => arbitrary(),
    };
    assert(st5 =~= spec_object_style(fields@));
}

} // verus!
