use thread_visual_style::color::{parse_hex, Rgba8};
use thread_visual_style::marker::parse_title_marker;
use thread_visual_style::meta::{parse_meta, Meta, MetaField, MetaValue, ZED_THREAD_STYLE_META_KEY};
use thread_visual_style::style::{clamp_badge, clean_state, KnownState, ThreadVisualStyle, BADGE_MAX_LEN};

fn lightness(c: Rgba8) -> f32 {
    let max = c.r.max(c.g).max(c.b) as f32 / 255.0;
    let min = c.r.min(c.g).min(c.b) as f32 / 255.0;
    (max + min) / 2.0
}

fn meta_with(key: &str, value: MetaValue) -> Meta {
    Meta { entries: vec![(key.to_owned(), value)] }
}

fn text(s: &str) -> MetaField {
    MetaField::Text(s.to_owned())
}

fn style_object(fields: &[(&str, MetaField)]) -> MetaValue {
    MetaValue::Object(fields.iter().map(|(k, v)| (k.to_string(), v.clone())).collect())
}

#[test]
fn parse_hex_accepts_three_six_and_eight_digit_forms() {
    let rrggbb = parse_hex("#3b82f6").expect("six-digit hex parses");
    let rgb = parse_hex("#3bf").expect("three-digit hex parses");
    let rrggbbaa = parse_hex("#3b82f680").expect("eight-digit hex parses");

    // Three-digit form expands by nibble repetition.
    let expanded = Rgba8 { r: 0x33, g: 0xbb, b: 0xff, a: 0xff };
    assert_eq!(rgb, expanded);

    // Eight-digit form preserves alpha.
    assert_eq!(rrggbbaa.a, 0x80);
    assert!((rrggbbaa.a as f32 / 255.0 - 0x80 as f32 / 255.0).abs() < 1e-3);

    // Sanity: a known purple expansion.
    assert!(lightness(rrggbb) > 0.0);
}

#[test]
fn parse_hex_rejects_invalid_input() {
    assert!(parse_hex("not-a-color").is_none());
    assert!(parse_hex("#zzz").is_none());
    assert!(parse_hex("#12345").is_none(), "5-digit form is not accepted");
    assert!(parse_hex("3b82f6").is_none(), "missing # prefix");
    assert!(parse_hex("").is_none());
}

#[test]
fn clamp_badge_trims_and_truncates() {
    assert_eq!(clamp_badge("  working  ").as_deref(), Some("working"));
    assert_eq!(clamp_badge("").as_deref(), None);
    assert_eq!(clamp_badge("   ").as_deref(), None);

    let long = "continuous-integration";
    let clamped = clamp_badge(long).unwrap();
    assert!(clamped.len() <= BADGE_MAX_LEN);
    assert!(long.starts_with(clamped.as_str()));

    // Multibyte safety: the truncation must land on a UTF-8 boundary.
    let multibyte = "🚀🚀🚀🚀🚀🚀🚀🚀🚀🚀";
    let clamped = clamp_badge(multibyte).unwrap();
    assert!(clamped.len() <= BADGE_MAX_LEN);
    assert!(clamped.is_char_boundary(clamped.len()));
}

#[test]
fn parse_title_marker_strips_marker_and_keeps_remainder() {
    let (style, cleaned) =
        parse_title_marker("[zed-style accent=#3b82f6 badge=working state=running] my task");
    let style = style.expect("marker present");
    assert_eq!(cleaned, "my task");
    assert!(style.accent_color.is_some());
    assert_eq!(style.badge.as_deref(), Some("working"));
    assert_eq!(style.state.as_deref(), Some("running"));
}

#[test]
fn parse_title_marker_handles_all_supported_keys() {
    let (style, cleaned) = parse_title_marker(
        "[zed-style accent=#3b82f6 icon=#ff0000 background=#0000ff80 badge=hi state=deploying unknown=ignored] title",
    );
    let style = style.expect("marker present");
    assert_eq!(cleaned, "title");
    assert!(style.accent_color.is_some());
    assert!(style.icon_color.is_some());
    assert!(style.background_tint.is_some());
    assert_eq!(style.badge.as_deref(), Some("hi"));
    assert_eq!(style.state.as_deref(), Some("deploying"));
}

#[test]
fn parse_title_marker_empty_marker_yields_default_style() {
    // `[zed-style]` is the explicit reset form.
    let (style, cleaned) = parse_title_marker("[zed-style] back to plain");
    let style = style.expect("empty marker still counts as a marker");
    assert_eq!(style, ThreadVisualStyle::default());
    assert_eq!(cleaned, "back to plain");

    // Whitespace-only body is equivalent.
    let (style, cleaned) = parse_title_marker("[zed-style ] back to plain");
    let style = style.expect("whitespace-only marker still counts as a marker");
    assert_eq!(style, ThreadVisualStyle::default());
    assert_eq!(cleaned, "back to plain");
}

#[test]
fn parse_title_marker_requires_word_boundary_after_zed_style() {
    // `[zed-styleX]` must NOT be parsed as our marker.
    let (style, cleaned) = parse_title_marker("[zed-styleX] not a marker");
    assert!(style.is_none());
    assert_eq!(cleaned, "[zed-styleX] not a marker");
}

#[test]
fn parse_title_marker_no_marker_returns_original_title() {
    let (style, cleaned) = parse_title_marker("nothing fancy here");
    assert!(style.is_none());
    assert_eq!(cleaned, "nothing fancy here");
}

#[test]
fn parse_title_marker_collapses_surrounding_whitespace() {
    let (_, cleaned) = parse_title_marker("   [zed-style state=running]    actual title   ");
    assert_eq!(cleaned, "actual title");
}

#[test]
fn parse_meta_absent_key_returns_none() {
    let meta = meta_with("something_else", MetaValue::Other);
    assert!(parse_meta(&meta).is_none());
}

#[test]
fn parse_meta_present_but_non_object_returns_none() {
    let meta = meta_with(ZED_THREAD_STYLE_META_KEY, MetaValue::Other);
    assert!(parse_meta(&meta).is_none());
}

#[test]
fn parse_meta_present_but_empty_returns_default() {
    let meta = meta_with(ZED_THREAD_STYLE_META_KEY, MetaValue::Object(Vec::new()));
    let style = parse_meta(&meta).expect("empty object parses");
    assert_eq!(style, ThreadVisualStyle::default());
}

#[test]
fn parse_meta_drops_invalid_hex_silently() {
    let meta = meta_with(
        ZED_THREAD_STYLE_META_KEY,
        style_object(&[("accent_color", text("not-a-color")), ("badge", text("ok"))]),
    );
    let style = parse_meta(&meta).expect("object parses even with invalid hex");
    assert!(style.accent_color.is_none(), "invalid hex dropped");
    assert_eq!(style.badge.as_deref(), Some("ok"));
}

#[test]
fn parse_meta_reads_all_fields() {
    let meta = meta_with(
        ZED_THREAD_STYLE_META_KEY,
        style_object(&[
            ("accent_color", text("#3b82f6")),
            ("icon_color", text("#ff0000")),
            ("background_tint", text("#0000ff80")),
            ("badge", text("working")),
            ("state", text("running")),
        ]),
    );
    let style = parse_meta(&meta).expect("full object parses");
    assert!(style.accent_color.is_some());
    assert!(style.icon_color.is_some());
    assert!(style.background_tint.is_some());
    assert_eq!(style.badge.as_deref(), Some("working"));
    assert_eq!(style.state.as_deref(), Some("running"));
    assert_eq!(style.known_state(), Some(KnownState::Running));
}

#[test]
fn known_state_matches_only_canonical_strings() {
    let mut style = ThreadVisualStyle::default();

    for (input, expected) in [
        ("running", Some(KnownState::Running)),
        ("waiting-for-confirmation", Some(KnownState::WaitingForConfirmation)),
        ("completed", Some(KnownState::Completed)),
        ("error", Some(KnownState::Error)),
        ("deploying", None),
        ("Running", None),
        ("", None),
    ] {
        style.state = if input.is_empty() { None } else { Some(input.to_owned()) };
        assert_eq!(style.known_state(), expected, "input = {input:?}");
    }
}

#[test]
fn clean_state_trims_and_lowercases() {
    assert_eq!(clean_state("  Running  ").as_deref(), Some("running"));
    assert_eq!(
        clean_state("Waiting-For-Confirmation").as_deref(),
        Some("waiting-for-confirmation")
    );
    assert_eq!(clean_state("   ").as_deref(), None);
}
