use regex::Regex;
use thread_visual_style::color::{decode_nibble, parse_hex, Rgba8};
use thread_visual_style::marker::{locate_marker, parse_title_marker};
use thread_visual_style::meta::{parse_meta, parse_meta_opt, Meta, MetaField, MetaValue, ZED_THREAD_STYLE_META_KEY};
use thread_visual_style::notification::{notification_request, NotificationPriority};
use thread_visual_style::render::{
    apply_background_tint, default_accent_for, resolve_icon_color, wrap_with_visual_style, Accent,
    AgentThreadStatus, IconColor, StyledRow, ThemeAccent, Tinted,
};
use thread_visual_style::style::{clamp_badge, clean_state, KnownState, ThreadVisualStyle, BADGE_MAX_LEN};
use thread_visual_style::text::{is_whitespace_char, same_text, trim};

const HEX: &str = "0123456789abcdefABCDEF";

#[test]
fn decode_nibble_agrees_with_to_digit() {
    for b in 0..=255u8 {
        let expected = (b as char).to_digit(16).map(|d| d as u8);
        let expected = if b.is_ascii() { expected } else { None };
        assert_eq!(decode_nibble(b), expected, "byte {b}");
    }
}

#[test]
fn short_hex_form_repeats_each_digit() {
    for x in HEX.chars() {
        for y in HEX.chars() {
            for z in ['0', '7', 'f', 'C'] {
                let short = format!("#{x}{y}{z}");
                let long = format!("#{x}{x}{y}{y}{z}{z}");
                assert_eq!(parse_hex(&short), parse_hex(&long), "{short}");
                assert!(parse_hex(&short).is_some());
            }
        }
    }
    assert_eq!(parse_hex("#3bf"), parse_hex("#33bbff"));
}

#[test]
fn hex_forms_give_exact_channels() {
    assert_eq!(parse_hex("#3b82f6"), Some(Rgba8 { r: 0x3b, g: 0x82, b: 0xf6, a: 0xff }));
    assert_eq!(parse_hex("#3B82F680"), Some(Rgba8 { r: 0x3b, g: 0x82, b: 0xf6, a: 0x80 }));
    assert_eq!(parse_hex("#000"), Some(Rgba8 { r: 0, g: 0, b: 0, a: 0xff }));
    assert_eq!(parse_hex("#3b82f6"), parse_hex("#3b82f6ff"));
    assert_eq!(parse_hex("#3b82f6").unwrap().packed(), 0x3b82f6ff);
    assert_eq!(parse_hex("#01020304").unwrap().packed(), 0x01020304);
}

#[test]
fn hex_follows_std_radix_parsing() {
    // std's radix parser takes a leading `+` as a sign.
    assert_eq!(parse_hex("#+12345"), parse_hex("#012345"));
    assert_eq!(parse_hex("#+1234567"), parse_hex("#01234567"));
    for bad in ["#-12345", "#++2345", "#+ab", "#1234567", "#123456789", "#", "#é1", "#ab\u{e9}cd", " #abc", "#abc "] {
        assert!(parse_hex(bad).is_none(), "{bad}");
    }
    for s in ["#123456", "#+12345", "#-12345", "#12345g", "#abcdef01", "#+abcdef0"] {
        let d = &s[1..];
        let via_std = u32::from_str_radix(d, 16).ok().map(|v| v << 8 | 0xff);
        assert_eq!(parse_hex(s).map(|c| c.packed()).filter(|_| d.len() == 6), via_std.filter(|_| d.len() == 6), "{s}");
    }
}

#[test]
fn whitespace_is_the_unicode_property() {
    for u in 0..=0x10FFFFu32 {
        if let Some(c) = char::from_u32(u) {
            assert_eq!(is_whitespace_char(c), c.is_whitespace(), "U+{u:04X}");
        }
    }
}

#[test]
fn trim_agrees_with_std() {
    for s in ["", "   ", " a ", "\u{3000}x\u{85}", "a b", "\t\nabc\r\n", "\u{1c}x\u{1c}", "  é  ", "\u{a0}\u{2028}"] {
        assert_eq!(trim(s), s.trim(), "{s:?}");
    }
    assert!(same_text("abc", "abc"));
    assert!(!same_text("abc", "abd"));
    assert!(!same_text("é", "e"));
}

#[test]
fn badge_fits_and_starts_the_trimmed_text() {
    let exact = "abcdefghijklmnop";
    assert_eq!(exact.len(), BADGE_MAX_LEN);
    assert_eq!(clamp_badge(exact).as_deref(), Some(exact));
    assert_eq!(clamp_badge("abcdefghijklmnopq").as_deref(), Some(exact));
    // The 16th byte falls inside `€`: the cut moves back to the boundary before it.
    assert_eq!(clamp_badge("aaaaaaaaaaaaaaa€b").as_deref(), Some("aaaaaaaaaaaaaaa"));
    assert_eq!(clamp_badge("🚀🚀🚀🚀🚀🚀🚀🚀🚀🚀").as_deref(), Some("🚀🚀🚀🚀"));
    // The cut may leave trailing whitespace; it is not trimmed again.
    assert_eq!(clamp_badge("abcdefghijklmno xyz").as_deref(), Some("abcdefghijklmno "));
    assert_eq!(clamp_badge("\u{3000}hi\u{3000}").as_deref(), Some("hi"));
}

#[test]
fn state_is_trimmed_and_lowercased() {
    assert_eq!(clean_state("\tERROR\n").as_deref(), Some("error"));
    assert_eq!(clean_state("").as_deref(), None);
}

fn regex_marker(re: &Regex, s: &str) -> Option<(usize, usize, String)> {
    let caps = re.captures(s)?;
    let whole = caps.get(0).unwrap();
    let body = caps.get(1).map_or("", |m| m.as_str()).to_owned();
    let start = s[..whole.start()].chars().count();
    let end = s[..whole.end()].chars().count();
    Some((start, end, body))
}

#[test]
fn marker_matches_the_regular_expression() {
    let re = Regex::new(r"\[zed-style(?:\s+([^\]]*))?\]").unwrap();
    let pieces = [
        "[zed-style", "]", " ", "\t", "\u{3000}", "x", "=", "[", "zed", "-style", "é", "\u{85}",
        "[zed-style]", "a=b",
    ];
    let mut inputs = vec![String::new()];
    for _ in 0..4 {
        let mut next = Vec::new();
        for s in &inputs {
            for p in pieces {
                next.push(format!("{s}{p}"));
            }
        }
        inputs.extend(next.clone());
        inputs = {
            let mut v = inputs;
            v.sort();
            v.dedup();
            v
        };
    }
    assert!(inputs.len() > 10_000);
    for s in &inputs {
        let ours = locate_marker(s).map(|m| {
            let chars: Vec<char> = s.chars().collect();
            let body: String = chars[m.body_start..m.body_end].iter().collect();
            (m.start, m.end, body)
        });
        assert_eq!(ours, regex_marker(&re, s), "{s:?}");
    }
}

#[test]
fn later_tokens_win_and_odd_tokens_are_ignored() {
    let (style, _) = parse_title_marker("[zed-style badge=a badge=b] t");
    assert_eq!(style.unwrap().badge.as_deref(), Some("b"));
    // A later invalid value clears an earlier valid one.
    let (style, _) = parse_title_marker("[zed-style accent=#fff accent=nope] t");
    assert_eq!(style.unwrap().accent_color, None);
    // Tokens without `=` change nothing; a value keeps any further `=`.
    let (style, _) = parse_title_marker("[zed-style loose badge=a=b =x] t");
    let style = style.unwrap();
    assert_eq!(style.badge.as_deref(), Some("a=b"));
    assert_eq!(style.accent_color, None);
}

#[test]
fn marker_anywhere_and_inner_spacing_kept() {
    let (style, cleaned) = parse_title_marker("build [zed-style state=Error] done ");
    assert_eq!(style.unwrap().known_state(), Some(KnownState::Error));
    assert_eq!(cleaned, "build  done");

    let (style, cleaned) = parse_title_marker("[zed-styleX] [zed-style badge=b] x");
    assert_eq!(style.unwrap().badge.as_deref(), Some("b"));
    assert_eq!(cleaned, "[zed-styleX]  x");

    let (style, cleaned) = parse_title_marker("[zed-style state=running no close");
    assert!(style.is_none());
    assert_eq!(cleaned, "[zed-style state=running no close");

    let (style, cleaned) = parse_title_marker("[zed-style\u{3000}badge=全角] タイトル");
    assert_eq!(style.unwrap().badge.as_deref(), Some("全角"));
    assert_eq!(cleaned, "タイトル");

    let (style, cleaned) = parse_title_marker("  [zed-style]  ");
    assert_eq!(style, Some(ThreadVisualStyle::default()));
    assert_eq!(cleaned, "");
}

#[test]
fn meta_fields_are_read_one_by_one() {
    let meta = Meta {
        entries: vec![
            ("other".to_owned(), MetaValue::Other),
            (
                ZED_THREAD_STYLE_META_KEY.to_owned(),
                MetaValue::Object(vec![
                    ("icon_color".to_owned(), MetaField::Other),
                    ("state".to_owned(), MetaField::Text("  Completed ".to_owned())),
                    ("badge".to_owned(), MetaField::Text("    ".to_owned())),
                    ("background_tint".to_owned(), MetaField::Text("#0f08".to_owned())),
                ]),
            ),
        ],
    };
    let style = parse_meta(&meta).unwrap();
    assert_eq!(style.icon_color, None);
    assert_eq!(style.known_state(), Some(KnownState::Completed));
    assert_eq!(style.badge, None);
    assert_eq!(style.background_tint, None);
    assert_eq!(parse_meta_opt(&Some(meta.clone())), Some(style));
    assert_eq!(parse_meta_opt(&None), None);
}

fn styled(accent: Option<&str>, icon: Option<&str>, state: Option<&str>, tint: Option<&str>) -> ThreadVisualStyle {
    ThreadVisualStyle {
        accent_color: accent.and_then(parse_hex),
        icon_color: icon.and_then(parse_hex),
        background_tint: tint.and_then(parse_hex),
        badge: None,
        state: state.map(str::to_owned),
    }
}

#[test]
fn icon_color_preference_chain() {
    let red = parse_hex("#f00").unwrap();
    let blue = parse_hex("#00f").unwrap();
    let status = AgentThreadStatus::Running;
    let full = styled(Some("#00f"), Some("#f00"), Some("running"), None);
    assert_eq!(resolve_icon_color(Some(7u8), Some(&full), status), IconColor::Explicit(7));
    assert_eq!(resolve_icon_color(None::<u8>, None, status), IconColor::Muted);
    assert_eq!(resolve_icon_color(None::<u8>, Some(&full), status), IconColor::Custom(Accent::Color(red)));
    let no_icon = styled(Some("#00f"), None, Some("waiting-for-confirmation"), None);
    assert_eq!(
        resolve_icon_color(None::<u8>, Some(&no_icon), status),
        IconColor::Custom(Accent::Theme(ThemeAccent::Warning))
    );
    let accent_only = styled(Some("#00f"), None, Some("deploying"), None);
    assert_eq!(resolve_icon_color(None::<u8>, Some(&accent_only), status), IconColor::Custom(Accent::Color(blue)));
    assert_eq!(resolve_icon_color(None::<u8>, Some(&ThreadVisualStyle::default()), status), IconColor::Muted);
}

#[test]
fn rail_and_tint_follow_the_style() {
    let blue = parse_hex("#00f").unwrap();
    assert_eq!(wrap_with_visual_style("row", None), StyledRow::Plain("row"));
    assert_eq!(wrap_with_visual_style("row", Some(&ThreadVisualStyle::default())), StyledRow::Plain("row"));
    let both = styled(Some("#00f"), None, Some("error"), Some("#0000ff80"));
    assert_eq!(wrap_with_visual_style("row", Some(&both)), StyledRow::WithRail { row: "row", accent: Accent::Color(blue) });
    let state_only = styled(None, None, Some("completed"), None);
    assert_eq!(
        wrap_with_visual_style("row", Some(&state_only)),
        StyledRow::WithRail { row: "row", accent: Accent::Theme(ThemeAccent::Success) }
    );
    assert_eq!(apply_background_tint(1u32, None), Tinted::Base(1));
    assert_eq!(apply_background_tint(1u32, Some(&state_only)), Tinted::Base(1));
    assert_eq!(
        apply_background_tint(1u32, Some(&both)),
        Tinted::Blend { base: 1, tint: Rgba8 { r: 0, g: 0, b: 0xff, a: 0x80 } }
    );
}

#[test]
fn accents_and_statuses_of_states() {
    assert_eq!(default_accent_for(KnownState::Running), ThemeAccent::TextAccent);
    assert_eq!(default_accent_for(KnownState::WaitingForConfirmation), ThemeAccent::Warning);
    assert_eq!(default_accent_for(KnownState::Completed), ThemeAccent::Success);
    assert_eq!(default_accent_for(KnownState::Error), ThemeAccent::Error);
    assert_eq!(AgentThreadStatus::from(KnownState::Running), AgentThreadStatus::Running);
    assert_eq!(
        AgentThreadStatus::from(KnownState::WaitingForConfirmation),
        AgentThreadStatus::WaitingForConfirmation
    );
    assert_eq!(AgentThreadStatus::from(KnownState::Completed), AgentThreadStatus::Completed);
    assert_eq!(AgentThreadStatus::from(KnownState::Error), AgentThreadStatus::Error);
}

#[test]
fn notification_carries_title_body_icon_and_priority() {
    let n = notification_request("thread-1", "Agent finished", Some("All done"));
    assert_eq!(n.id, "thread-1");
    assert_eq!(n.title, "Agent finished");
    assert_eq!(n.body.as_deref(), Some("All done"));
    assert_eq!(n.icon_names, vec!["dev.zed.Zed".to_owned(), "zed".to_owned()]);
    assert_eq!(n.priority, NotificationPriority::Normal);
    assert_eq!(notification_request("x", "y", None).body, None);
}

#[test]
fn hex_reads_the_same_in_either_case() {
    for s in ["#3B82F6", "#3b82f6", "#AbC", "#+aBcDeF", "#zZz", "#3b82F680", "not-a-color"] {
        assert_eq!(parse_hex(s), parse_hex(&s.to_ascii_uppercase()), "{s}");
        assert_eq!(parse_hex(s), parse_hex(&s.to_ascii_lowercase()), "{s}");
    }
}

#[test]
fn cleaned_state_cleans_to_itself() {
    for s in ["  Running  ", "WAITING-for-Confirmation", "\tError\n", "deploy ing"] {
        let t = clean_state(s).unwrap();
        assert_eq!(clean_state(&t).as_deref(), Some(t.as_str()), "{s:?}");
    }
}

#[test]
fn marker_state_ignores_ascii_case() {
    for (v, k) in [
        ("RUNNING", KnownState::Running),
        ("Waiting-For-Confirmation", KnownState::WaitingForConfirmation),
        ("completed", KnownState::Completed),
        ("eRRoR", KnownState::Error),
    ] {
        let (style, _) = parse_title_marker(&format!("[zed-style state={v}] x"));
        assert_eq!(style.unwrap().known_state(), Some(k), "{v}");
    }
}

#[test]
fn meta_and_marker_give_the_same_style() {
    for [a, i, g, b, s] in [
        ["#3b82f6", "#f00", "#0000ff80", "working", "Running"],
        ["nope", "#ABC", "", "=x=", "deploying"],
        ["#+12345", "#12", "#fff", "continuous-integration", "ERROR"],
    ] {
        let meta = Meta {
            entries: vec![(
                ZED_THREAD_STYLE_META_KEY.to_owned(),
                MetaValue::Object(vec![
                    ("accent_color".to_owned(), MetaField::Text(a.to_owned())),
                    ("icon_color".to_owned(), MetaField::Text(i.to_owned())),
                    ("background_tint".to_owned(), MetaField::Text(g.to_owned())),
                    ("badge".to_owned(), MetaField::Text(b.to_owned())),
                    ("state".to_owned(), MetaField::Text(s.to_owned())),
                ]),
            )],
        };
        let title = format!("[zed-style accent={a} icon={i} background={g} badge={b} state={s}] t");
        assert_eq!(parse_meta(&meta), parse_title_marker(&title).0, "{title}");
    }
}
