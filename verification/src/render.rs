//! How a row renders from its style: icon colour, background tint and the
//! accent rail. Colours that come from the theme are named by token; looking
//! them up, and blending, is left to the renderer.

use vstd::prelude::*;
use crate::color::Rgba8;
use crate::style::{spec_known_state, KnownState, StyleView, ThreadVisualStyle};

verus! {

/// The status a thread row shows with its status icon.
#[derive(Clone, Copy, Debug, PartialEq, Eq)]
pub enum AgentThreadStatus {
    Running,
    WaitingForConfirmation,
    Completed,
    Error,
}

/// The status that a canonical state stands for.
pub open spec fn status_of(state: KnownState) -> AgentThreadStatus {
    match state {
        KnownState::Running => AgentThreadStatus::Running,
        KnownState::WaitingForConfirmation => AgentThreadStatus::WaitingForConfirmation,
        KnownState::Completed => AgentThreadStatus::Completed,
        KnownState::Error => AgentThreadStatus::Error,
    }
}

impl From<KnownState> for AgentThreadStatus {
    fn from(state: KnownState) -> (r: Self) {
        match state {
            KnownState::Running => AgentThreadStatus::Running,
            KnownState::WaitingForConfirmation => AgentThreadStatus::WaitingForConfirmation,
            KnownState::Completed => AgentThreadStatus::Completed,
            KnownState::Error => AgentThreadStatus::Error,
        }
    }
}

impl vstd::std_specs::convert::FromSpecImpl<KnownState> for AgentThreadStatus {
    open spec fn obeys_from_spec() -> bool {
        true
    }

    open spec fn from_spec(state: KnownState) -> Self {
        status_of(state)
    }
}

/// A theme colour that an accent can come from.
#[derive(Clone, Copy, Debug, PartialEq, Eq)]
pub enum ThemeAccent {
    /// The theme's text accent.
    TextAccent,
    /// The theme's warning status colour.
    Warning,
    /// The theme's success status colour.
    Success,
    /// The theme's error status colour.
    Error,
}

/// An accent colour: one the producer gave, or one of the theme.
#[derive(Clone, Copy, Debug, PartialEq, Eq)]
pub enum Accent {
    Color(Rgba8),
    Theme(ThemeAccent),
}

/// The theme token each canonical state takes its default accent from.
pub open spec fn spec_default_accent(state: KnownState) -> ThemeAccent {
    match state {
        KnownState::Running => ThemeAccent::TextAccent,
        KnownState::WaitingForConfirmation => ThemeAccent::Warning,
        KnownState::Completed => ThemeAccent::Success,
        KnownState::Error => ThemeAccent::Error,
    }
}

/// Pick a default accent color for the given canonical state, using
/// theme tokens that already exist.
pub fn default_accent_for(state: KnownState) -> (r: ThemeAccent)
    ensures
        r == spec_default_accent(state),
        state == KnownState::Running ==> r == ThemeAccent::TextAccent,
        state == KnownState::WaitingForConfirmation ==> r == ThemeAccent::Warning,
        state == KnownState::Completed ==> r == ThemeAccent::Success,
        state == KnownState::Error ==> r == ThemeAccent::Error,
{
    match state {
        KnownState::Running => ThemeAccent::TextAccent,
        KnownState::WaitingForConfirmation => ThemeAccent::Warning,
        KnownState::Completed => ThemeAccent::Success,
        KnownState::Error => ThemeAccent::Error,
    }
}

/// The colour of the agent icon slot.
#[derive(Clone, Copy, Debug, PartialEq, Eq)]
pub enum IconColor<C> {
    /// The colour the row was given explicitly.
    Explicit(C),
    /// A colour from the style.
    Custom(Accent),
    /// The muted default.
    Muted,
}

/// The style of an optional style reference.
pub open spec fn opt_style_ref(style: Option<&ThreadVisualStyle>) -> Option<StyleView> {
    match style {
        Some(s) => Some(s@),
        None => None,
    }
}

/// The preference chain for the icon colour: an explicit colour, then the
/// style's icon colour, then its canonical state's default accent, then its
/// accent colour, and muted otherwise.
pub open spec fn spec_icon_color<C>(explicit: Option<C>, style: Option<StyleView>) -> IconColor<C> {
    match explicit {
        Some(c) => IconColor::Explicit(c),
        None => match style {
            None => IconColor::Muted,
            Some(s) => if s.icon_color is Some {
                IconColor::Custom(Accent::Color(s.icon_color->0))
            } else if spec_known_state(s.state) is Some {
                IconColor::Custom(Accent::Theme(spec_default_accent(spec_known_state(s.state)->0)))
            } else if s.accent_color is Some {
                IconColor::Custom(Accent::Color(s.accent_color->0))
            } else {
                IconColor::Muted
            },
        },
    }
}

/// Resolve the icon color for the agent icon slot: an explicit colour always
/// wins; without one and without a style the icon is muted; otherwise the
/// style's icon colour, then its canonical state's default accent, then its
/// accent colour, and muted when it has none of these.
///
/// `_status` is accepted for forward compatibility: the icon colour computed
/// here is only used for the non-status agent icon.
pub fn resolve_icon_color<C>(
    explicit: Option<C>,
    style: Option<&ThreadVisualStyle>,
    _status: AgentThreadStatus,
) -> (r: IconColor<C>)
    ensures
        r == spec_icon_color(explicit, opt_style_ref(style)),
{
    if let Some(explicit) = explicit {
        return IconColor::Explicit(explicit);
    }
    if let Some(style) = style {
        if let Some(icon) = style.icon_color {
            return IconColor::Custom(Accent::Color(icon));
        }
        if let Some(state) = style.known_state() {
            return IconColor::Custom(Accent::Theme(default_accent_for(state)));
        }
        if let Some(accent) = style.accent_color {
            return IconColor::Custom(Accent::Color(accent));
        }
    }
    IconColor::Muted
}

/// A row's base background, with the tint to blend over it if there is one.
#[derive(Clone, Copy, Debug, PartialEq, Eq)]
pub enum Tinted<B> {
    Base(B),
    Blend { base: B, tint: Rgba8 },
}

/// The tint of an optional style.
pub open spec fn spec_tint(style: Option<StyleView>) -> Option<Rgba8> {
    match style {
        Some(s) => s.background_tint,
        None => None,
    }
}

/// Blend a `background_tint` into the row's raw base color. Called before the
/// row computes its apparent, base and hover backgrounds, so selection, focus
/// and hover backgrounds (which are blended on top) remain visible above the
/// tint. Without a tint the base is kept as it is.
pub fn apply_background_tint<B>(base: B, style: Option<&ThreadVisualStyle>) -> (r: Tinted<B>)
    ensures
        r == match spec_tint(opt_style_ref(style)) {
            Some(tint) => Tinted::Blend { base, tint },
            None => Tinted::Base(base),
        },
{
    let tint = match style {
        Some(s) => s.background_tint,
        None => None,
    };
    match tint {
        Some(tint) => Tinted::Blend { base, tint },
        None => Tinted::Base(base),
    }
}

/// A row, with the accent of a 2px left rail if it gets one.
#[derive(Clone, Copy, Debug, PartialEq, Eq)]
pub enum StyledRow<E> {
    Plain(E),
    WithRail { row: E, accent: Accent },
}

/// The rail accent of an optional style: its accent colour, else its
/// canonical state's default accent.
pub open spec fn spec_rail_accent(style: Option<StyleView>) -> Option<Accent> {
    match style {
        None => None,
        Some(s) => if s.accent_color is Some {
            Some(Accent::Color(s.accent_color->0))
        } else if spec_known_state(s.state) is Some {
            Some(Accent::Theme(spec_default_accent(spec_known_state(s.state)->0)))
        } else {
            None
        },
    }
}

/// Wrap a rendered row with an optional 2px left accent rail.
///
/// When `style` is `None` (or carries no accent and no canonical state) the
/// row is returned unchanged. The rail sits as an overlay on the left edge of
/// the row, so the row's own selection, focus and hover indicators stay
/// visible above it.
pub fn wrap_with_visual_style<E>(row: E, style: Option<&ThreadVisualStyle>) -> (r: StyledRow<E>)
    ensures
        r == match spec_rail_accent(opt_style_ref(style)) {
            Some(accent) => StyledRow::WithRail { row, accent },
            None => StyledRow::Plain(row),
        },
{
    let style = match style {
        Some(s) => s,
        None => {
            return StyledRow::Plain(row);
        },
    };
    let accent = match style.accent_color {
        Some(c) => Some(Accent::Color(c)),
        None => match style.known_state() {
            Some(state) => Some(Accent::Theme(default_accent_for(state))),
            None => None,
        },
    };
    match accent {
        Some(accent) => StyledRow::WithRail { row, accent },
        None => StyledRow::Plain(row),
    }
}


/// Each canonical state takes its accent from its own theme token: running
/// from the text accent, waiting from warning, completed from success and
/// error from error.
pub proof fn lemma_default_accents()
    ensures
        spec_default_accent(KnownState::Running) == ThemeAccent::TextAccent,
        spec_default_accent(KnownState::WaitingForConfirmation) == ThemeAccent::Warning,
        spec_default_accent(KnownState::Completed) == ThemeAccent::Success,
        spec_default_accent(KnownState::Error) == ThemeAccent::Error,
{
}

/// The icon colour's preference chain, step by step: an explicit colour wins
/// whatever the style; with none, no style gives muted; a style's icon colour
/// comes first, then its canonical state's default accent (the token of
/// [`lemma_default_accents`]), then its accent colour, then muted.
pub proof fn lemma_icon_color_chain<C>(explicit: Option<C>, s: StyleView)
    ensures
        explicit matches Some(c) ==> spec_icon_color(explicit, Some(s)) == IconColor::<C>::Explicit(c)
            && spec_icon_color(explicit, None) == IconColor::<C>::Explicit(c),
        spec_icon_color(None::<C>, None) == IconColor::<C>::Muted,
        s.icon_color matches Some(c) ==> spec_icon_color(None::<C>, Some(s)) == IconColor::<
            C,
        >::Custom(Accent::Color(c)),
        s.icon_color is None && spec_known_state(s.state) is Some ==> spec_icon_color(
            None::<C>,
            Some(s),
        ) == IconColor::<C>::Custom(
            Accent::Theme(spec_default_accent(spec_known_state(s.state)->0)),
        ),
        s.icon_color is None && spec_known_state(s.state) is None && s.accent_color is Some
            ==> spec_icon_color(None::<C>, Some(s)) == IconColor::<C>::Custom(
            Accent::Color(s.accent_color->0),
        ),
        s.icon_color is None && spec_known_state(s.state) is None && s.accent_color is None
            ==> spec_icon_color(None::<C>, Some(s)) == IconColor::<C>::Muted,
{
}

/// The icon colour reads only the icon colour, the state and the accent colour
/// of a style: the tint and the badge take no part.
pub proof fn lemma_icon_color_reads_three_fields<C>(explicit: Option<C>, s: StyleView, t: StyleView)
    requires
        s.icon_color == t.icon_color,
        s.state == t.state,
        s.accent_color == t.accent_color,
    ensures
        spec_icon_color(explicit, Some(s)) == spec_icon_color(explicit, Some(t)),
{
}

/// The rail's accent: a style's accent colour whenever it has one, else its
/// canonical state's default accent, else no rail; no style, no rail.
pub proof fn lemma_rail_accent(s: StyleView)
    ensures
        s.accent_color matches Some(c) ==> spec_rail_accent(Some(s)) == Some(Accent::Color(c)),
        s.accent_color is None && spec_known_state(s.state) is Some ==> spec_rail_accent(Some(s))
            == Some(Accent::Theme(spec_default_accent(spec_known_state(s.state)->0))),
        s.accent_color is None && spec_known_state(s.state) is None ==> spec_rail_accent(Some(s))
            is None,
        spec_rail_accent(None) is None,
{
}

/// The rail reads only the accent colour and the state of a style: the icon
/// colour, the tint and the badge never change it.
pub proof fn lemma_rail_reads_accent_and_state(s: StyleView, t: StyleView)
    requires
        s.accent_color == t.accent_color,
        s.state == t.state,
    ensures
        spec_rail_accent(Some(s)) == spec_rail_accent(Some(t)),
{
}

/// The tint is the style's background tint and nothing else: without one the
/// base is kept, and two styles with the same background tint tint alike.
pub proof fn lemma_tint_is_background_tint(s: StyleView, t: StyleView)
    ensures
        spec_tint(Some(s)) == s.background_tint,
        spec_tint(None) is None,
        s.background_tint == t.background_tint ==> spec_tint(Some(s)) == spec_tint(Some(t)),
{
}

} // verus!
