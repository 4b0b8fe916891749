//! Theme tokens: names of the colors that widgets are drawn with. A widget holds
//! the token of its current background or text color, and is restyled by
//! replacing that token.

use vstd::prelude::*;

verus! {

/// A theme color token.
#[derive(PartialEq, Eq, Structural, Clone, Copy, Debug)]
pub enum ThemeToken {
    /// No color: nothing is drawn.
    Transparent,
    TextInputBg,
    TextInputLabelBg,
    TextInputText,
    ButtonText,
    ScrollbarBg,
    ScrollbarThumb,
    ScrollbarThumbHover,
    MenuBg,
    MenuBorder,
    MenuitemBgHover,
    MenuitemBgPressed,
    MenuitemText,
    MenuitemTextDisabled,
    /// Any other token of the theme, by number.
    Other(u64),
}

/// Which color of a widget a style change replaces.
#[derive(PartialEq, Eq, Structural, Clone, Copy, Debug)]
pub enum StyleSlot {
    Background,
    Font,
}

/// A style change: give `entity` the token `token` for the color `slot`.
#[derive(PartialEq, Eq, Structural, Clone, Copy, Debug)]
pub struct StyleChange {
    pub entity: u64,
    pub slot: StyleSlot,
    pub token: ThemeToken,
}

/// The change that sets `slot` of `entity` to `wanted`, when it holds `current`:
/// none when they are already equal.
pub open spec fn change_if_different(
    entity: u64,
    slot: StyleSlot,
    current: ThemeToken,
    wanted: ThemeToken,
) -> Seq<StyleChange> {
    if current == wanted {
        Seq::empty()
    } else {
        seq![StyleChange { entity, slot, token: wanted }]
    }
}

} // verus!
