//! Scrollbars: the thumb is drawn in its hover color while the pointer is over
//! it or while it is dragged.

use vstd::prelude::*;
use crate::theme::{ThemeToken, StyleSlot, StyleChange, change_if_different};

verus! {

/// The state of a scrollbar thumb that its color depends on.
#[derive(PartialEq, Eq, Structural, Clone, Copy, Debug)]
pub struct ThumbState {
    pub entity: u64,
    pub hovered: bool,
    pub dragging: bool,
    /// The background token the thumb holds.
    pub background: ThemeToken,
}

/// The background of a thumb.
pub open spec fn thumb_background(hovered: bool, dragging: bool) -> ThemeToken {
    if hovered || dragging {
        ThemeToken::ScrollbarThumbHover
    } else {
        ThemeToken::ScrollbarThumb
    }
}

/// The changes that bring each thumb to its color, in turn.
pub open spec fn thumb_changes(thumbs: Seq<ThumbState>) -> Seq<StyleChange>
    decreases thumbs.len(),
{
    if thumbs.len() == 0 {
        Seq::empty()
    } else {
        let t = thumbs.last();
        thumb_changes(thumbs.drop_last()) + change_if_different(
            t.entity,
            StyleSlot::Background,
            t.background,
            thumb_background(t.hovered, t.dragging),
        )
    }
}

/// Restyling thumbs is idempotent: once their changes are applied, they need
/// no more.
pub proof fn law_thumb_restyle_idempotent(thumbs: Seq<ThumbState>)
    ensures
        thumb_changes(
            thumbs.map_values(
                |t: ThumbState| ThumbState { background: thumb_background(t.hovered, t.dragging), ..t },
            ),
        ) == Seq::<StyleChange>::empty(),
    decreases thumbs.len(),
{
    let f = |t: ThumbState| ThumbState { background: thumb_background(t.hovered, t.dragging), ..t };
    let m = thumbs.map_values(f);
    if thumbs.len() > 0 {
        law_thumb_restyle_idempotent(thumbs.drop_last());
        assert(m.drop_last() =~= thumbs.drop_last().map_values(f));
        assert(thumb_changes(m) =~= Seq::<StyleChange>::empty());
    } else {
        assert(m.len() == 0);
    }
}

/// The changes for the thumbs whose hover or drag state just changed.
pub fn update_scrollbar_thumb_styles(thumbs: &Vec<ThumbState>) -> (r: Vec<StyleChange>)
    ensures
        r@ == thumb_changes(thumbs@),
{
    let mut r: Vec<StyleChange> = Vec::new();
    let mut i: usize = 0;
    while i < thumbs.len()
        invariant
            i <= thumbs.len(),
            r@ == thumb_changes(thumbs@.take(i as int)),
        decreases thumbs.len() - i,
    {
        assert(thumbs@.take(i + 1).drop_last() =~= thumbs@.take(i as int));
        let t = thumbs[i];
        let token = if t.hovered || t.dragging {
            ThemeToken::ScrollbarThumbHover
        } else {
            ThemeToken::ScrollbarThumb
        };
        if token != t.background {
            r.push(StyleChange { entity: t.entity, slot: StyleSlot::Background, token });
        }
        i = i + 1;
        assert(r@ =~= thumb_changes(thumbs@.take(i as int)));
    }
    assert(thumbs@.take(thumbs.len() as int) =~= thumbs@);
    r
}

/// The plugin that restyles scrollbar thumbs.
pub struct ScrollbarPlugin;

} // verus!
