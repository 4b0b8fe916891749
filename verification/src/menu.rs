//! Menus: a menu button that opens and closes a popup, and the colors of the
//! menu items, which follow whether an item is pressed, hovered or disabled.

use vstd::prelude::*;
use crate::theme::{ThemeToken, StyleSlot, StyleChange, change_if_different};

verus! {

/// An event sent to a menu.
#[derive(PartialEq, Eq, Structural, Clone, Copy, Debug)]
pub enum MenuEvent {
    Open,
    Close,
    /// Open the popup if it is closed, close it if it is open.
    Toggle,
    /// Close every open popup.
    CloseAll,
    FocusRoot,
}

/// A child of a menu, and whether it is a menu popup.
#[derive(PartialEq, Eq, Structural, Clone, Copy, Debug)]
pub struct MenuChild {
    pub entity: u64,
    pub is_popup: bool,
}

/// What a menu does with an event: the popups to despawn, and whether to spawn
/// a new popup.
pub struct MenuResponse {
    pub despawn: Vec<u64>,
    pub spawn_popup: bool,
}

/// The popups among the children, in order.
pub open spec fn popups(children: Seq<MenuChild>) -> Seq<u64>
    decreases children.len(),
{
    if children.len() == 0 {
        Seq::empty()
    } else {
        let rest = popups(children.drop_last());
        if children.last().is_popup {
            rest.push(children.last().entity)
        } else {
            rest
        }
    }
}

/// The popups a menu despawns on `event`: all its open popups on a toggle or a
/// close-all; none on other events or when the target is not a menu with children.
pub open spec fn despawned_popups(event: MenuEvent, is_menu: bool, children: Seq<MenuChild>) -> Seq<
    u64,
> {
    if is_menu && (event == MenuEvent::Toggle || event == MenuEvent::CloseAll) {
        popups(children)
    } else {
        Seq::empty()
    }
}

/// Whether a menu spawns its popup on `event`: on a toggle, when no popup was
/// open and the menu knows how to spawn one.
pub open spec fn spawns_popup(
    event: MenuEvent,
    is_menu: bool,
    can_spawn: bool,
    children: Seq<MenuChild>,
) -> bool {
    is_menu && event == MenuEvent::Toggle && popups(children).len() == 0 && can_spawn
}

/// The popups among the children, in order.
pub fn collect_popups(children: &Vec<MenuChild>) -> (r: Vec<u64>)
    ensures
        r@ == popups(children@),
{
    let mut r: Vec<u64> = Vec::new();
    let mut i: usize = 0;
    while i < children.len()
        invariant
            i <= children.len(),
            r@ == popups(children@.take(i as int)),
        decreases children.len() - i,
    {
        assert(children@.take(i + 1).drop_last() =~= children@.take(i as int));
        if children[i].is_popup {
            r.push(children[i].entity);
        }
        i = i + 1;
    }
    assert(children@.take(children.len() as int) =~= children@);
    r
}

/// Handles an event sent to a menu. `is_menu` tells whether the target is a menu
/// with children, `can_spawn` whether it knows how to spawn its popup. A toggle
/// closes the open popups, or opens one when none was open; a close-all closes
/// the open popups; other events change nothing.
pub fn menu_on_event(event: MenuEvent, is_menu: bool, can_spawn: bool, children: &Vec<MenuChild>) -> (r:
    MenuResponse)
    ensures
        r.despawn@ == despawned_popups(event, is_menu, children@),
        r.spawn_popup == spawns_popup(event, is_menu, can_spawn, children@),
{
    match event {
        MenuEvent::Toggle => {
            if !is_menu {
                return MenuResponse { despawn: Vec::new(), spawn_popup: false };
            }
            let open = collect_popups(children);
            let was_open = open.len() > 0;
            MenuResponse { despawn: open, spawn_popup: !was_open && can_spawn }
        },
        MenuEvent::CloseAll => {
            if !is_menu {
                return MenuResponse { despawn: Vec::new(), spawn_popup: false };
            }
            let open = collect_popups(children);
            MenuResponse { despawn: open, spawn_popup: false }
        },
        _ => MenuResponse { despawn: Vec::new(), spawn_popup: false },
    }
}

/// The state of a menu item that its colors depend on.
#[derive(PartialEq, Eq, Structural, Clone, Copy, Debug)]
pub struct MenuItemState {
    pub entity: u64,
    pub disabled: bool,
    pub pressed: bool,
    pub hovered: bool,
    /// The background token the item holds.
    pub background: ThemeToken,
    /// The text color token the item holds.
    pub font: ThemeToken,
}

/// The background of a menu item: pressed wins over hovered.
pub open spec fn menuitem_background(pressed: bool, hovered: bool) -> ThemeToken {
    if pressed {
        ThemeToken::MenuitemBgPressed
    } else if hovered {
        ThemeToken::MenuitemBgHover
    } else {
        ThemeToken::MenuBg
    }
}

/// The text color of a menu item.
pub open spec fn menuitem_font(disabled: bool) -> ThemeToken {
    if disabled {
        ThemeToken::MenuitemTextDisabled
    } else {
        ThemeToken::MenuitemText
    }
}

/// The changes that bring a menu item to its colors: the background first, then
/// the text color, each only when it differs from what the item holds.
pub open spec fn menuitem_changes(s: MenuItemState) -> Seq<StyleChange> {
    change_if_different(s.entity, StyleSlot::Background, s.background, menuitem_background(s.pressed, s.hovered))
        + change_if_different(s.entity, StyleSlot::Font, s.font, menuitem_font(s.disabled))
}

/// The changes for each item in turn.
pub open spec fn all_menuitem_changes(items: Seq<MenuItemState>) -> Seq<StyleChange>
    decreases items.len(),
{
    if items.len() == 0 {
        Seq::empty()
    } else {
        all_menuitem_changes(items.drop_last()) + menuitem_changes(items.last())
    }
}

/// Whether `i` is the index of the first item that is `entity`.
pub open spec fn is_first_item(items: Seq<MenuItemState>, entity: u64, i: int) -> bool {
    0 <= i < items.len() && items[i].entity == entity && forall|k: int|
        0 <= k < i ==> (#[trigger] items[k]).entity != entity
}

/// The first item of `items` that is `entity`.
pub open spec fn find_item(items: Seq<MenuItemState>, entity: u64) -> Option<MenuItemState> {
    if exists|i: int| #[trigger] is_first_item(items, entity, i) {
        Some(items[choose|i: int| #[trigger] is_first_item(items, entity, i)])
    } else {
        None
    }
}

/// The changes for each entity in `entities` that is one of `items`, in turn.
pub open spec fn changes_for(items: Seq<MenuItemState>, entities: Seq<u64>) -> Seq<StyleChange>
    decreases entities.len(),
{
    if entities.len() == 0 {
        Seq::empty()
    } else {
        changes_for(items, entities.drop_last()) + match find_item(items, entities.last()) {
            Some(s) => menuitem_changes(s),
            None => Seq::empty(),
        }
    }
}

/// Toggling a menu alternates: with no popup open (and a way to spawn one) a
/// toggle spawns a popup and despawns nothing; once that popup is a child, the
/// next toggle despawns it and spawns nothing.
pub proof fn law_toggle_alternates(children: Seq<MenuChild>, popup: u64)
    requires
        popups(children).len() == 0,
    ensures
        spawns_popup(MenuEvent::Toggle, true, true, children),
        despawned_popups(MenuEvent::Toggle, true, children).len() == 0,
        !spawns_popup(MenuEvent::Toggle, true, true, children.push(MenuChild { entity: popup, is_popup: true })),
        despawned_popups(MenuEvent::Toggle, true, children.push(MenuChild { entity: popup, is_popup: true }))
            == seq![popup],
{
    let c2 = children.push(MenuChild { entity: popup, is_popup: true });
    assert(c2.drop_last() =~= children);
    assert(popups(c2) =~= seq![popup]);
}

/// Closing all popups never spawns one, and leaves no popup child open.
pub proof fn law_close_all_closes_every_popup(is_menu: bool, can_spawn: bool, children: Seq<MenuChild>)
    ensures
        !spawns_popup(MenuEvent::CloseAll, is_menu, can_spawn, children),
        is_menu ==> despawned_popups(MenuEvent::CloseAll, is_menu, children) == popups(children),
{
}

/// Restyling a menu item is idempotent: once its changes are applied, it needs
/// no more.
pub proof fn law_menuitem_restyle_idempotent(s: MenuItemState)
    ensures
        menuitem_changes(
            MenuItemState {
                background: menuitem_background(s.pressed, s.hovered),
                font: menuitem_font(s.disabled),
                ..s
            },
        ) == Seq::<StyleChange>::empty(),
{
    let t = MenuItemState {
        background: menuitem_background(s.pressed, s.hovered),
        font: menuitem_font(s.disabled),
        ..s
    };
    assert(menuitem_changes(t) =~= Seq::<StyleChange>::empty());
}

/// A pressed item shows its pressed background whether or not it is hovered,
/// and whether an item is disabled changes only its text color.
pub proof fn law_menuitem_colors(pressed: bool, hovered: bool, disabled: bool)
    ensures
        pressed ==> menuitem_background(pressed, hovered) == ThemeToken::MenuitemBgPressed,
        menuitem_font(disabled) != ThemeToken::MenuitemBgPressed,
        menuitem_background(pressed, hovered) != ThemeToken::MenuitemText,
        menuitem_background(pressed, hovered) != ThemeToken::MenuitemTextDisabled,
{
}

/// Appends the changes that bring one menu item to its colors.
fn push_menuitem_changes(s: &MenuItemState, out: &mut Vec<StyleChange>)
    ensures
        final(out)@ == old(out)@ + menuitem_changes(*s),
{
    let bg = if s.pressed {
        ThemeToken::MenuitemBgPressed
    } else if s.hovered {
        ThemeToken::MenuitemBgHover
    } else {
        ThemeToken::MenuBg
    };
    let font = if s.disabled {
        ThemeToken::MenuitemTextDisabled
    } else {
        ThemeToken::MenuitemText
    };
    if s.background != bg {
        out.push(StyleChange { entity: s.entity, slot: StyleSlot::Background, token: bg });
    }
    if s.font != font {
        out.push(StyleChange { entity: s.entity, slot: StyleSlot::Font, token: font });
    }
    assert(out@ =~= old(out)@ + menuitem_changes(*s));
}

/// The changes that bring a menu item to its colors (see [`menuitem_changes`]).
pub fn set_menuitem_colors(s: &MenuItemState) -> (r: Vec<StyleChange>)
    ensures
        r@ == menuitem_changes(*s),
{
    let mut r: Vec<StyleChange> = Vec::new();
    push_menuitem_changes(s, &mut r);
    assert(r@ =~= menuitem_changes(*s));
    r
}

/// The changes for the menu items whose hover, pressed or disabled state just
/// changed, item by item.
pub fn update_menuitem_styles(items: &Vec<MenuItemState>) -> (r: Vec<StyleChange>)
    ensures
        r@ == all_menuitem_changes(items@),
{
    let mut r: Vec<StyleChange> = Vec::new();
    let mut i: usize = 0;
    while i < items.len()
        invariant
            i <= items.len(),
            r@ == all_menuitem_changes(items@.take(i as int)),
        decreases items.len() - i,
    {
        assert(items@.take(i + 1).drop_last() =~= items@.take(i as int));
        push_menuitem_changes(&items[i], &mut r);
        i = i + 1;
    }
    assert(items@.take(items.len() as int) =~= items@);
    r
}

/// The first item that is `entity`.
pub fn lookup_item(items: &Vec<MenuItemState>, entity: u64) -> (r: Option<MenuItemState>)
    ensures
        r == find_item(items@, entity),
{
    let mut i: usize = 0;
    while i < items.len()
        invariant
            i <= items.len(),
            forall|k: int| 0 <= k < i ==> (#[trigger] items@[k]).entity != entity,
        decreases items.len() - i,
    {
        if items[i].entity == entity {
            assert(is_first_item(items@, entity, i as int));
            let ghost c = choose|c: int| #[trigger] is_first_item(items@, entity, c);
            assert(c == i) by {
                if c < i {
                    assert(items@[c].entity != entity);
                }
                if c > i {
                    assert(items@[i as int].entity != entity);
                }
            }
            return Some(items[i]);
        }
        i = i + 1;
    }
    None
}

/// Appends the changes for each entity of `entities` that is a menu item.
fn push_changes_for(items: &Vec<MenuItemState>, entities: &Vec<u64>, out: &mut Vec<StyleChange>)
    ensures
        final(out)@ == old(out)@ + changes_for(items@, entities@),
{
    let mut i: usize = 0;
    while i < entities.len()
        invariant
            i <= entities.len(),
            out@ == old(out)@ + changes_for(items@, entities@.take(i as int)),
        decreases entities.len() - i,
    {
        let ghost before = out@;
        let ghost delta = match find_item(items@, entities@[i as int]) {
            Some(s) => menuitem_changes(s),
            None => Seq::empty(),
        };
        proof {
            let t = entities@.take(i + 1);
            assert(t.drop_last() =~= entities@.take(i as int));
            assert(t.last() == entities@[i as int]);
            assert(changes_for(items@, t) == changes_for(items@, entities@.take(i as int)) + delta);
        }
        match lookup_item(items, entities[i]) {
            Some(s) => push_menuitem_changes(&s, out),
            None => {},
        }
        assert(out@ =~= before + delta);
        i = i + 1;
        assert(out@ =~= old(out)@ + changes_for(items@, entities@.take(i as int)));
    }
    assert(entities@.take(entities.len() as int) =~= entities@);
}

/// The changes for the menu items that just stopped being disabled, then for
/// those that just stopped being pressed.
pub fn update_menuitem_styles_remove(
    items: &Vec<MenuItemState>,
    removed_disabled: &Vec<u64>,
    removed_pressed: &Vec<u64>,
) -> (r: Vec<StyleChange>)
    ensures
        r@ == changes_for(items@, removed_disabled@) + changes_for(items@, removed_pressed@),
{
    let mut r: Vec<StyleChange> = Vec::new();
    push_changes_for(items, removed_disabled, &mut r);
    push_changes_for(items, removed_pressed, &mut r);
    assert(r@ =~= changes_for(items@, removed_disabled@) + changes_for(items@, removed_pressed@));
    r
}

/// The plugin that restyles menu items.
pub struct MenuPlugin;

} // verus!
