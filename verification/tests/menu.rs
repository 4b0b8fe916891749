use bevy_widgets::menu::{
    collect_popups, lookup_item, menu_on_event, set_menuitem_colors, update_menuitem_styles,
    update_menuitem_styles_remove, MenuChild, MenuEvent, MenuItemState,
};
use bevy_widgets::scrollbar::{update_scrollbar_thumb_styles, ThumbState};
use bevy_widgets::theme::{StyleChange, StyleSlot, ThemeToken};

fn child(entity: u64) -> MenuChild {
    MenuChild { entity, is_popup: false }
}

fn popup(entity: u64) -> MenuChild {
    MenuChild { entity, is_popup: true }
}

fn state(entity: u64, disabled: bool, pressed: bool, hovered: bool) -> MenuItemState {
    MenuItemState {
        entity,
        disabled,
        pressed,
        hovered,
        background: ThemeToken::MenuBg,
        font: ThemeToken::MenuitemText,
    }
}

fn bg(entity: u64, token: ThemeToken) -> StyleChange {
    StyleChange { entity, slot: StyleSlot::Background, token }
}

fn font(entity: u64, token: ThemeToken) -> StyleChange {
    StyleChange { entity, slot: StyleSlot::Font, token }
}

#[test]
fn toggle_opens_closed_menu() {
    let r = menu_on_event(MenuEvent::Toggle, true, true, &vec![child(1), child(2)]);
    assert!(r.despawn.is_empty());
    assert!(r.spawn_popup);
}

#[test]
fn toggle_closes_open_menu() {
    let r = menu_on_event(MenuEvent::Toggle, true, true, &vec![child(1), popup(7), child(2)]);
    assert_eq!(r.despawn, vec![7]);
    assert!(!r.spawn_popup);
}

#[test]
fn toggle_without_spawner_opens_nothing() {
    let r = menu_on_event(MenuEvent::Toggle, true, false, &vec![child(1)]);
    assert!(r.despawn.is_empty());
    assert!(!r.spawn_popup);
}

#[test]
fn close_all_despawns_every_popup() {
    let r = menu_on_event(MenuEvent::CloseAll, true, true, &vec![popup(3), child(1), popup(4)]);
    assert_eq!(r.despawn, vec![3, 4]);
    assert!(!r.spawn_popup);
    let r = menu_on_event(MenuEvent::CloseAll, true, true, &vec![child(1)]);
    assert!(r.despawn.is_empty());
    assert!(!r.spawn_popup);
}

#[test]
fn events_on_non_menus_and_other_events_do_nothing() {
    let children = vec![popup(3)];
    for event in [MenuEvent::Toggle, MenuEvent::CloseAll] {
        let r = menu_on_event(event, false, true, &children);
        assert!(r.despawn.is_empty());
        assert!(!r.spawn_popup);
    }
    for event in [MenuEvent::Open, MenuEvent::Close, MenuEvent::FocusRoot] {
        let r = menu_on_event(event, true, true, &children);
        assert!(r.despawn.is_empty());
        assert!(!r.spawn_popup);
    }
}

#[test]
fn popups_are_collected_in_order() {
    assert_eq!(collect_popups(&vec![popup(5), child(1), popup(2)]), vec![5, 2]);
    assert_eq!(collect_popups(&vec![]), Vec::<u64>::new());
}

#[test]
fn menuitem_colors() {
    // Pressed wins over hovered.
    assert_eq!(
        set_menuitem_colors(&state(1, false, true, true)),
        vec![bg(1, ThemeToken::MenuitemBgPressed)]
    );
    assert_eq!(
        set_menuitem_colors(&state(1, false, false, true)),
        vec![bg(1, ThemeToken::MenuitemBgHover)]
    );
    // Nothing to change.
    assert_eq!(set_menuitem_colors(&state(1, false, false, false)), vec![]);
    // Disabled: only the text color changes.
    assert_eq!(
        set_menuitem_colors(&state(1, true, false, false)),
        vec![font(1, ThemeToken::MenuitemTextDisabled)]
    );
    // Background first, then text.
    assert_eq!(
        set_menuitem_colors(&state(2, true, true, false)),
        vec![bg(2, ThemeToken::MenuitemBgPressed), font(2, ThemeToken::MenuitemTextDisabled)]
    );
}

#[test]
fn menuitem_restyle_is_idempotent() {
    let mut s = state(3, true, false, true);
    for c in set_menuitem_colors(&s) {
        match c.slot {
            StyleSlot::Background => s.background = c.token,
            StyleSlot::Font => s.font = c.token,
        }
    }
    assert_eq!(set_menuitem_colors(&s), vec![]);
}

#[test]
fn update_menuitem_styles_goes_item_by_item() {
    let items = vec![state(1, false, false, true), state(2, false, false, false), state(3, true, false, false)];
    assert_eq!(
        update_menuitem_styles(&items),
        vec![bg(1, ThemeToken::MenuitemBgHover), font(3, ThemeToken::MenuitemTextDisabled)]
    );
}

#[test]
fn update_menuitem_styles_remove_follows_removals() {
    let mut was_pressed = state(1, false, false, false);
    was_pressed.background = ThemeToken::MenuitemBgPressed;
    let mut was_disabled = state(2, false, false, false);
    was_disabled.font = ThemeToken::MenuitemTextDisabled;
    let items = vec![was_pressed, was_disabled];
    let r = update_menuitem_styles_remove(&items, &vec![2, 99], &vec![1]);
    assert_eq!(r, vec![font(2, ThemeToken::MenuitemText), bg(1, ThemeToken::MenuBg)]);
    assert_eq!(lookup_item(&items, 2), Some(was_disabled));
    assert_eq!(lookup_item(&items, 99), None);
}

#[test]
fn scrollbar_thumb_styles() {
    let thumbs = vec![
        ThumbState { entity: 1, hovered: true, dragging: false, background: ThemeToken::ScrollbarThumb },
        ThumbState { entity: 2, hovered: false, dragging: true, background: ThemeToken::ScrollbarThumb },
        ThumbState { entity: 3, hovered: false, dragging: false, background: ThemeToken::ScrollbarThumbHover },
        ThumbState { entity: 4, hovered: false, dragging: false, background: ThemeToken::ScrollbarThumb },
        ThumbState { entity: 5, hovered: true, dragging: true, background: ThemeToken::ScrollbarThumbHover },
    ];
    assert_eq!(
        update_scrollbar_thumb_styles(&thumbs),
        vec![
            bg(1, ThemeToken::ScrollbarThumbHover),
            bg(2, ThemeToken::ScrollbarThumbHover),
            bg(3, ThemeToken::ScrollbarThumb),
        ]
    );
}
