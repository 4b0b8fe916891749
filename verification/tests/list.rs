use bevy_widgets::list::{
    collect_enabled_items, find_checked, find_stop, listbox_on_key_input, listbox_on_row_click,
    ListBoxResponse, ListNode, NavKey,
};

fn item(entity: u64, checked: bool) -> ListNode {
    ListNode { entity, is_listbox: false, is_item: true, checked, disabled: false }
}

fn disabled_item(entity: u64, checked: bool) -> ListNode {
    ListNode { entity, is_listbox: false, is_item: true, checked, disabled: true }
}

fn plain(entity: u64) -> ListNode {
    ListNode { entity, is_listbox: false, is_item: false, checked: false, disabled: false }
}

fn listbox(entity: u64) -> ListNode {
    ListNode { entity, is_listbox: true, is_item: false, checked: false, disabled: false }
}

fn selects(e: u64) -> ListBoxResponse {
    ListBoxResponse { stop_propagation: true, selected: Some(e) }
}

const STOPPED: ListBoxResponse = ListBoxResponse { stop_propagation: true, selected: None };
const IGNORED: ListBoxResponse = ListBoxResponse { stop_propagation: false, selected: None };

fn press(key: NavKey, nodes: &Vec<ListNode>) -> ListBoxResponse {
    listbox_on_key_input(true, true, false, key, nodes)
}

#[test]
fn arrow_down_moves_to_next_item() {
    let nodes = vec![item(10, true), item(11, false), item(12, false)];
    assert_eq!(press(NavKey::ArrowDown, &nodes), selects(11));
    assert_eq!(press(NavKey::ArrowRight, &nodes), selects(11));
}

#[test]
fn arrow_up_wraps_to_last_item() {
    let nodes = vec![item(10, true), item(11, false), item(12, false)];
    assert_eq!(press(NavKey::ArrowUp, &nodes), selects(12));
    assert_eq!(press(NavKey::ArrowLeft, &nodes), selects(12));
}

#[test]
fn arrow_down_wraps_to_first_item() {
    let nodes = vec![item(10, false), item(11, false), item(12, true)];
    assert_eq!(press(NavKey::ArrowDown, &nodes), selects(10));
    assert_eq!(press(NavKey::ArrowUp, &nodes), selects(11));
}

#[test]
fn home_and_end() {
    let nodes = vec![item(10, false), item(11, true), item(12, false)];
    assert_eq!(press(NavKey::Home, &nodes), selects(10));
    assert_eq!(press(NavKey::End, &nodes), selects(12));
    let at_first = vec![item(10, true), item(11, false)];
    assert_eq!(press(NavKey::Home, &at_first), STOPPED);
    let at_last = vec![item(10, false), item(11, true)];
    assert_eq!(press(NavKey::End, &at_last), STOPPED);
}

#[test]
fn nothing_checked() {
    let nodes = vec![item(10, false), item(11, false), item(12, false)];
    assert_eq!(press(NavKey::ArrowDown, &nodes), selects(10));
    assert_eq!(press(NavKey::ArrowUp, &nodes), selects(12));
}

#[test]
fn single_item_does_not_move() {
    let nodes = vec![item(10, true)];
    assert_eq!(press(NavKey::ArrowDown, &nodes), STOPPED);
    assert_eq!(press(NavKey::ArrowUp, &nodes), STOPPED);
}

#[test]
fn disabled_and_non_items_are_skipped() {
    let nodes = vec![
        plain(1),
        item(10, true),
        disabled_item(11, false),
        plain(2),
        item(12, false),
    ];
    assert_eq!(press(NavKey::ArrowDown, &nodes), selects(12));
    assert_eq!(press(NavKey::ArrowUp, &nodes), selects(12));
    // A checked item that is disabled does not count as the current one.
    let nodes = vec![disabled_item(9, true), item(10, false), item(11, false)];
    assert_eq!(press(NavKey::ArrowDown, &nodes), selects(10));
}

#[test]
fn first_checked_item_is_current() {
    let nodes = vec![item(10, false), item(11, true), item(12, true)];
    assert_eq!(press(NavKey::ArrowDown, &nodes), selects(12));
    assert_eq!(press(NavKey::ArrowUp, &nodes), selects(10));
}

#[test]
fn no_enabled_items_stops_but_selects_nothing() {
    let nodes = vec![plain(1), disabled_item(2, false)];
    assert_eq!(press(NavKey::ArrowDown, &nodes), STOPPED);
    assert_eq!(press(NavKey::Home, &vec![]), STOPPED);
}

#[test]
fn ignored_key_events() {
    let nodes = vec![item(10, true), item(11, false)];
    assert_eq!(listbox_on_key_input(false, true, false, NavKey::ArrowDown, &nodes), IGNORED);
    assert_eq!(listbox_on_key_input(true, false, false, NavKey::ArrowDown, &nodes), IGNORED);
    assert_eq!(listbox_on_key_input(true, true, true, NavKey::ArrowDown, &nodes), IGNORED);
    assert_eq!(listbox_on_key_input(true, true, false, NavKey::Other, &nodes), IGNORED);
}

#[test]
fn down_then_up_returns() {
    let mut nodes = vec![item(10, false), item(11, true), item(12, false)];
    let r = press(NavKey::ArrowDown, &nodes);
    assert_eq!(r, selects(12));
    nodes[1].checked = false;
    nodes[2].checked = true;
    assert_eq!(press(NavKey::ArrowUp, &nodes), selects(11));
}

#[test]
fn click_on_item_selects_it() {
    let descendants = vec![item(10, true), item(11, false)];
    let r = listbox_on_row_click(true, item(11, false), &vec![listbox(1)], &descendants);
    assert_eq!(r, selects(11));
}

#[test]
fn click_on_checked_item_changes_nothing() {
    let descendants = vec![item(10, true), item(11, false)];
    let r = listbox_on_row_click(true, item(10, true), &vec![listbox(1)], &descendants);
    assert_eq!(r, STOPPED);
}

#[test]
fn click_inside_item_finds_ancestor_item() {
    let descendants = vec![item(10, true), item(11, false)];
    let ancestors = vec![plain(50), item(11, false), listbox(1)];
    let r = listbox_on_row_click(true, plain(51), &ancestors, &descendants);
    assert_eq!(r, selects(11));
}

#[test]
fn click_reaching_listbox_first_is_ignored() {
    let descendants = vec![item(10, true), item(11, false)];
    let ancestors = vec![plain(50), listbox(1), item(11, false)];
    let r = listbox_on_row_click(true, plain(51), &ancestors, &descendants);
    assert_eq!(r, IGNORED);
    let r = listbox_on_row_click(true, plain(51), &vec![plain(50)], &descendants);
    assert_eq!(r, IGNORED);
}

#[test]
fn click_on_disabled_item_is_ignored() {
    let descendants = vec![item(10, true), disabled_item(11, false)];
    let r = listbox_on_row_click(true, disabled_item(11, false), &vec![listbox(1)], &descendants);
    assert_eq!(r, IGNORED);
}

#[test]
fn click_with_no_enabled_items_is_ignored() {
    let descendants = vec![disabled_item(10, true)];
    let r = listbox_on_row_click(true, item(11, false), &vec![listbox(1)], &descendants);
    assert_eq!(r, IGNORED);
}

#[test]
fn click_outside_listbox_is_ignored() {
    let descendants = vec![item(10, true), item(11, false)];
    let r = listbox_on_row_click(false, item(11, false), &vec![], &descendants);
    assert_eq!(r, IGNORED);
}

#[test]
fn helpers() {
    let nodes = vec![plain(1), item(10, false), disabled_item(11, true), item(12, true)];
    let items = collect_enabled_items(&nodes);
    assert_eq!(items, vec![(10, false), (12, true)]);
    assert_eq!(find_checked(&items), Some(1));
    assert_eq!(find_checked(&vec![(1, false)]), None);
    assert_eq!(find_stop(&vec![plain(1), plain(2), listbox(3)]), Some(2));
    assert_eq!(find_stop(&vec![plain(1)]), None);
}
