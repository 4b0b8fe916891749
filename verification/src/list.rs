//! List box: a widget holding list items, of which one is selected (checked).
//! The arrow keys, Home and End move the selection among the enabled items, and
//! a click on an item selects it. The list box does not change the selection
//! itself: it names the item to select, and the application checks it.

use vstd::prelude::*;

verus! {

/// Marker of a list box widget.
pub struct ListBox;

/// Marker of a list box that allows several items to be selected.
pub struct ListBoxMultiSelect;

/// Marker of an item of a list box.
pub struct ListItem;

/// The plugin that adds the list box's keyboard and pointer handling.
pub struct ListBoxGroupPlugin;

/// A key as the list box sees it.
#[derive(PartialEq, Eq, Structural, Clone, Copy, Debug)]
pub enum NavKey {
    ArrowUp,
    ArrowDown,
    ArrowLeft,
    ArrowRight,
    Home,
    End,
    /// Any other key.
    Other,
}

/// An entity of the hierarchy around a list box.
#[derive(PartialEq, Eq, Structural, Clone, Copy, Debug)]
pub struct ListNode {
    pub entity: u64,
    /// Whether the entity is a list box.
    pub is_listbox: bool,
    /// Whether the entity is a list item.
    pub is_item: bool,
    /// Whether the entity is checked (selected).
    pub checked: bool,
    /// Whether interaction with the entity is disabled.
    pub disabled: bool,
}

/// What the list box does with an event.
#[derive(PartialEq, Eq, Structural, Clone, Copy, Debug)]
pub struct ListBoxResponse {
    /// Whether the event stops propagating to ancestors.
    pub stop_propagation: bool,
    /// The item to select, if the selection changes.
    pub selected: Option<u64>,
}

/// Whether the node is an item that can be selected.
pub open spec fn enabled_item(n: ListNode) -> bool {
    n.is_item && !n.disabled
}

/// The enabled items among `nodes`, in order, as (entity, checked) pairs.
pub open spec fn enabled_items(nodes: Seq<ListNode>) -> Seq<(u64, bool)>
    decreases nodes.len(),
{
    if nodes.len() == 0 {
        Seq::empty()
    } else {
        let rest = enabled_items(nodes.drop_last());
        let n = nodes.last();
        if enabled_item(n) {
            rest.push((n.entity, n.checked))
        } else {
            rest
        }
    }
}

/// Whether `i` is the index of the first checked item.
pub open spec fn is_first_checked(items: Seq<(u64, bool)>, i: int) -> bool {
    0 <= i < items.len() && items[i].1 && forall|k: int| 0 <= k < i ==> !(#[trigger] items[k]).1
}

/// The index of the first checked item, if any.
pub open spec fn first_checked(items: Seq<(u64, bool)>) -> Option<int> {
    if exists|i: int| #[trigger] is_first_checked(items, i) {
        Some(choose|i: int| #[trigger] is_first_checked(items, i))
    } else {
        None
    }
}

/// The index that a key moves the selection to, in a list of `len` items whose
/// selected index is `current`: the arrows step to the neighbour and wrap around
/// at the ends (with nothing selected, up goes to the last and down to the first),
/// Home goes to the first and End to the last. Other keys do not move it.
pub open spec fn next_index(len: int, current: Option<int>, key: NavKey) -> Option<int> {
    match key {
        NavKey::ArrowUp | NavKey::ArrowLeft => Some(
            match current {
                Some(c) => if 0 < c < len {
                    c - 1
                } else {
                    len - 1
                },
                None => len - 1,
            },
        ),
        NavKey::ArrowDown | NavKey::ArrowRight => Some(
            match current {
                Some(c) => if c < len - 1 {
                    c + 1
                } else {
                    0
                },
                None => 0,
            },
        ),
        NavKey::Home => Some(0),
        NavKey::End => Some(len - 1),
        NavKey::Other => None,
    }
}

/// The response to a key press, given whether the focused entity is a list box,
/// whether the key went down (not up), whether it is a repeat, the key, and the
/// list box's descendants.
pub open spec fn key_response(
    is_listbox: bool,
    pressed: bool,
    repeat: bool,
    key: NavKey,
    descendants: Seq<ListNode>,
) -> ListBoxResponse {
    if !is_listbox || !pressed || repeat || key == NavKey::Other {
        ListBoxResponse { stop_propagation: false, selected: None }
    } else {
        let items = enabled_items(descendants);
        if items.len() == 0 {
            ListBoxResponse { stop_propagation: true, selected: None }
        } else {
            let current = first_checked(items);
            let next = next_index(items.len() as int, current, key)->0;
            if current == Some(next) {
                ListBoxResponse { stop_propagation: true, selected: None }
            } else {
                ListBoxResponse { stop_propagation: true, selected: Some(items[next].0) }
            }
        }
    }
}

/// Whether `i` is the index of the nearest ancestor that is a list box or a
/// list item.
pub open spec fn is_first_stop(ancestors: Seq<ListNode>, i: int) -> bool {
    &&& 0 <= i < ancestors.len()
    &&& (ancestors[i].is_listbox || ancestors[i].is_item)
    &&& forall|k: int| 0 <= k < i ==> !(#[trigger] ancestors[k]).is_listbox && !ancestors[k].is_item
}

/// The index of the nearest ancestor that is a list box or a list item.
pub open spec fn first_stop(ancestors: Seq<ListNode>) -> Option<int> {
    if exists|i: int| #[trigger] is_first_stop(ancestors, i) {
        Some(choose|i: int| #[trigger] is_first_stop(ancestors, i))
    } else {
        None
    }
}

/// The item that a click on `target` is for: the target itself if it is an item,
/// else its nearest ancestor that is an item, unless a list box comes first.
pub open spec fn clicked_item(target: ListNode, ancestors: Seq<ListNode>) -> Option<ListNode> {
    if target.is_item {
        Some(target)
    } else {
        match first_stop(ancestors) {
            Some(k) => if ancestors[k].is_listbox {
                None
            } else {
                Some(ancestors[k])
            },
            None => None,
        }
    }
}

/// The entity of the first checked item, if any.
pub open spec fn checked_entity(items: Seq<(u64, bool)>) -> Option<u64> {
    match first_checked(items) {
        Some(i) => Some(items[i].0),
        None => None,
    }
}

/// The response to a click, given whether the entity the click reached is a
/// list box, the clicked entity, its ancestors (nearest first) and the list
/// box's descendants.
pub open spec fn click_response(
    is_listbox: bool,
    target: ListNode,
    ancestors: Seq<ListNode>,
    descendants: Seq<ListNode>,
) -> ListBoxResponse {
    let none = ListBoxResponse { stop_propagation: false, selected: None };
    if !is_listbox {
        none
    } else {
        match clicked_item(target, ancestors) {
            None => none,
            Some(item) => if item.disabled {
                none
            } else {
                let items = enabled_items(descendants);
                if items.len() == 0 {
                    none
                } else if checked_entity(items) == Some(item.entity) {
                    ListBoxResponse { stop_propagation: true, selected: None }
                } else {
                    ListBoxResponse { stop_propagation: true, selected: Some(item.entity) }
                }
            },
        }
    }
}

/// Stepping down then up (or right then left) comes back to the item started
/// from, in a list of one or more items; and the other way round.
pub proof fn law_arrows_are_inverse(len: int, c: int)
    requires
        0 <= c < len,
    ensures
        next_index(len, Some(next_index(len, Some(c), NavKey::ArrowDown)->0), NavKey::ArrowUp) == Some(c),
        next_index(len, Some(next_index(len, Some(c), NavKey::ArrowUp)->0), NavKey::ArrowDown) == Some(c),
        next_index(len, Some(next_index(len, Some(c), NavKey::ArrowRight)->0), NavKey::ArrowLeft) == Some(c),
        next_index(len, Some(next_index(len, Some(c), NavKey::ArrowLeft)->0), NavKey::ArrowRight) == Some(c),
{
}

/// A navigation key always lands on an item of the list.
pub proof fn law_next_index_in_range(len: int, current: Option<int>, key: NavKey)
    requires
        len > 0,
        current matches Some(c) ==> 0 <= c < len,
        key != NavKey::Other,
    ensures
        next_index(len, current, key) matches Some(n) && 0 <= n < len,
{
}

/// When a key press selects an item, it is an enabled item of the list box
/// other than the one checked first, and the event stops propagating.
pub proof fn law_key_selects_enabled_item(
    is_listbox: bool,
    pressed: bool,
    repeat: bool,
    key: NavKey,
    descendants: Seq<ListNode>,
)
    ensures
        key_response(is_listbox, pressed, repeat, key, descendants).selected matches Some(e) ==> {
            let items = enabled_items(descendants);
            &&& key_response(is_listbox, pressed, repeat, key, descendants).stop_propagation
            &&& exists|i: int|
                0 <= i < items.len() && (#[trigger] items[i]).0 == e && first_checked(items) != Some(i)
        },
{
    let r = key_response(is_listbox, pressed, repeat, key, descendants);
    if r.selected is Some {
        let items = enabled_items(descendants);
        let current = first_checked(items);
        if current is Some {
            let c = current->0;
            assert(0 <= c < items.len() && items[c].1);
        }
        law_next_index_in_range(items.len() as int, current, key);
        let n = next_index(items.len() as int, current, key)->0;
        assert(0 <= n < items.len() && items[n].0 == r.selected->0 && current != Some(n));
    }
}

/// A click selects exactly the clicked item, and only when it is not the one
/// already checked.
pub proof fn law_click_selects_clicked_item(
    is_listbox: bool,
    target: ListNode,
    ancestors: Seq<ListNode>,
    descendants: Seq<ListNode>,
)
    ensures
        click_response(is_listbox, target, ancestors, descendants).selected matches Some(e) ==> {
            &&& clicked_item(target, ancestors) matches Some(item) && item.entity == e && !item.disabled
            &&& checked_entity(enabled_items(descendants)) != Some(e)
        },
{
}

/// The enabled items among `nodes`, in order, with their checked state.
pub fn collect_enabled_items(nodes: &Vec<ListNode>) -> (items: Vec<(u64, bool)>)
    ensures
        items@ == enabled_items(nodes@),
{
    let mut items: Vec<(u64, bool)> = Vec::new();
    let mut i: usize = 0;
    while i < nodes.len()
        invariant
            i <= nodes.len(),
            items@ == enabled_items(nodes@.take(i as int)),
        decreases nodes.len() - i,
    {
        let n = nodes[i];
        assert(nodes@.take(i + 1).drop_last() =~= nodes@.take(i as int));
        if n.is_item && !n.disabled {
            items.push((n.entity, n.checked));
        }
        i = i + 1;
    }
    assert(nodes@.take(nodes.len() as int) =~= nodes@);
    items
}

/// The index of the first checked item, if any.
pub fn find_checked(items: &Vec<(u64, bool)>) -> (r: Option<usize>)
    ensures
        r matches Some(i) ==> i < items.len() && first_checked(items@) == Some(i as int),
        r is None ==> first_checked(items@) is None,
{
    let mut i: usize = 0;
    while i < items.len()
        invariant
            i <= items.len(),
            forall|k: int| 0 <= k < i ==> !(#[trigger] items@[k]).1,
        decreases items.len() - i,
    {
        if items[i].1 {
            assert(is_first_checked(items@, i as int));
            let ghost c = first_checked(items@)->0;
            assert(c == i) by {
                if c < i {
                    assert(!items@[c].1);
                }
                if c > i {
                    assert(!items@[i as int].1);
                }
            }
            return Some(i);
        }
        i = i + 1;
    }
    None
}

/// Handles a key press on the focused entity: when it is a list box and the key
/// is a first press (not a repeat) of an arrow, Home or End, the event stops
/// propagating and the selection moves among the enabled items (see
/// [`next_index`]); nothing is selected when the move keeps the current item.
pub fn listbox_on_key_input(
    is_listbox: bool,
    pressed: bool,
    repeat: bool,
    key: NavKey,
    descendants: &Vec<ListNode>,
) -> (r: ListBoxResponse)
    ensures
        r == key_response(is_listbox, pressed, repeat, key, descendants@),
{
    if !is_listbox || !pressed || repeat {
        return ListBoxResponse { stop_propagation: false, selected: None };
    }
    match key {
        NavKey::Other => {
            return ListBoxResponse { stop_propagation: false, selected: None };
        },
        _ => {},
    }
    let items = collect_enabled_items(descendants);
    if items.len() == 0 {
        return ListBoxResponse { stop_propagation: true, selected: None };
    }
    let len = items.len();
    let current = find_checked(&items);
    let next: usize = match key {
        NavKey::ArrowUp | NavKey::ArrowLeft => match current {
            Some(c) => if c == 0 {
                len - 1
            } else {
                c - 1
            },
            None => len - 1,
        },
        NavKey::ArrowDown | NavKey::ArrowRight => match current {
            Some(c) => if c >= len - 1 {
                0
            } else {
                c + 1
            },
            None => 0,
        },
        NavKey::Home => 0,
        _ => len - 1,
    };
    if current == Some(next) {
        return ListBoxResponse { stop_propagation: true, selected: None };
    }
    ListBoxResponse { stop_propagation: true, selected: Some(items[next].0) }
}

/// The index of the nearest ancestor that is a list box or a list item.
pub fn find_stop(ancestors: &Vec<ListNode>) -> (r: Option<usize>)
    ensures
        r matches Some(i) ==> i < ancestors.len() && first_stop(ancestors@) == Some(i as int),
        r is None ==> first_stop(ancestors@) is None,
{
    let mut i: usize = 0;
    while i < ancestors.len()
        invariant
            i <= ancestors.len(),
            forall|k: int| 0 <= k < i ==> !(#[trigger] ancestors@[k]).is_listbox && !ancestors@[k].is_item,
        decreases ancestors.len() - i,
    {
        if ancestors[i].is_listbox || ancestors[i].is_item {
            assert(is_first_stop(ancestors@, i as int));
            let ghost c = first_stop(ancestors@)->0;
            assert(c == i) by {
                if c < i {
                    assert(!ancestors@[c].is_listbox && !ancestors@[c].is_item);
                }
                if c > i {
                    assert(!ancestors@[i as int].is_listbox && !ancestors@[i as int].is_item);
                }
            }
            return Some(i);
        }
        i = i + 1;
    }
    None
}

/// Handles a click that reached a list box: finds the item clicked (the target
/// or its nearest item ancestor, unless a list box comes first); when that item
/// is enabled and the list box has enabled items, the event stops propagating
/// and the item is selected unless it already is.
pub fn listbox_on_row_click(
    is_listbox: bool,
    target: ListNode,
    ancestors: &Vec<ListNode>,
    descendants: &Vec<ListNode>,
) -> (r: ListBoxResponse)
    ensures
        r == click_response(is_listbox, target, ancestors@, descendants@),
{
    let none = ListBoxResponse { stop_propagation: false, selected: None };
    if !is_listbox {
        return none;
    }
    let item = if target.is_item {
        target
    } else {
        match find_stop(ancestors) {
            Some(k) => {
                if ancestors[k].is_listbox {
                    return none;
                }
                ancestors[k]
            },
            None => {
                return none;
            },
        }
    };
    if item.disabled {
        return none;
    }
    let items = collect_enabled_items(descendants);
    if items.len() == 0 {
        return none;
    }
    let current = match find_checked(&items) {
        Some(i) => Some(items[i].0),
        None => None,
    };
    if current == Some(item.entity) {
        return ListBoxResponse { stop_propagation: true, selected: None };
    }
    ListBoxResponse { stop_propagation: true, selected: Some(item.entity) }
}

/// Every enabled item comes from an enabled node, with its entity and checked
/// state.
proof fn lemma_enabled_items_source(nodes: Seq<ListNode>, i: int)
    requires
        0 <= i < enabled_items(nodes).len(),
    ensures
        exists|k: int|
            0 <= k < nodes.len() && enabled_item(#[trigger] nodes[k]) && enabled_items(nodes)[i] == (
                nodes[k].entity,
                nodes[k].checked,
            ),
    decreases nodes.len(),
{
    let rest = enabled_items(nodes.drop_last());
    if i < rest.len() {
        lemma_enabled_items_source(nodes.drop_last(), i);
        let k = choose|k: int|
            0 <= k < nodes.drop_last().len() && enabled_item(#[trigger] nodes.drop_last()[k])
                && rest[i] == (nodes.drop_last()[k].entity, nodes.drop_last()[k].checked);
        assert(nodes.drop_last()[k] == nodes[k]);
    } else {
        assert(enabled_item(nodes[nodes.len() - 1]));
    }
}

/// With no enabled node, there are no enabled items.
proof fn lemma_enabled_items_none(nodes: Seq<ListNode>)
    requires
        forall|j: int| 0 <= j < nodes.len() ==> !enabled_item(#[trigger] nodes[j]),
    ensures
        enabled_items(nodes).len() == 0,
    decreases nodes.len(),
{
    if nodes.len() > 0 {
        assert forall|j: int| 0 <= j < nodes.drop_last().len() implies !enabled_item(
            #[trigger] nodes.drop_last()[j],
        ) by {
            assert(nodes.drop_last()[j] == nodes[j]);
        }
        lemma_enabled_items_none(nodes.drop_last());
        assert(!enabled_item(nodes[nodes.len() - 1]));
    }
}

/// An enabled node gives at least one enabled item.
proof fn lemma_enabled_items_some(nodes: Seq<ListNode>, k: int)
    requires
        0 <= k < nodes.len(),
        enabled_item(nodes[k]),
    ensures
        enabled_items(nodes).len() > 0,
    decreases nodes.len(),
{
    if k < nodes.len() - 1 {
        assert(nodes.drop_last()[k] == nodes[k]);
        lemma_enabled_items_some(nodes.drop_last(), k);
    }
}

/// The first enabled node gives the first enabled item.
proof fn lemma_enabled_items_first(nodes: Seq<ListNode>, k: int)
    requires
        0 <= k < nodes.len(),
        enabled_item(nodes[k]),
        forall|j: int| 0 <= j < k ==> !enabled_item(#[trigger] nodes[j]),
    ensures
        enabled_items(nodes).len() > 0,
        enabled_items(nodes)[0] == (nodes[k].entity, nodes[k].checked),
    decreases nodes.len(),
{
    let d = nodes.drop_last();
    if k == nodes.len() - 1 {
        assert forall|j: int| 0 <= j < d.len() implies !enabled_item(#[trigger] d[j]) by {
            assert(d[j] == nodes[j]);
        }
        lemma_enabled_items_none(d);
    } else {
        assert(d[k] == nodes[k]);
        assert forall|j: int| 0 <= j < k implies !enabled_item(#[trigger] d[j]) by {
            assert(d[j] == nodes[j]);
        }
        lemma_enabled_items_first(d, k);
    }
}

/// The last enabled node gives the last enabled item.
proof fn lemma_enabled_items_last(nodes: Seq<ListNode>, k: int)
    requires
        0 <= k < nodes.len(),
        enabled_item(nodes[k]),
        forall|j: int| k < j < nodes.len() ==> !enabled_item(#[trigger] nodes[j]),
    ensures
        enabled_items(nodes).len() > 0,
        enabled_items(nodes).last() == (nodes[k].entity, nodes[k].checked),
    decreases nodes.len(),
{
    let d = nodes.drop_last();
    if k < nodes.len() - 1 {
        assert(d[k] == nodes[k]);
        assert forall|j: int| k < j < d.len() implies !enabled_item(#[trigger] d[j]) by {
            assert(d[j] == nodes[j]);
        }
        assert(!enabled_item(nodes[nodes.len() - 1]));
        lemma_enabled_items_last(d, k);
    }
}

/// Home selects the first enabled item of the list box, and End the last one,
/// whatever is selected (unless that item is already checked): on a first press
/// in a list box whose descendants hold an enabled item.
pub proof fn law_home_and_end_select_the_ends(
    descendants: Seq<ListNode>,
    first: int,
    last: int,
)
    requires
        0 <= first < descendants.len(),
        0 <= last < descendants.len(),
        enabled_item(descendants[first]),
        enabled_item(descendants[last]),
        forall|j: int| 0 <= j < first ==> !enabled_item(#[trigger] descendants[j]),
        forall|j: int| last < j < descendants.len() ==> !enabled_item(#[trigger] descendants[j]),
    ensures
        !descendants[first].checked ==> key_response(true, true, false, NavKey::Home, descendants)
            == (ListBoxResponse { stop_propagation: true, selected: Some(descendants[first].entity) }),
        !descendants[last].checked ==> key_response(true, true, false, NavKey::End, descendants)
            == (ListBoxResponse { stop_propagation: true, selected: Some(descendants[last].entity) }),
{
    lemma_enabled_items_first(descendants, first);
    lemma_enabled_items_last(descendants, last);
    let items = enabled_items(descendants);
    let current = first_checked(items);
    if current is Some {
        let c = current->0;
        assert(is_first_checked(items, c));
    }
}

/// With nothing checked, the down and right arrows select the first enabled
/// item of the list box, and the up and left arrows the last one.
pub proof fn law_arrows_without_selection(descendants: Seq<ListNode>, first: int, last: int)
    requires
        0 <= first < descendants.len(),
        0 <= last < descendants.len(),
        enabled_item(descendants[first]),
        enabled_item(descendants[last]),
        forall|j: int| 0 <= j < first ==> !enabled_item(#[trigger] descendants[j]),
        forall|j: int| last < j < descendants.len() ==> !enabled_item(#[trigger] descendants[j]),
        forall|j: int| 0 <= j < descendants.len() && enabled_item(#[trigger] descendants[j]) ==> !descendants[j].checked,
    ensures
        key_response(true, true, false, NavKey::ArrowDown, descendants)
            == (ListBoxResponse { stop_propagation: true, selected: Some(descendants[first].entity) }),
        key_response(true, true, false, NavKey::ArrowRight, descendants)
            == (ListBoxResponse { stop_propagation: true, selected: Some(descendants[first].entity) }),
        key_response(true, true, false, NavKey::ArrowUp, descendants)
            == (ListBoxResponse { stop_propagation: true, selected: Some(descendants[last].entity) }),
        key_response(true, true, false, NavKey::ArrowLeft, descendants)
            == (ListBoxResponse { stop_propagation: true, selected: Some(descendants[last].entity) }),
{
    lemma_enabled_items_first(descendants, first);
    lemma_enabled_items_last(descendants, last);
    let items = enabled_items(descendants);
    let current = first_checked(items);
    if current is Some {
        let i = current->0;
        assert(is_first_checked(items, i));
        lemma_enabled_items_source(descendants, i);
        let m = choose|m: int|
            0 <= m < descendants.len() && enabled_item(#[trigger] descendants[m]) && items[i] == (
                descendants[m].entity,
                descendants[m].checked,
            );
    }
}

/// From the checked item, the down arrow selects the next enabled item (the
/// first after the last) and the up arrow the previous one (the last before the
/// first); in a list of one item they select nothing.
pub proof fn law_arrows_step_from_selection(descendants: Seq<ListNode>, c: int)
    requires
        first_checked(enabled_items(descendants)) == Some(c),
    ensures
        ({
            let items = enabled_items(descendants);
            let n = items.len() as int;
            &&& n > 1 ==> key_response(true, true, false, NavKey::ArrowDown, descendants).selected
                == Some(items[if c + 1 < n { c + 1 } else { 0 }].0)
            &&& n > 1 ==> key_response(true, true, false, NavKey::ArrowUp, descendants).selected
                == Some(items[if c > 0 { c - 1 } else { n - 1 }].0)
            &&& n == 1 ==> key_response(true, true, false, NavKey::ArrowDown, descendants).selected is None
            &&& n == 1 ==> key_response(true, true, false, NavKey::ArrowUp, descendants).selected is None
        }),
{
    let items = enabled_items(descendants);
    assert(exists|i: int| #[trigger] is_first_checked(items, i));
    assert(is_first_checked(items, c));
}

/// A click on an enabled item of a list box that has enabled items selects
/// exactly that item, unless it is already checked: in particular whenever no
/// item is checked.
pub proof fn law_click_selects_unchecked_item(
    target: ListNode,
    ancestors: Seq<ListNode>,
    descendants: Seq<ListNode>,
    k: int,
)
    requires
        target.is_item,
        !target.disabled,
        0 <= k < descendants.len(),
        enabled_item(descendants[k]),
        forall|j: int|
            0 <= j < descendants.len() && enabled_item(#[trigger] descendants[j])
                && descendants[j].checked ==> descendants[j].entity != target.entity,
    ensures
        click_response(true, target, ancestors, descendants) == (ListBoxResponse {
            stop_propagation: true,
            selected: Some(target.entity),
        }),
{
    let items = enabled_items(descendants);
    lemma_enabled_items_some(descendants, k);
    let c = first_checked(items);
    if c is Some {
        let i = c->0;
        assert(is_first_checked(items, i));
        lemma_enabled_items_source(descendants, i);
        let m = choose|m: int|
            0 <= m < descendants.len() && enabled_item(#[trigger] descendants[m]) && items[i] == (
                descendants[m].entity,
                descendants[m].checked,
            );
        assert(descendants[m].checked);
    }
}

} // verus!
