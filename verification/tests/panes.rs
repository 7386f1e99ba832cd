use august::pane_layout::{restored_tab_index, terminals_to_restore, 
    Axis, CloseOutcome, Member, Pane, PaneAxis, PaneStore, SplitDirection,
};

fn axis_of(m: &Member) -> Option<(Axis, usize)> {
    match m {
        Member::Pane(_) => None,
        Member::Axis(a) => Some((a.axis, a.members.len())),
    }
}

#[test]
fn split_directions_pick_axis_and_side() {
    assert_eq!(SplitDirection::Up.axis(), Axis::Vertical);
    assert_eq!(SplitDirection::Down.axis(), Axis::Vertical);
    assert_eq!(SplitDirection::Left.axis(), Axis::Horizontal);
    assert_eq!(SplitDirection::Right.axis(), Axis::Horizontal);
    assert!(SplitDirection::Up.is_before());
    assert!(SplitDirection::Left.is_before());
    assert!(!SplitDirection::Down.is_before());
    assert!(!SplitDirection::Right.is_before());
}

#[test]
fn splitting_the_single_pane_makes_a_split() {
    let mut store = PaneStore::with_root(Member::Pane(1));
    assert_eq!(store.active_pane, Some(1));
    store.split_pane(1, 2, SplitDirection::Right);
    assert_eq!(store.panes(), vec![1, 2]);
    assert_eq!(axis_of(&store.root), Some((Axis::Horizontal, 2)));
    assert_eq!(store.active_pane, Some(2));
}

#[test]
fn splitting_left_puts_new_pane_first() {
    let mut store = PaneStore::with_root(Member::Pane(1));
    store.split_pane(1, 2, SplitDirection::Left);
    assert_eq!(store.panes(), vec![2, 1]);
}

#[test]
fn splitting_along_same_axis_inserts_next_to_target() {
    let mut store = PaneStore::with_root(Member::Pane(1));
    store.split_pane(1, 2, SplitDirection::Right);
    store.split_pane(1, 3, SplitDirection::Right);
    assert_eq!(store.panes(), vec![1, 3, 2]);
    assert_eq!(axis_of(&store.root), Some((Axis::Horizontal, 3)));
    assert_eq!(store.pane_count(), 3);
}

#[test]
fn splitting_across_axis_nests_a_split() {
    let mut store = PaneStore::with_root(Member::Pane(1));
    store.split_pane(1, 2, SplitDirection::Right);
    store.split_pane(2, 3, SplitDirection::Up);
    assert_eq!(store.panes(), vec![1, 3, 2]);
    match &store.root {
        Member::Axis(a) => {
            assert_eq!(a.members.len(), 2);
            assert_eq!(axis_of(&a.members[1]), Some((Axis::Vertical, 2)));
        }
        Member::Pane(_) => panic!("expected a split"),
    }
}

#[test]
fn splitting_unknown_pane_keeps_layout_but_moves_focus() {
    let mut store = PaneStore::with_root(Member::Pane(1));
    store.split_pane(7, 2, SplitDirection::Down);
    assert_eq!(store.panes(), vec![1]);
    assert_eq!(store.active_pane, Some(2));
}

#[test]
fn removing_a_pane_collapses_single_member_splits() {
    let mut store = PaneStore::with_root(Member::Pane(1));
    store.split_pane(1, 2, SplitDirection::Right);
    store.split_pane(2, 3, SplitDirection::Down);
    assert_eq!(store.panes(), vec![1, 2, 3]);
    store.remove_pane(3);
    assert_eq!(store.panes(), vec![1, 2]);
    // the nested split held one pane and gave way to it
    match &store.root {
        Member::Axis(a) => {
            assert!(matches!(a.members[1], Member::Pane(2)));
        }
        Member::Pane(_) => panic!("expected a split"),
    }
    store.remove_pane(1);
    assert!(matches!(store.root, Member::Pane(2)));
    assert_eq!(store.active_pane, Some(2));
}

#[test]
fn removing_the_last_pane_does_nothing() {
    let mut store = PaneStore::with_root(Member::Pane(4));
    store.remove_pane(4);
    assert_eq!(store.panes(), vec![4]);
    assert_eq!(store.active_pane, Some(4));
}

#[test]
fn removing_focused_pane_moves_focus_to_first() {
    let mut store = PaneStore::with_root(Member::Pane(1));
    store.split_pane(1, 2, SplitDirection::Right);
    store.split_pane(2, 3, SplitDirection::Right);
    assert_eq!(store.active_pane, Some(3));
    store.remove_pane(3);
    assert_eq!(store.active_pane, Some(1));
    assert_eq!(store.panes(), vec![1, 2]);
}

#[test]
fn with_root_focuses_first_collected_pane() {
    let root = Member::Axis(PaneAxis::new(
        Axis::Vertical,
        vec![
            Member::Axis(PaneAxis::new(Axis::Horizontal, vec![Member::Pane(5), Member::Pane(6)])),
            Member::Pane(7),
        ],
    ));
    let store = PaneStore::with_root(root);
    assert_eq!(store.panes(), vec![5, 6, 7]);
    assert_eq!(store.active_pane, Some(5));
    assert_eq!(store.root.first_pane(), Some(5));
}

#[test]
fn first_pane_of_empty_split_is_none() {
    let m = Member::Axis(PaneAxis::new(Axis::Horizontal, vec![]));
    assert_eq!(m.first_pane(), None);
    let store = PaneStore::with_root(m);
    assert_eq!(store.active_pane, None);
}

#[test]
fn tabs_add_select_and_remove() {
    let mut pane: Pane<&str> = Pane::new();
    assert_eq!(pane.active_tab(), None);
    pane.add_tab("a");
    pane.add_tab("b");
    pane.add_tab("c");
    assert_eq!(pane.active_index, 2);
    assert_eq!(pane.active_tab(), Some(&"c"));
    pane.select_tab(0);
    assert_eq!(pane.active_tab(), Some(&"a"));
    pane.select_tab(9);
    assert_eq!(pane.active_index, 0);
    assert_eq!(pane.remove_tab(1), Some("b"));
    assert_eq!(pane.tabs, vec!["a", "c"]);
    assert_eq!(pane.active_index, 0);
    assert_eq!(pane.remove_tab(5), None);
}

#[test]
fn removing_last_tab_pulls_active_back() {
    let mut pane: Pane<u32> = Pane::new();
    pane.add_tab(1);
    pane.add_tab(2);
    assert_eq!(pane.remove_tab(1), Some(2));
    assert_eq!(pane.active_index, 0);
    assert_eq!(pane.remove_tab(0), Some(1));
    assert!(pane.tabs.is_empty());
    assert_eq!(pane.active_index, 0);
}

#[test]
fn next_and_prev_tab_wrap_and_undo() {
    let mut pane: Pane<u32> = Pane::new();
    for t in 0..3 {
        pane.add_tab(t);
    }
    pane.next_tab();
    assert_eq!(pane.active_index, 0);
    pane.prev_tab();
    assert_eq!(pane.active_index, 2);
    pane.prev_tab();
    pane.next_tab();
    assert_eq!(pane.active_index, 2);
    let mut single: Pane<u32> = Pane::new();
    single.add_tab(9);
    single.next_tab();
    assert_eq!(single.active_index, 0);
}

#[test]
fn store_cycles_tabs_of_focused_pane() {
    let store = PaneStore::with_root(Member::Pane(1));
    let mut pane: Pane<u32> = Pane::new();
    pane.add_tab(10);
    pane.add_tab(11);
    store.next_pane(&mut pane);
    assert_eq!(pane.active_index, 0);
    store.prev_pane(&mut pane);
    assert_eq!(pane.active_index, 1);
    let unfocused = PaneStore::with_root(Member::Axis(PaneAxis::new(Axis::Horizontal, vec![])));
    unfocused.next_pane(&mut pane);
    assert_eq!(pane.active_index, 1);
}

#[test]
fn close_current_pane_closes_tab_then_pane() {
    let mut store = PaneStore::with_root(Member::Pane(1));
    store.split_pane(1, 2, SplitDirection::Down);
    let mut pane: Pane<u32> = Pane::new();
    pane.add_tab(1);
    pane.add_tab(2);
    assert_eq!(store.close_current_pane(&mut pane), CloseOutcome::TabClosed);
    assert_eq!(pane.tabs, vec![1]);
    assert_eq!(store.pane_count(), 2);
    assert_eq!(store.close_current_pane(&mut pane), CloseOutcome::PaneClosed);
    assert_eq!(store.panes(), vec![1]);
    assert_eq!(store.active_pane, Some(1));
    assert_eq!(store.close_current_pane(&mut pane), CloseOutcome::Nothing);
    assert_eq!(store.panes(), vec![1]);
}

#[test]
fn split_then_close_new_pane_restores_order() {
    let root = Member::Axis(PaneAxis::new(
        Axis::Horizontal,
        vec![Member::Pane(1), Member::Axis(PaneAxis::new(Axis::Vertical, vec![Member::Pane(2), Member::Pane(3)]))],
    ));
    let mut store = PaneStore::with_root(root);
    let before = store.panes();
    store.split_pane(2, 9, SplitDirection::Left);
    assert_eq!(store.panes(), vec![1, 9, 2, 3]);
    store.remove_pane(9);
    assert_eq!(store.panes(), before);
}

#[test]
fn restoring_panes_opens_terminals_and_picks_tab() {
    assert_eq!(terminals_to_restore(0, false), 1);
    assert_eq!(terminals_to_restore(0, true), 0);
    assert_eq!(terminals_to_restore(3, false), 3);
    assert_eq!(restored_tab_index(5, 3), 2);
    assert_eq!(restored_tab_index(1, 3), 1);
    assert_eq!(restored_tab_index(4, 0), 0);
}

fn all_splits_wide(m: &Member) -> bool {
    match m {
        Member::Pane(_) => true,
        Member::Axis(a) => a.members.len() >= 2 && a.members.iter().all(all_splits_wide),
    }
}

#[test]
fn closing_panes_keeps_every_split_with_two_members() {
    let mut store = PaneStore::with_root(Member::Pane(1));
    store.split_pane(1, 2, SplitDirection::Right);
    store.split_pane(2, 3, SplitDirection::Down);
    store.split_pane(3, 4, SplitDirection::Right);
    assert!(all_splits_wide(&store.root));
    for target in [3, 4, 2] {
        store.remove_pane(target);
        assert!(all_splits_wide(&store.root));
    }
    assert_eq!(store.panes(), vec![1]);
    assert!(matches!(store.root, Member::Pane(1)));
}
