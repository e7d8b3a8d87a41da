use kon3::anchors::anchor;
use kon3::anchors::declare;
use kon3::anchors::Anchored;
use kon3::build_pass::build_tree;
use kon3::build_pass::resolve_anchors;
use kon3::drawer::Color;
use kon3::elements::label;
use kon3::elements::layers;
use kon3::elements::rect;
use kon3::elements::Split;
use kon3::elements::SplitType;
use kon3::shared::Addr;
use kon3::shared::Shared;
use kon3::AnchorKey;
use kon3::Build;
use kon3::BuildNode;
use kon3::ResolveAnchors;

const TITLE: AnchorKey = AnchorKey(1);
const MODE: AnchorKey = AnchorKey(2);

fn held(slot: &Anchored<u64>) -> Option<Addr> {
    match slot {
        Anchored::Bound { cell, .. } => Some(cell.addr()),
        Anchored::Unbound { .. } => None,
    }
}

#[test]
fn a_left_declaration_is_shared_with_the_right_sibling() {
    let cell = Shared::new(1u64);
    let (left, right) = build_tree::<u64, _>((declare(TITLE, cell.clone()), anchor(TITLE, 0u64)));
    assert_eq!(left.addr(), cell.addr());
    assert_eq!(right.addr(), cell.addr());
    left.write().unwrap().set(5);
    assert_eq!(*right.read().unwrap().get(), 5);
    right.write().unwrap().set(6);
    assert_eq!(*left.read().unwrap().get(), 6);
    assert_eq!(*cell.read().unwrap().get(), 6);
}

#[test]
fn a_right_declaration_is_found_by_the_left_sibling() {
    let cell = Shared::new(1u64);
    let (left, right) = build_tree::<u64, _>((anchor(TITLE, 0u64), declare(TITLE, cell.clone())));
    assert_eq!(left.addr(), cell.addr());
    assert_eq!(right.addr(), cell.addr());
    cell.write().unwrap().set(9);
    assert_eq!(*left.read().unwrap().get(), 9);
}

#[test]
fn of_two_declarations_the_first_wins() {
    let first = Shared::new(1u64);
    let second = Shared::new(2u64);
    let tree = (declare(TITLE, first.clone()), declare(TITLE, second.clone()), anchor(TITLE, 0u64));
    assert_eq!(tree.get_anchor(TITLE).map(|cell| cell.addr()), Some(first.addr()));
    let (a, b, c) = build_tree::<u64, _>(tree);
    assert_eq!(a.addr(), first.addr());
    assert_eq!(b.addr(), second.addr());
    assert_eq!(c.addr(), first.addr());
    assert_eq!(*c.read().unwrap().get(), 1);
}

#[test]
fn a_slot_that_holds_a_cell_is_never_overwritten() {
    let own = Shared::new(1u64);
    let offered = Shared::new(2u64);
    let mut slot = declare(TITLE, own.clone());
    slot.resolve_anchor(TITLE, &offered);
    assert_eq!(held(&slot), Some(own.addr()));
    let mut waiting = anchor(TITLE, 0u64);
    waiting.resolve_anchor(MODE, &offered);
    assert_eq!(held(&waiting), None);
    waiting.resolve_anchor(TITLE, &offered);
    assert_eq!(held(&waiting), Some(offered.addr()));
    waiting.resolve_anchor(TITLE, &own);
    assert_eq!(held(&waiting), Some(offered.addr()));
}

#[test]
fn resolution_is_idempotent() {
    let cell = Shared::new(1u64);
    let mut tree = (anchor(TITLE, 0u64), (declare(TITLE, cell.clone()), anchor(MODE, 3u64)));
    resolve_anchors::<u64, _>(&mut tree);
    let once = (held(&tree.0), held(&(tree.1).0), held(&(tree.1).1));
    assert_eq!(once, (Some(cell.addr()), Some(cell.addr()), None));
    resolve_anchors::<u64, _>(&mut tree);
    assert_eq!((held(&tree.0), held(&(tree.1).0), held(&(tree.1).1)), once);
}

#[test]
fn anchors_of_different_keys_do_not_meet() {
    let cell = Shared::new(1u64);
    let (left, right) = build_tree::<u64, _>((declare(TITLE, cell.clone()), anchor(MODE, 7u64)));
    assert_eq!(left.addr(), cell.addr());
    assert_ne!(right.addr(), cell.addr());
    assert_eq!(*right.read().unwrap().get(), 7);
    right.write().unwrap().set(8);
    assert_eq!(*cell.read().unwrap().get(), 1);
}

#[test]
fn an_anchor_nobody_declares_stays_unbound_until_built() {
    let mut tree = (anchor(TITLE, 4u64), anchor(TITLE, 5u64));
    assert!(tree.get_anchor(TITLE).is_none());
    resolve_anchors::<u64, _>(&mut tree);
    assert_eq!((held(&tree.0), held(&tree.1)), (None, None));
    let (left, right) = tree.build();
    assert_ne!(left.addr(), right.addr());
    assert_eq!((*left.read().unwrap().get(), *right.read().unwrap().get()), (4, 5));
}

#[test]
fn the_exposed_anchors_are_listed_in_traversal_order() {
    let tree = (anchor(MODE, 0u64), (declare(TITLE, Shared::new(0u64)), anchor(MODE, 0u64)), anchor(TITLE, 1u64));
    assert_eq!(ResolveAnchors::<u64>::anchors(&tree), vec![MODE, TITLE, MODE, TITLE]);
    assert_eq!(ResolveAnchors::<u64>::anchors(&SplitType::Adaptive), vec![]);
    assert_eq!(ResolveAnchors::<u64>::anchors(&rect(Color::new_rgba(0, 0, 0, 0))), vec![]);
    assert!(ResolveAnchors::<u64>::get_anchor(&String::from("x"), TITLE).is_none());
}

#[test]
fn labels_in_different_subtrees_come_to_share_one_text() {
    let text = Shared::new(String::from("shared"));
    let description = layers((
        label(anchor(TITLE, String::from("alone"))),
        Split {
            type_: SplitType::Horizontal,
            elements: (label(String::from("fixed")), label(declare(TITLE, text.clone()))),
            weights: vec![],
        },
        label(anchor(MODE, String::from("other"))),
    ));
    let tree = build_tree::<String, _>(description);
    let first = &(tree.elements.0).0;
    let inner = &((tree.elements.1).elements.1).0;
    let last = &(tree.elements.2).0;
    assert_eq!(first.addr(), text.addr());
    assert_eq!(inner.addr(), text.addr());
    assert_ne!(last.addr(), text.addr());
    text.write().unwrap().set(String::from("changed"));
    assert_eq!(*first.read().unwrap().get(), "changed");
    assert_eq!(*last.read().unwrap().get(), "other");
    assert_eq!((tree.elements.1).type_, SplitType::Horizontal);
    assert_eq!(((tree.elements.1).elements.0).0, "fixed");
}

#[test]
fn a_split_looks_at_its_direction_before_its_children() {
    let direction = Shared::new(SplitType::Vertical);
    let other = Shared::new(SplitType::Horizontal);
    let mut tree = Split {
        type_: declare(MODE, direction.clone()),
        elements: (declare(MODE, other.clone()), anchor(MODE, SplitType::Adaptive)),
        weights: vec![2, 1],
    };
    assert_eq!(tree.get_anchor(MODE).map(|cell| cell.addr()), Some(direction.addr()));
    assert_eq!(ResolveAnchors::<SplitType>::anchors(&tree), vec![MODE, MODE, MODE]);
    tree.resolve_anchor(MODE, &direction);
    let built = tree.build();
    assert_eq!(built.type_.addr(), direction.addr());
    assert_eq!(built.elements.0.addr(), other.addr());
    assert_eq!(built.elements.1.addr(), direction.addr());
    assert_eq!(built.weights, vec![2, 1]);
}

#[test]
fn build_resolves_before_it_builds() {
    let cell = Shared::new(1u64);
    let (left, right) = (declare(TITLE, cell.clone()), anchor(TITLE, 0u64)).build();
    assert_eq!((left.addr(), right.addr()), (cell.addr(), cell.addr()));
    assert_eq!(*right.read().unwrap().get(), 1);
    left.write().unwrap().set(2);
    assert_eq!(*right.read().unwrap().get(), 2);
}

#[test]
fn build_lets_the_first_declaration_win() {
    let first = Shared::new(1u64);
    let second = Shared::new(2u64);
    let description = Split {
        type_: SplitType::Horizontal,
        elements: (declare(TITLE, first.clone()), declare(TITLE, second.clone()), anchor(TITLE, 0u64)),
        weights: vec![2, 1, 1],
    };
    let built = description.build();
    assert_eq!(built.elements.0.addr(), first.addr());
    assert_eq!(built.elements.1.addr(), second.addr());
    assert_eq!(built.elements.2.addr(), first.addr());
    assert_eq!(*built.elements.2.read().unwrap().get(), 1);
    assert_eq!(*built.elements.1.read().unwrap().get(), 2);
    assert_eq!(built.type_, SplitType::Horizontal);
    assert_eq!(built.weights, vec![2, 1, 1]);
}

#[test]
fn the_second_step_alone_gives_a_waiting_slot_its_own_cell() {
    let (left, right) = (anchor(TITLE, 3u64), anchor(MODE, 4u64)).build_node();
    assert_ne!(left.addr(), right.addr());
    assert_eq!((*left.read().unwrap().get(), *right.read().unwrap().get()), (3, 4));
    let cell = Shared::new(9u64);
    let kept = declare(TITLE, cell.clone()).build_node();
    assert_eq!(kept.addr(), cell.addr());
}
