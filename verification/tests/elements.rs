use kon3::build_pass::build_tree;
use kon3::anchors::anchor;
use kon3::drawer::Color;
use kon3::drawer::DrawOp;
use kon3::drawer::DrawPass;
use kon3::elements::label;
use kon3::elements::label::draw_label;
use kon3::elements::label::label_strip;
use kon3::elements::label::tint;
use kon3::elements::layers;
use kon3::elements::rect;
use kon3::elements::split;
use kon3::elements::Split;
use kon3::elements::SplitType;
use kon3::location::Location;
use kon3::shared::LockError;
use kon3::shared::Shared;
use kon3::AnchorKey;
use kon3::Build;
use kon3::Element;
use std::hash::DefaultHasher;
use std::hash::Hash;
use std::hash::Hasher;

const RED: Color = Color { red: 255, green: 0, blue: 0, alpha: 255 };
const GREEN: Color = Color { red: 0, green: 255, blue: 0, alpha: 255 };
const BLUE: Color = Color { red: 0, green: 0, blue: 255, alpha: 255 };

fn at(x: u32, y: u32, width: u32, height: u32) -> Location {
    Location::new(x, y, width, height).unwrap()
}

fn op(location: Location, color: Color) -> DrawOp {
    DrawOp { location, color }
}

fn drawn<E: Element<()>>(element: &E, location: Location) -> Vec<DrawOp> {
    let mut pass = DrawPass::new();
    element.draw(&mut pass, &(), location).unwrap();
    pass.ops().clone()
}

fn columns_of(text: &str) -> u64 {
    let mut hasher = DefaultHasher::default();
    text.hash(&mut hasher);
    hasher.finish() % 16
}

#[test]
fn a_rect_fills_its_region() {
    assert_eq!(drawn(&rect(RED), at(1, 2, 3, 4)), vec![op(at(1, 2, 3, 4), RED)]);
    assert_eq!(Color::new_rgba(1, 2, 3, 4), Color { red: 1, green: 2, blue: 3, alpha: 4 });
}

#[test]
fn layers_paint_in_declaration_order_at_the_same_location() {
    let place = at(10, 20, 300, 400);
    let pair = layers((rect(RED), rect(GREEN)));
    assert_eq!(drawn(&pair, place), vec![op(place, RED), op(place, GREEN)]);
    let triple = layers((rect(BLUE), rect(RED), rect(GREEN)));
    assert_eq!(drawn(&triple, place), vec![op(place, BLUE), op(place, RED), op(place, GREEN)]);
    let nested = layers((layers((rect(RED), rect(GREEN))), rect(BLUE)));
    assert_eq!(drawn(&nested, place), vec![op(place, RED), op(place, GREEN), op(place, BLUE)]);
}

#[test]
fn drawing_appends_to_what_the_pass_holds() {
    let mut pass = DrawPass::new();
    assert_eq!(pass.len(), 0);
    assert_eq!(pass.get(0), None);
    pass.record(op(at(0, 0, 1, 1), BLUE));
    assert_eq!(layers((rect(RED), rect(GREEN))).draw(&mut pass, &(), at(5, 5, 5, 5)), Ok(()));
    assert_eq!(pass.len(), 3);
    assert_eq!(pass.get(0), Some(op(at(0, 0, 1, 1), BLUE)));
    assert_eq!(pass.get(1), Some(op(at(5, 5, 5, 5), RED)));
    assert_eq!(pass.get(2), Some(op(at(5, 5, 5, 5), GREEN)));
    assert_eq!(pass.get(3), None);
}

#[test]
fn a_line_puts_its_children_side_by_side() {
    let tree = split::line((rect(RED), rect(GREEN)));
    assert_eq!(
        drawn(&tree, at(0, 0, 200, 100)),
        vec![op(at(0, 0, 100, 100), RED), op(at(100, 0, 100, 100), GREEN)]
    );
}

#[test]
fn a_column_stacks_its_children() {
    let tree = split::column((rect(RED), rect(GREEN)));
    assert_eq!(
        drawn(&tree, at(7, 9, 100, 401)),
        vec![op(at(7, 9, 100, 200), RED), op(at(7, 209, 100, 201), GREEN)]
    );
}

#[test]
fn an_adaptive_split_follows_the_shape_of_its_region() {
    let tree = split::split((rect(RED), rect(GREEN)));
    assert_eq!(tree.type_, SplitType::Adaptive);
    assert_eq!(
        drawn(&tree, at(0, 0, 200, 100)),
        vec![op(at(0, 0, 100, 100), RED), op(at(100, 0, 100, 100), GREEN)]
    );
    assert_eq!(
        drawn(&tree, at(0, 0, 100, 200)),
        vec![op(at(0, 0, 100, 100), RED), op(at(0, 100, 100, 100), GREEN)]
    );
}

#[test]
fn splits_nest() {
    let tree = split::line((
        split::column((rect(RED), rect(GREEN))),
        layers((rect(BLUE), split::line((rect(RED), rect(GREEN))))),
    ));
    assert_eq!(
        drawn(&tree, at(0, 0, 400, 100)),
        vec![
            op(at(0, 0, 200, 50), RED),
            op(at(0, 50, 200, 50), GREEN),
            op(at(200, 0, 200, 100), BLUE),
            op(at(200, 0, 100, 100), RED),
            op(at(300, 0, 100, 100), GREEN),
        ]
    );
}

#[test]
fn a_split_follows_a_shared_direction() {
    let description = Split {
        type_: anchor(AnchorKey(1), SplitType::Horizontal),
        elements: (rect(RED), rect(GREEN)),
        weights: vec![],
    };
    let tree = build_tree::<SplitType, _>(description);
    let place = at(0, 0, 60, 40);
    assert_eq!(drawn(&tree, place), vec![op(at(0, 0, 30, 40), RED), op(at(30, 0, 30, 40), GREEN)]);
    tree.type_.write().unwrap().set(SplitType::Vertical);
    assert_eq!(drawn(&tree, place), vec![op(at(0, 0, 60, 20), RED), op(at(0, 20, 60, 20), GREEN)]);
}

#[test]
fn the_strip_of_a_label_leaves_out_one_column_on_each_side() {
    let place = at(10, 20, 160, 50);
    assert_eq!(label_strip(0, place), None);
    assert_eq!(label_strip(1, place), None);
    assert_eq!(label_strip(16, place), None);
    assert_eq!(label_strip(2, place), Some(at(90, 20, 0, 50)));
    assert_eq!(label_strip(4, place), Some(at(50, 20, 80, 50)));
    assert_eq!(label_strip(16 * 1000 + 4, place), Some(at(50, 20, 80, 50)));
    assert_eq!(label_strip(15, place), Some(at(20, 20, 139, 50)));
    assert_eq!(label_strip(u64::MAX, place), Some(at(20, 20, 139, 50)));
    assert_eq!(tint(), Color { red: 255, green: 255, blue: 255, alpha: 128 });
}

#[test]
fn a_label_is_drawn_from_the_hash_of_its_text() {
    let place = at(0, 0, 1600, 10);
    let mut seen_strip = false;
    let mut seen_nothing = false;
    for number in 0..64 {
        let text = format!("label {}", number);
        let expected = match label_strip(columns_of(&text), place) {
            Some(strip) => vec![op(strip, tint())],
            None => vec![],
        };
        seen_strip |= !expected.is_empty();
        seen_nothing |= expected.is_empty();
        assert_eq!(drawn(&Build::<()>::build(label(text.clone())), place), expected);
        let mut pass = DrawPass::new();
        draw_label(columns_of(&text), &mut pass, &(), place);
        assert_eq!(pass.ops().clone(), expected);
    }
    assert!(seen_strip && seen_nothing);
}

#[test]
fn a_label_follows_the_text_in_a_shared_cell() {
    let place = at(0, 0, 1600, 10);
    let text = Shared::new(String::from("one"));
    let element = label(anchor(AnchorKey(3), String::new()));
    assert!(matches!(element.0, kon3::anchors::Anchored::Unbound { .. }));
    let tree = kon3::elements::Label(text.clone());
    for word in ["one", "two", "three", "four", "five", "six"] {
        text.write().unwrap().set(String::from(word));
        let expected = match label_strip(columns_of(word), place) {
            Some(strip) => vec![op(strip, tint())],
            None => vec![],
        };
        assert_eq!(drawn(&tree, place), expected);
    }
}

#[test]
fn a_split_divides_by_the_weights_it_holds() {
    let tree = split::column((rect(RED), rect(GREEN))).weighted(vec![1, 3]);
    assert_eq!(
        drawn(&tree, at(0, 0, 100, 400)),
        vec![op(at(0, 0, 100, 100), RED), op(at(0, 100, 100, 300), GREEN)]
    );
    let across = split::line((rect(RED), rect(GREEN))).weighted(vec![3, 1]);
    assert_eq!(
        drawn(&across, at(10, 0, 100, 40)),
        vec![op(at(10, 0, 75, 40), RED), op(at(85, 0, 25, 40), GREEN)]
    );
}

#[test]
fn the_parts_of_a_weighted_split_fill_the_region() {
    for (first, second) in [(1u32, 1u32), (1, 3), (2, 5), (7, 0), (0, 9), (u32::MAX, 1)] {
        let tree = split::line((rect(RED), rect(GREEN))).weighted(vec![first, second]);
        let ops = drawn(&tree, at(3, 4, 1001, 10));
        assert_eq!(ops[0].location.x(), 3);
        assert_eq!(ops[0].location.x() + ops[0].location.width(), ops[1].location.x());
        assert_eq!(ops[1].location.x() + ops[1].location.width(), 3 + 1001);
        assert_eq!(ops[0].location.width() + ops[1].location.width(), 1001);
        assert_eq!((ops[0].location.height(), ops[1].location.height()), (10, 10));
    }
}

#[test]
fn a_child_without_a_weight_of_its_own_has_weight_one() {
    let tree = split::line((rect(RED), rect(GREEN))).weighted(vec![3]);
    assert_eq!(
        drawn(&tree, at(0, 0, 100, 10)),
        vec![op(at(0, 0, 75, 10), RED), op(at(75, 0, 25, 10), GREEN)]
    );
    let more = split::line((rect(RED), rect(GREEN))).weighted(vec![1, 1, 8]);
    assert_eq!(
        drawn(&more, at(0, 0, 100, 10)),
        vec![op(at(0, 0, 50, 10), RED), op(at(50, 0, 50, 10), GREEN)]
    );
    let built = Build::<()>::build(split::column((rect(RED), rect(GREEN))).weighted(vec![1, 3]));
    assert_eq!(built.type_, SplitType::Vertical);
    assert_eq!(built.elements, (rect(RED), rect(GREEN)));
    assert_eq!(built.weights, vec![1, 3]);
}

#[test]
fn a_draw_that_cannot_read_leaves_the_pass_as_it_was() {
    let direction = Shared::new(SplitType::Horizontal);
    let tree = layers((
        rect(RED),
        Split { type_: direction.clone(), elements: (rect(GREEN), rect(BLUE)), weights: vec![] },
    ));
    let mut pass = DrawPass::new();
    pass.record(op(at(0, 0, 1, 1), BLUE));
    {
        let _writer = direction.write().unwrap();
        assert_eq!(tree.draw(&mut pass, &(), at(0, 0, 10, 10)), Err(LockError::Busy));
        assert_eq!(pass.ops().clone(), vec![op(at(0, 0, 1, 1), BLUE)]);
    }
    assert_eq!(tree.draw(&mut pass, &(), at(0, 0, 10, 10)), Ok(()));
    assert_eq!(pass.len(), 4);
    let text = Shared::new(String::from("busy"));
    let labels = layers((rect(RED), rect(GREEN), kon3::elements::Label(text.clone())));
    let _writer = text.write().unwrap();
    assert_eq!(labels.draw(&mut pass, &(), at(0, 0, 10, 10)), Err(LockError::Busy));
    assert_eq!(pass.len(), 4);
}

#[test]
fn a_pass_can_be_rewound() {
    let mut pass = DrawPass::new();
    pass.record(op(at(0, 0, 1, 1), RED));
    pass.record(op(at(0, 0, 2, 2), GREEN));
    pass.rewind(5);
    assert_eq!(pass.len(), 2);
    pass.rewind(1);
    assert_eq!(pass.ops().clone(), vec![op(at(0, 0, 1, 1), RED)]);
}

#[test]
fn a_split_of_three_children_divides_by_their_weights() {
    let even = split::line((rect(RED), rect(GREEN), rect(BLUE)));
    assert_eq!(
        drawn(&even, at(0, 0, 300, 10)),
        vec![op(at(0, 0, 100, 10), RED), op(at(100, 0, 100, 10), GREEN), op(at(200, 0, 100, 10), BLUE)]
    );
    let tree = split::column((rect(RED), rect(GREEN), rect(BLUE))).weighted(vec![1, 2, 5]);
    assert_eq!(
        drawn(&tree, at(5, 6, 20, 80)),
        vec![op(at(5, 6, 20, 10), RED), op(at(5, 16, 20, 20), GREEN), op(at(5, 36, 20, 50), BLUE)]
    );
    let uneven = split::line((rect(RED), rect(GREEN), rect(BLUE)));
    let ops = drawn(&uneven, at(0, 0, 100, 1));
    assert_eq!(ops.iter().map(|op| op.location.width()).sum::<u32>(), 100);
    let text = Shared::new(String::from("busy"));
    let built = Split {
        type_: SplitType::Horizontal,
        elements: (rect(RED), rect(GREEN), kon3::elements::Label(text.clone())),
        weights: vec![],
    };
    let mut pass = DrawPass::new();
    let _writer = text.write().unwrap();
    assert_eq!(built.draw(&mut pass, &(), at(0, 0, 9, 9)), Err(LockError::Busy));
    assert_eq!(pass.len(), 0);
}
