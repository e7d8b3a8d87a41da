use kon3::anchors::anchor;
use kon3::anchors::declare;
use kon3::build_pass::build_tree;
use kon3::drawer::Color;
use kon3::drawer::DrawPass;
use kon3::elements::label;
use kon3::elements::label::label_strip;
use kon3::elements::rect;
use kon3::elements::Split;
use kon3::elements::SplitType;
use kon3::location::Location;
use kon3::mapped::mapped;
use kon3::shared::LockError;
use kon3::shared::Shared;
use kon3::values::ValueSource;
use kon3::AnchorKey;
use kon3::Element;
use kon3::InvalidateCache;
use std::hash::DefaultHasher;
use std::hash::Hash;
use std::hash::Hasher;

#[derive(Clone, Debug, PartialEq)]
enum Setting {
    Direction(SplitType),
    Title(String),
}

fn direction_of(setting: Setting) -> SplitType {
    match setting {
        Setting::Direction(direction) => direction,
        Setting::Title(_) => SplitType::Adaptive,
    }
}

fn title_of(setting: Setting) -> String {
    match setting {
        Setting::Title(title) => title,
        Setting::Direction(_) => String::new(),
    }
}

const MODE: AnchorKey = AnchorKey(1);
const TITLE: AnchorKey = AnchorKey(2);

#[test]
fn a_mapped_source_gives_what_the_inner_value_is_mapped_to() {
    let cell = Shared::new(20u32);
    let source = mapped(cell.clone(), |value: u32| value + 1);
    assert_eq!(source.value(), Ok(21));
    cell.write().unwrap().set(40);
    assert_eq!(source.value(), Ok(41));
    assert!(source.invalidate_cache(cell.addr()));
    assert!(!source.invalidate_cache(Shared::new(0u32).addr()));
    assert_eq!(source.map.apply(1), 2);
    let _writer = cell.write().unwrap();
    assert_eq!(source.value(), Err(LockError::Busy));
}

#[test]
fn one_tree_shares_values_of_several_kinds() {
    let direction = Shared::new(Setting::Direction(SplitType::Horizontal));
    let title = Shared::new(Setting::Title(String::from("first")));
    let description = Split {
        type_: mapped(anchor(MODE, Setting::Direction(SplitType::Vertical)), direction_of),
        elements: (
            label(mapped(declare(TITLE, title.clone()), title_of)),
            Split {
                type_: mapped(declare(MODE, direction.clone()), direction_of),
                elements: (
                    rect(Color::new_rgba(1, 2, 3, 4)),
                    label(mapped(anchor(TITLE, Setting::Title(String::new())), title_of)),
                ),
                weights: vec![],
            },
        ),
        weights: vec![1, 3],
    };
    let tree = build_tree::<Setting, _>(description);
    assert_eq!(tree.type_.source.addr(), direction.addr());
    assert_eq!((tree.elements.1).type_.source.addr(), direction.addr());
    assert_eq!((tree.elements.0).0.source.addr(), title.addr());
    assert_eq!(((tree.elements.1).elements.1).0.source.addr(), title.addr());
    assert_eq!(tree.type_.value(), Ok(SplitType::Horizontal));
    assert_eq!((tree.elements.0).0.value(), Ok(String::from("first")));

    let place = Location::new(0, 0, 400, 64).unwrap();
    let mut hasher = DefaultHasher::default();
    "first".hash(&mut hasher);
    let columns = hasher.finish() % 16;
    let left = Location::new(0, 0, 100, 64).unwrap();
    let middle = Location::new(100, 0, 150, 64).unwrap();
    let right = Location::new(250, 0, 150, 64).unwrap();
    let mut expected = Vec::new();
    expected.extend(label_strip(columns, left));
    expected.push(middle);
    expected.extend(label_strip(columns, right));
    let mut pass = DrawPass::new();
    assert_eq!(tree.draw(&mut pass, &(), place), Ok(()));
    let places: Vec<Location> = pass.ops().iter().map(|op| op.location).collect();
    assert_eq!(places, expected);

    direction.write().unwrap().set(Setting::Direction(SplitType::Vertical));
    let mut pass = DrawPass::new();
    assert_eq!(tree.draw(&mut pass, &(), place), Ok(()));
    let below = Location::new(0, 16, 400, 48).unwrap();
    assert!(pass.ops().iter().any(|op| op.location == Location::new(0, 16, 400, 24).unwrap()));
    assert!(pass.ops().iter().all(|op| op.location.y() < below.y() + below.height()));
}
