use kon3::elements::SplitType;
use kon3::layout::split_axis;
use kon3::layout::split_locations;
use kon3::layout::total_weight;
use kon3::location::Axis;
use kon3::location::Location;

fn at(x: u32, y: u32, width: u32, height: u32) -> Location {
    Location::new(x, y, width, height).unwrap()
}

#[test]
fn horizontal_split_of_two_equal_children() {
    let parts = split_locations(SplitType::Horizontal, &vec![1, 1], at(0, 0, 200, 100));
    assert_eq!(parts, vec![at(0, 0, 100, 100), at(100, 0, 100, 100)]);
}

#[test]
fn vertical_split_of_weights_one_and_three() {
    let parts = split_locations(SplitType::Vertical, &vec![1, 3], at(0, 0, 100, 400));
    assert_eq!(parts, vec![at(0, 0, 100, 100), at(0, 100, 100, 300)]);
}

#[test]
fn lengths_along_the_axis_add_up_to_the_parent() {
    let weights = vec![3, 5, 7, 11];
    let parent = at(13, 17, 1000, 333);
    let across = split_locations(SplitType::Horizontal, &weights, parent);
    assert_eq!(across.iter().map(|part| part.width()).sum::<u32>(), 1000);
    let down = split_locations(SplitType::Vertical, &weights, parent);
    assert_eq!(down.iter().map(|part| part.height()).sum::<u32>(), 333);
}

#[test]
fn boundaries_are_the_fractions_rounded_down() {
    let parts = split_locations(SplitType::Horizontal, &vec![3, 5, 7, 11], at(13, 17, 1000, 333));
    // cuts at 1000 * 3 / 26, 1000 * 8 / 26, 1000 * 15 / 26: 115, 307, 576
    assert_eq!(
        parts,
        vec![
            at(13, 17, 115, 333),
            at(128, 17, 192, 333),
            at(320, 17, 269, 333),
            at(589, 17, 424, 333),
        ]
    );
}

#[test]
fn parts_touch_without_gap_or_overlap() {
    let parent = at(5, 9, 97, 31);
    let parts = split_locations(SplitType::Vertical, &vec![2, 1, 1, 4, 9], parent);
    assert_eq!(parts[0].y(), 9);
    for pair in parts.windows(2) {
        assert_eq!(pair[0].y() + pair[0].height(), pair[1].y());
    }
    assert_eq!(parts[4].y() + parts[4].height(), 9 + 31);
    for part in &parts {
        assert_eq!(part.x(), 5);
        assert_eq!(part.width(), 97);
    }
}

#[test]
fn a_part_is_within_one_unit_of_its_exact_share() {
    let weights: Vec<u32> = vec![1, 1, 1];
    let parts = split_locations(SplitType::Horizontal, &weights, at(0, 0, 100, 10));
    assert_eq!(parts, vec![at(0, 0, 33, 10), at(33, 0, 33, 10), at(66, 0, 34, 10)]);
}

#[test]
fn a_child_without_weight_gets_an_empty_part() {
    let parts = split_locations(SplitType::Horizontal, &vec![1, 0, 1], at(0, 0, 10, 4));
    assert_eq!(parts, vec![at(0, 0, 5, 4), at(5, 0, 0, 4), at(5, 0, 5, 4)]);
}

#[test]
fn without_any_weight_every_part_is_empty_at_the_origin() {
    let parts = split_locations(SplitType::Vertical, &vec![0, 0], at(3, 4, 50, 60));
    assert_eq!(parts, vec![at(3, 4, 50, 0), at(3, 4, 50, 0)]);
    let none = split_locations(SplitType::Vertical, &vec![], at(3, 4, 50, 60));
    assert!(none.is_empty());
}

#[test]
fn a_single_child_gets_the_whole_region() {
    let parts = split_locations(SplitType::Horizontal, &vec![7], at(1, 2, 3, 4));
    assert_eq!(parts, vec![at(1, 2, 3, 4)]);
}

#[test]
fn adaptive_cuts_along_the_longer_side() {
    assert_eq!(split_axis(SplitType::Adaptive, at(0, 0, 200, 100)), Axis::Horizontal);
    assert_eq!(split_axis(SplitType::Adaptive, at(0, 0, 100, 200)), Axis::Vertical);
    assert_eq!(split_axis(SplitType::Adaptive, at(0, 0, 100, 100)), Axis::Horizontal);
    assert_eq!(split_axis(SplitType::Horizontal, at(0, 0, 1, 9)), Axis::Horizontal);
    assert_eq!(split_axis(SplitType::Vertical, at(0, 0, 9, 1)), Axis::Vertical);
    let tall = split_locations(SplitType::Adaptive, &vec![1, 1], at(0, 0, 100, 200));
    assert_eq!(tall, vec![at(0, 0, 100, 100), at(0, 100, 100, 100)]);
}

#[test]
fn large_weights_and_regions_do_not_overflow() {
    let max = u32::MAX;
    let parts = split_locations(SplitType::Horizontal, &vec![max, max, max, max], at(0, 0, max, 1));
    assert_eq!(parts.len(), 4);
    assert_eq!(parts[0].width(), max / 4);
    assert_eq!(parts[3].x() as u64 + parts[3].width() as u64, max as u64);
    assert_eq!(total_weight(&vec![max, max, max, max]), 4 * (max as u128));
}

#[test]
fn a_location_must_end_on_the_grid() {
    assert!(Location::new(u32::MAX, 0, 0, 0).is_some());
    assert!(Location::new(u32::MAX, 0, 1, 0).is_none());
    assert!(Location::new(0, 1, 0, u32::MAX).is_none());
    assert!(Location::new(0, 0, u32::MAX, u32::MAX).is_some());
    let location = at(1, 2, 3, 4);
    assert_eq!((location.x(), location.y(), location.width(), location.height()), (1, 2, 3, 4));
}
