use ftml::depth::{process_depths, DepthItem};

#[test]
fn relative_order_only() {
    // Only the relative order of depths matters: a jump from 0 to 4
    // opens exactly one level, as a jump from 0 to 1 does.
    let wide = vec![(0usize, 'a'), (2, 'b'), (4, 'c'), (0, 'd')];
    let tight = vec![(0usize, 'a'), (1, 'b'), (2, 'c'), (0, 'd')];
    let f1 = process_depths(wide);
    let f2 = process_depths(tight);
    assert_eq!(f1, f2);
    let expected = vec![
        DepthItem::Item('a'),
        DepthItem::List(vec![
            DepthItem::Item('b'),
            DepthItem::List(vec![DepthItem::Item('c')]),
        ]),
        DepthItem::Item('d'),
    ];
    assert_eq!(f1, expected);
}

#[test]
fn empty_input_gives_empty_forest() {
    let entries: Vec<(usize, u32)> = Vec::new();
    let forest = process_depths(entries);
    assert!(forest.is_empty());
}

#[test]
fn flat_entries_stay_siblings() {
    let entries = vec![(3usize, 10u32), (3, 20), (3, 30)];
    let forest = process_depths(entries);
    let expected = vec![
        DepthItem::Item(10u32),
        DepthItem::Item(20),
        DepthItem::Item(30),
    ];
    assert_eq!(forest, expected);
}

#[test]
fn leading_deep_entry_is_a_root() {
    // An entry deeper than everything before it (here: the first) has
    // no parent; later shallower entries are its siblings.
    let entries = vec![(2usize, 'x'), (0, 'y')];
    let forest = process_depths(entries);
    let expected = vec![DepthItem::Item('x'), DepthItem::Item('y')];
    assert_eq!(forest, expected);
}

#[test]
fn dedent_attaches_to_nearest_shallower() {
    let entries = vec![(0usize, 'a'), (2, 'b'), (1, 'c')];
    let forest = process_depths(entries);
    let expected = vec![
        DepthItem::Item('a'),
        DepthItem::List(vec![DepthItem::Item('b'), DepthItem::Item('c')]),
    ];
    assert_eq!(forest, expected);
}
