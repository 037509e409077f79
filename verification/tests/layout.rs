use gh_actui::layout::{
    bar_areas, bounding_rect, equalize_layout, find_area, find_nearest_view, find_view_at,
    frame_areas, is_shown_with, layout_areas, layout_contains, nearest_resize_target, rect_center, resize_layout_split,
    resize_ratio, split_child_areas, split_layout_leaf, FocusDirection, Rect, Resized,
    SplitDirection, ViewLayout,
};

fn pane(index: usize) -> Box<ViewLayout> {
    Box::new(ViewLayout::Pane { index })
}

fn split(
    direction: SplitDirection,
    ratio: u16,
    first: Box<ViewLayout>,
    second: Box<ViewLayout>,
) -> ViewLayout {
    ViewLayout::Split {
        direction,
        ratio,
        first,
        second,
    }
}

/// Two views side by side, the second of them over a third one.
fn nested() -> ViewLayout {
    split(
        SplitDirection::Vertical,
        250,
        pane(0),
        Box::new(split(SplitDirection::Horizontal, 500, pane(1), pane(2))),
    )
}

#[test]
fn rectangles_know_their_edges() {
    let area = Rect::new(3, 4, 10, 5);
    assert_eq!((area.right(), area.bottom()), (13, 9));
    assert!(area.contains(3, 4));
    assert!(area.contains(12, 8));
    assert!(!area.contains(13, 8));
    assert!(!area.contains(12, 9));
    assert!(!area.contains(2, 4));
    assert_eq!(rect_center(area), (8, 6));
    let edge = Rect::new(65530, 65530, 10, 10);
    assert_eq!((edge.right(), edge.bottom()), (65535, 65535));
    assert_eq!((edge.width, edge.height), (5, 5));
    assert_eq!(rect_center(edge), (65532, 65532));
}

#[test]
fn splits_share_their_area() {
    let (first, second) =
        split_child_areas(SplitDirection::Vertical, 250, Rect::new(2, 3, 100, 20));
    assert_eq!(first, Rect::new(2, 3, 25, 20));
    assert_eq!(second, Rect::new(27, 3, 75, 20));
    let (first, second) =
        split_child_areas(SplitDirection::Horizontal, 500, Rect::new(0, 0, 80, 20));
    assert_eq!(first, Rect::new(0, 0, 80, 10));
    assert_eq!(second, Rect::new(0, 10, 80, 10));
}

#[test]
fn layouts_place_their_views_in_order() {
    assert_eq!(
        layout_areas(&nested(), Rect::new(0, 1, 100, 20)),
        [
            (0, Rect::new(0, 1, 25, 20)),
            (1, Rect::new(25, 1, 75, 10)),
            (2, Rect::new(25, 11, 75, 10)),
        ]
    );
    assert!(layout_contains(&nested(), 2));
    assert!(!layout_contains(&nested(), 3));
    assert!(is_shown_with(&nested(), 3));
    assert!(!is_shown_with(&nested(), 2));
}

#[test]
fn splitting_replaces_one_view_by_two() {
    let mut layout = nested();
    assert!(split_layout_leaf(
        &mut layout,
        1,
        3,
        SplitDirection::Vertical
    ));
    let views: Vec<_> = layout_areas(&layout, Rect::new(0, 0, 100, 100))
        .into_iter()
        .map(|(view, _)| view)
        .collect();
    assert_eq!(views, [0, 1, 3, 2]);
    let before = layout.clone();
    assert!(!split_layout_leaf(
        &mut layout,
        9,
        4,
        SplitDirection::Vertical
    ));
    assert_eq!(layout, before);
}

#[test]
fn equalizing_counts_views_and_keeps_the_arrangement() {
    let mut layout = nested();
    assert_eq!(equalize_layout(&mut layout), 3);
    assert_eq!(
        layout,
        split(
            SplitDirection::Vertical,
            333,
            pane(0),
            Box::new(split(SplitDirection::Horizontal, 500, pane(1), pane(2))),
        )
    );
}

#[test]
fn resizing_finds_the_nearest_split() {
    let area = Rect::new(0, 0, 100, 20);
    let outer = nearest_resize_target(&nested(), area, 2, SplitDirection::Vertical).unwrap();
    assert!(outer.path.is_empty());
    assert_eq!(outer.area, area);
    assert!(!outer.active_in_first);
    let inner = nearest_resize_target(&nested(), area, 2, SplitDirection::Horizontal).unwrap();
    assert_eq!(inner.path, [true]);
    assert_eq!(inner.area, Rect::new(25, 0, 75, 20));
    assert!(!inner.active_in_first);
    assert!(nearest_resize_target(&nested(), area, 0, SplitDirection::Horizontal).is_none());
    assert!(nearest_resize_target(&nested(), area, 7, SplitDirection::Vertical).is_none());
}

#[test]
fn resizing_keeps_both_parts_at_a_minimum() {
    let area = Rect::new(0, 0, 100, 20);
    let mut layout = nested();
    assert!(matches!(
        resize_layout_split(&mut layout, &vec![true], area, false, 3, 5),
        Resized::Done
    ));
    let ViewLayout::Split { second, .. } = &layout else {
        panic!("expected a split");
    };
    assert!(matches!(**second, ViewLayout::Split { ratio: 350, .. }));
    assert!(matches!(
        resize_layout_split(&mut layout, &vec![], area, true, -1000, 20),
        Resized::Done
    ));
    assert!(matches!(layout, ViewLayout::Split { ratio: 200, .. }));
    let small = Rect::new(0, 0, 39, 20);
    assert!(matches!(
        resize_layout_split(&mut layout, &vec![], small, true, 1, 20),
        Resized::TooSmall
    ));
    assert!(matches!(
        resize_layout_split(&mut layout, &vec![false], area, true, 1, 20),
        Resized::Invalid
    ));
    assert_eq!(resize_ratio(100, 25, 10, 20), 350);
    assert_eq!(resize_ratio(3, 1, 0, 1), 333);
    assert_eq!(resize_ratio(60_000, 1, -5, 1), 1);
}

#[test]
fn focus_moves_to_the_nearest_view() {
    let area = Rect::new(0, 0, 100, 20);
    let areas = layout_areas(&nested(), area);
    assert_eq!(bounding_rect(&areas), Some(area));
    assert_eq!(bounding_rect(&Vec::new()), None);
    assert_eq!(find_area(&areas, 1), Some(Rect::new(25, 0, 75, 10)));
    assert_eq!(find_area(&areas, 5), None);
    assert_eq!(find_view_at(&areas, 30, 15), Some(2));
    assert_eq!(find_view_at(&areas, 100, 15), None);
    let from = |view: usize, direction: FocusDirection| {
        find_nearest_view(&areas, view, find_area(&areas, view).unwrap(), direction)
    };
    assert_eq!(from(0, FocusDirection::Right), Some(1));
    assert_eq!(from(1, FocusDirection::Down), Some(0));
    assert_eq!(from(2, FocusDirection::Up), Some(0));
    assert_eq!(from(2, FocusDirection::Left), Some(0));
    assert_eq!(from(0, FocusDirection::Left), None);
    assert_eq!(from(1, FocusDirection::Right), None);
}

#[test]
fn parts_of_a_split_are_rounded_to_the_nearest_cell() {
    let lengths: [u16; 12] = [0, 1, 2, 3, 7, 80, 99, 133, 210, 981, 3333, 60000];
    for length in lengths {
        let mut ratio: u16 = 0;
        while ratio <= 1000 {
            let area = Rect {
                x: 5,
                y: 2,
                width: length,
                height: 9,
            };
            let (first, second) = split_child_areas(SplitDirection::Vertical, ratio, area);
            let share = i64::from(ratio) * i64::from(length);
            let off = 100 * (1000 * i64::from(first.width) - share);
            assert!(-51_000 <= off && off <= 51_000, "{ratio} of {length}");
            let rest = (1000 - i64::from(ratio)) * i64::from(length);
            let off = 100 * (1000 * i64::from(second.width) - rest);
            assert!(-51_000 <= off && off <= 51_000, "{ratio} of {length}");
            assert_eq!((first.x, first.y, first.height), (5, 2, 9));
            assert_eq!((second.x + second.width, second.y, second.height), (5 + length, 2, 9));
            if share % 1000 < 490 || share % 1000 > 510 {
                assert_eq!(first.x + first.width, second.x, "{ratio} of {length}");
            }
            ratio += 37;
        }
        let area = Rect::new(0, 4, 3, 49);
        let (first, second) = split_child_areas(SplitDirection::Horizontal, 1000, area);
        assert_eq!((first.y, first.height, second.height), (4, 49, 0));
    }
}

#[test]
fn resizing_moves_the_border_by_cells() {
    let area = Rect::new(0, 0, 200, 40);
    let mut layout = split(SplitDirection::Vertical, 500, pane(0), pane(1));
    let mut expected: u16 = 100;
    for delta in [1, 3, -2, 50, -7, 1000, -1, -1000] {
        assert!(matches!(
            resize_layout_split(&mut layout, &vec![], area, true, delta, 20),
            Resized::Done
        ));
        expected = (i32::from(expected) + delta).clamp(20, 180) as u16;
        let areas = layout_areas(&layout, area);
        assert_eq!(areas[0].1.width, expected);
        assert_eq!((areas[1].1.x, areas[1].1.width), (expected, 200 - expected));
    }
}

#[test]
fn a_screen_has_its_tabs_above_and_its_status_bar_below() {
    for rows in 0..40u16 {
        let area = Rect::new(3, 2, 50, rows);
        let (tabs, body, bar) = frame_areas(area);
        for part in [tabs, body, bar] {
            assert_eq!((part.x, part.width), (3, 50));
        }
        assert_eq!(tabs.y, 2);
        assert_eq!(body.y, tabs.y + tabs.height);
        assert_eq!(bar.y, body.y + body.height);
        assert_eq!(bar.y + bar.height, 2 + rows);
        if rows >= 5 {
            assert_eq!((tabs.height, body.height, bar.height), (1, rows - 2, 1));
        } else {
            assert_eq!(body.height, rows.min(3));
        }
    }
}

#[test]
fn a_status_bar_has_its_ends_left_and_right() {
    for width in [0u16, 1, 2, 22, 80, 300] {
        for wanted in [0u16, 1, 5, 22, 79, 80, 500] {
            let (left, right) = bar_areas(Rect::new(4, 9, width, 1), wanted);
            let cells = wanted.min(width);
            assert_eq!(left, Rect::new(4, 9, width - cells, 1));
            assert_eq!(right, Rect::new(4 + width - cells, 9, cells, 1));
        }
    }
    let beyond = Rect {
        x: 65_500,
        y: 0,
        width: 100,
        height: 1,
    };
    let (left, right) = bar_areas(beyond, 10);
    assert_eq!((left.x, left.width), (65_500, 25));
    assert_eq!((right.x, right.width), (65_525, 10));
}

#[test]
fn any_change_of_size_is_brought_within_bounds() {
    let area = Rect::new(0, 0, 100, 40);
    for (delta, in_first, ratio) in [
        (i32::MAX, true, 999),
        (i32::MIN, true, 1),
        (i32::MIN, false, 999),
        (i32::MAX, false, 1),
        (0, true, 500),
    ] {
        let mut layout = split(SplitDirection::Vertical, 500, pane(0), pane(1));
        assert!(matches!(
            resize_layout_split(&mut layout, &vec![], area, in_first, delta, 0),
            Resized::Done
        ));
        assert!(matches!(layout, ViewLayout::Split { ratio: found, .. } if found == ratio));
    }
}
