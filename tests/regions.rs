use hypr_island::{
    calculate_absolute_rect, make_box_label, PixelRect, Point, RegionTree, UnitRect, UNIT,
};

const HALF: u64 = UNIT / 2;

fn labels(t: &RegionTree) -> Vec<String> {
    t.regions().into_iter().map(|r| r.label).collect()
}

#[test]
fn initial_tree_has_one_selected_full_region() {
    let t = RegionTree::initial();
    let rs = t.regions();
    assert_eq!(rs.len(), 1);
    assert_eq!(rs[0].relative_rect, UnitRect::full());
    assert!(rs[0].is_selected);
    assert_eq!(rs[0].label, "Initial Box");
}

#[test]
fn wide_container_splits_left_and_right() {
    let mut t = RegionTree::initial();
    t.split(1280, 800);
    assert_eq!(t.rect(0), UnitRect { min_x: 0, min_y: 0, max_x: HALF, max_y: UNIT });
    assert_eq!(t.rect(1), UnitRect { min_x: HALF, min_y: 0, max_x: UNIT, max_y: UNIT });
}

#[test]
fn tall_container_splits_top_and_bottom() {
    let mut t = RegionTree::initial();
    t.split(800, 1280);
    assert_eq!(t.rect(0), UnitRect { min_x: 0, min_y: 0, max_x: UNIT, max_y: HALF });
    assert_eq!(t.rect(1), UnitRect { min_x: 0, min_y: HALF, max_x: UNIT, max_y: UNIT });
}

#[test]
fn square_region_splits_top_and_bottom() {
    let mut t = RegionTree::initial();
    t.split(900, 900);
    assert_eq!(t.rect(0).max_y, HALF);
    assert_eq!(t.rect(0).max_x, UNIT);
}

#[test]
fn orientation_follows_the_current_container() {
    let mut t = RegionTree::initial();
    t.split(1280, 800);
    // The left half is 640 x 800 on this screen: taller than wide.
    t.split(1280, 800);
    assert_eq!(t.rect(0), UnitRect { min_x: 0, min_y: 0, max_x: HALF, max_y: HALF });
    // On a screen four times as wide the same kind of half is wider than high.
    let mut u = RegionTree::initial();
    u.split(1280, 800);
    u.split(5120, 800);
    assert_eq!(u.rect(0), UnitRect { min_x: 0, min_y: 0, max_x: HALF / 2, max_y: UNIT });
}

#[test]
fn split_halves_tile_the_region() {
    let r = UnitRect { min_x: 3, min_y: 10, max_x: 8, max_y: 20 };
    let (a, b) = r.split_halves(1000, 1);
    assert_eq!(a, UnitRect { min_x: 3, min_y: 10, max_x: 5, max_y: 20 });
    assert_eq!(b, UnitRect { min_x: 5, min_y: 10, max_x: 8, max_y: 20 });
    let area = |q: UnitRect| (q.max_x - q.min_x) * (q.max_y - q.min_y);
    assert_eq!(area(a) + area(b), area(r));
    let (c, d) = r.split_halves(1, 1000);
    assert_eq!(c, UnitRect { min_x: 3, min_y: 10, max_x: 8, max_y: 15 });
    assert_eq!(d, UnitRect { min_x: 3, min_y: 15, max_x: 8, max_y: 20 });
}

#[test]
fn labels_follow_positions() {
    let mut t = RegionTree::initial();
    t.split(1280, 800);
    assert_eq!(labels(&t), vec!["Box 1", "Box 2"]);
    assert_eq!(t.selected_index(), 0);
    t.split(1280, 800);
    assert_eq!(labels(&t), vec!["Box 1", "Box 2", "Box 3"]);
    // Select the second region, then split it.
    let rects = vec![
        PixelRect { min_x: 0, min_y: 0, max_x: 10, max_y: 10 },
        PixelRect { min_x: 20, min_y: 0, max_x: 30, max_y: 10 },
        PixelRect { min_x: 40, min_y: 0, max_x: 50, max_y: 10 },
    ];
    t.select_at(Point { x: 25, y: 5 }, &rects);
    assert_eq!(t.selected_index(), 1);
    t.split(1280, 800);
    assert_eq!(labels(&t), vec!["Box 1", "Box 2", "Box 3", "Box 4"]);
    assert_eq!(t.selected_index(), 1);
}

#[test]
fn exactly_one_region_selected_after_operations() {
    let mut t = RegionTree::initial();
    for _ in 0..5 {
        t.split(1280, 800);
    }
    let rects: Vec<PixelRect> = (0..t.len() as i64)
        .map(|i| PixelRect { min_x: i * 10, min_y: 0, max_x: i * 10 + 5, max_y: 5 })
        .collect();
    t.select_at(Point { x: 32, y: 2 }, &rects);
    let rs = t.regions();
    assert_eq!(rs.iter().filter(|r| r.is_selected).count(), 1);
    assert!(rs[3].is_selected);
}

#[test]
fn overlapping_hit_selects_the_later_region() {
    let mut t = RegionTree::initial();
    t.split(1280, 800);
    let rects = vec![
        PixelRect { min_x: 0, min_y: 0, max_x: 100, max_y: 100 },
        PixelRect { min_x: 50, min_y: 50, max_x: 150, max_y: 150 },
    ];
    t.select_at(Point { x: 75, y: 75 }, &rects);
    assert_eq!(t.selected_index(), 1);
    let rs = t.regions();
    assert!(!rs[0].is_selected);
    assert!(rs[1].is_selected);
}

#[test]
fn miss_keeps_selection() {
    let mut t = RegionTree::initial();
    t.split(1280, 800);
    let rects = vec![
        PixelRect { min_x: 0, min_y: 0, max_x: 10, max_y: 10 },
        PixelRect { min_x: 20, min_y: 0, max_x: 30, max_y: 10 },
    ];
    t.select_at(Point { x: 15, y: 5 }, &rects);
    assert_eq!(t.selected_index(), 0);
    // Edges are inside.
    t.select_at(Point { x: 30, y: 10 }, &rects);
    assert_eq!(t.selected_index(), 1);
}

#[test]
fn inverted_rect_contains_nothing() {
    let r = PixelRect { min_x: 10, min_y: 10, max_x: 15, max_y: 15 }.shrink(10);
    assert_eq!(r, PixelRect { min_x: 20, min_y: 20, max_x: 5, max_y: 5 });
    assert!(!r.contains(Point { x: 12, y: 12 }));
}

#[test]
fn absolute_rect_scales_and_offsets() {
    let rel = UnitRect { min_x: HALF, min_y: 0, max_x: UNIT, max_y: HALF };
    let container = PixelRect { min_x: 100, min_y: 50, max_x: 1380, max_y: 850 };
    let abs = calculate_absolute_rect(rel, container);
    assert_eq!(abs, PixelRect { min_x: 740, min_y: 50, max_x: 1380, max_y: 450 });
}

#[test]
fn box_labels_in_decimal() {
    assert_eq!(make_box_label(0), "Box 0");
    assert_eq!(make_box_label(7), "Box 7");
    assert_eq!(make_box_label(10), "Box 10");
    assert_eq!(make_box_label(1203), "Box 1203");
}
