use keifu::mouse::{
    clamp_menu_pos, is_double_click, list_row_index, point_in, LastClick, Rect, DOUBLE_CLICK_WINDOW,
};

const MILLISECOND: u64 = 1_000_000;

fn rect(x: u16, y: u16, w: u16, h: u16) -> Rect {
    Rect { x, y, width: w, height: h }
}

#[test]
fn point_in_bounds() {
    let r = rect(5, 2, 10, 4); // cols 5..15, rows 2..6
    assert!(point_in(r, 5, 2));
    assert!(point_in(r, 14, 5));
    assert!(!point_in(r, 15, 5), "right edge exclusive");
    assert!(!point_in(r, 14, 6), "bottom edge exclusive");
    assert!(!point_in(r, 4, 3));
}

#[test]
fn list_row_index_maps_with_offset() {
    // Inner area at y=3, height 5 → rows 3,4,5,6,7.
    let inner = rect(1, 3, 20, 5);
    assert_eq!(list_row_index(inner, 0, 2, 3), Some(0));
    assert_eq!(list_row_index(inner, 0, 2, 7), Some(4));
    // With a scroll offset the first visible row is offset+0.
    assert_eq!(list_row_index(inner, 10, 2, 3), Some(10));
    assert_eq!(list_row_index(inner, 10, 2, 5), Some(12));
    // Outside the inner area → None.
    assert_eq!(list_row_index(inner, 0, 2, 8), None);
    assert_eq!(list_row_index(inner, 0, 0, 4), None);
}

#[test]
fn clamp_menu_keeps_it_on_screen() {
    let screen = (80, 24);
    // Fits at the anchor.
    assert_eq!(clamp_menu_pos((10, 5), 20, 8, screen), (10, 5));
    // Near the right edge → shifted left so x+w == sw.
    assert_eq!(clamp_menu_pos((70, 5), 20, 8, screen), (60, 5));
    // Near the bottom → shifted up so y+h == sh.
    assert_eq!(clamp_menu_pos((10, 22), 20, 8, screen), (10, 16));
    // Both edges.
    assert_eq!(clamp_menu_pos((79, 23), 20, 8, screen), (60, 16));
    // Menu larger than screen → clamps to 0.
    assert_eq!(clamp_menu_pos((10, 5), 100, 40, screen), (0, 0));
}

#[test]
fn double_click_same_cell_within_window() {
    let base: u64 = 5_000_000_000;
    let prev = LastClick {
        col: 4,
        row: 6,
        at: base,
    };
    // Same cell, 200ms later → double.
    assert!(is_double_click(
        Some(prev),
        4,
        6,
        base + 200 * MILLISECOND,
        DOUBLE_CLICK_WINDOW
    ));
    // Same cell but too slow → not double.
    assert!(!is_double_click(
        Some(prev),
        4,
        6,
        base + 500 * MILLISECOND,
        DOUBLE_CLICK_WINDOW
    ));
    // Different cell, in time → not double.
    assert!(!is_double_click(
        Some(prev),
        5,
        6,
        base + 100 * MILLISECOND,
        DOUBLE_CLICK_WINDOW
    ));
    // No prior click → not double.
    assert!(!is_double_click(None, 4, 6, base, DOUBLE_CLICK_WINDOW));
}

#[test]
fn clicks_at_the_edges_of_the_window_and_the_clock() {
    let prev = LastClick { col: 0, row: 0, at: 10 };
    assert!(is_double_click(Some(prev), 0, 0, 10 + DOUBLE_CLICK_WINDOW, DOUBLE_CLICK_WINDOW));
    assert!(!is_double_click(Some(prev), 0, 0, 11 + DOUBLE_CLICK_WINDOW, DOUBLE_CLICK_WINDOW));
    assert!(is_double_click(Some(prev), 0, 0, 3, DOUBLE_CLICK_WINDOW), "an earlier time counts as no time");
}

#[test]
fn rectangles_may_reach_the_last_column() {
    let r = rect(65530, 0, 5, 1);
    assert!(point_in(r, 65534, 0));
    assert!(!point_in(r, 65535, 0));
}
