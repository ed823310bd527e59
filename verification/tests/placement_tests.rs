use texture_atlas::placement::{place, PlaceError, MAX_BIN_SIDE};
use texture_atlas::rect::Rect;

#[test]
fn empty_input_packs_into_an_empty_bin() {
    let p = place(&Vec::new()).unwrap();
    assert_eq!((p.bin_w, p.bin_h), (0, 0));
    assert_eq!(p.rects.len(), 0);
}

#[test]
fn single_rect_sits_at_the_origin() {
    let p = place(&vec![(10, 20)]).unwrap();
    assert_eq!((p.bin_w, p.bin_h), (10, 20));
    assert_eq!(p.rects[0], Rect { x: 0, y: 0, w: 10, h: 20 });
}

#[test]
fn a_row_is_filled_left_to_right() {
    let p = place(&vec![(10, 10), (10, 10), (10, 10)]).unwrap();
    // Nothing is wider than 10, so the bin is 10 wide and the three
    // rectangles stack as three rows.
    assert_eq!((p.bin_w, p.bin_h), (10, 30));
    assert_eq!(p.rects[0], Rect { x: 0, y: 0, w: 10, h: 10 });
    assert_eq!(p.rects[1], Rect { x: 0, y: 10, w: 10, h: 10 });
    assert_eq!(p.rects[2], Rect { x: 0, y: 20, w: 10, h: 10 });
}

#[test]
fn small_rects_share_a_row_beside_a_wide_one() {
    let p = place(&vec![(30, 10), (10, 10), (10, 10), (10, 10)]).unwrap();
    assert_eq!((p.bin_w, p.bin_h), (30, 20));
    assert_eq!(p.rects[0], Rect { x: 0, y: 0, w: 30, h: 10 });
    assert_eq!(p.rects[1], Rect { x: 0, y: 10, w: 10, h: 10 });
    assert_eq!(p.rects[2], Rect { x: 10, y: 10, w: 10, h: 10 });
    assert_eq!(p.rects[3], Rect { x: 20, y: 10, w: 10, h: 10 });
}

#[test]
fn placement_is_deterministic() {
    let sizes = vec![(64, 64), (128, 64), (64, 128), (5, 9), (200, 3)];
    let a = place(&sizes).unwrap();
    let b = place(&sizes).unwrap();
    assert_eq!((a.bin_w, a.bin_h), (b.bin_w, b.bin_h));
    assert_eq!(a.rects, b.rects);
}

#[test]
fn maximum_sized_rect_is_accepted() {
    let p = place(&vec![(MAX_BIN_SIDE, MAX_BIN_SIDE)]).unwrap();
    assert_eq!((p.bin_w, p.bin_h), (MAX_BIN_SIDE, MAX_BIN_SIDE));
}

#[test]
fn too_wide_rect_is_refused() {
    assert!(matches!(place(&vec![(MAX_BIN_SIDE + 1, 1)]), Err(PlaceError::DoesNotFit)));
}

#[test]
fn too_tall_rect_is_refused() {
    assert!(matches!(place(&vec![(1, MAX_BIN_SIDE + 1)]), Err(PlaceError::DoesNotFit)));
}

#[test]
fn overflow_of_the_bin_height_is_refused_wholesale() {
    // Two full-height columns cannot stack within the maximum side: the
    // whole placement fails rather than truncating to a partial packing.
    let r = place(&vec![(MAX_BIN_SIDE, MAX_BIN_SIDE), (MAX_BIN_SIDE, 1)]);
    assert!(matches!(r, Err(PlaceError::DoesNotFit)));
}
