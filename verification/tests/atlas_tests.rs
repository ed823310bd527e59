use texture_atlas::atlas::{Atlas, DrawStep, PackError, PackPlan};
use texture_atlas::rect::Rect;

fn disjoint(a: &Rect, b: &Rect) -> bool {
    a.x + a.w <= b.x || b.x + b.w <= a.x || a.y + a.h <= b.y || b.y + b.h <= a.y
}

fn within(r: &Rect, bin_w: u32, bin_h: u32) -> bool {
    r.x + r.w <= bin_w && r.y + r.h <= bin_h
}

fn dst_of(step: &DrawStep<String>) -> Rect {
    match step {
        DrawStep::FromSurface { dst, .. } => *dst,
        DrawStep::FromAtlas { dst, .. } => *dst,
    }
}

#[test]
fn pack_without_submission_is_a_no_op() {
    let mut atlas: Atlas<String> = Atlas::new();
    let r = atlas.pack();
    assert!(matches!(r, Ok(None)));
}

#[test]
fn pack_after_successful_pack_is_a_no_op() {
    let mut atlas: Atlas<String> = Atlas::new();
    atlas.submit(String::from("pixels"), 32, 32);
    let first = atlas.pack();
    assert!(matches!(first, Ok(Some(_))));
    let second = atlas.pack();
    assert!(matches!(second, Ok(None)));
}

#[test]
fn many_submissions_cause_exactly_one_repack() {
    let mut atlas: Atlas<String> = Atlas::new();
    atlas.submit(String::from("a"), 16, 16);
    atlas.submit(String::from("b"), 32, 16);
    atlas.submit(String::from("c"), 16, 32);
    let plan: PackPlan<String> = atlas.pack().unwrap().unwrap();
    assert_eq!(plan.steps.len(), 3);
    assert!(matches!(atlas.pack(), Ok(None)));
}

#[test]
fn handles_are_stable_indices() {
    let mut atlas: Atlas<String> = Atlas::new();
    assert_eq!(atlas.submit(String::from("a"), 8, 8), 0);
    assert_eq!(atlas.submit(String::from("b"), 8, 8), 1);
    atlas.pack().unwrap().unwrap();
    assert_eq!(atlas.submit(String::from("c"), 8, 8), 2);
}

#[test]
fn new_entry_surface_moves_into_the_plan_once() {
    let mut atlas: Atlas<String> = Atlas::new();
    atlas.submit(String::from("alpha"), 64, 64);
    let plan = atlas.pack().unwrap().unwrap();
    assert_eq!(plan.steps.len(), 1);
    let first_dst = match &plan.steps[0] {
        DrawStep::FromSurface { surface, dst } => {
            assert_eq!(surface, "alpha");
            *dst
        },
        DrawStep::FromAtlas { .. } => panic!("a new entry must be drawn from its surface"),
    };

    atlas.submit(String::from("beta"), 64, 64);
    let plan = atlas.pack().unwrap().unwrap();
    assert_eq!(plan.steps.len(), 2);
    match &plan.steps[0] {
        DrawStep::FromAtlas { src, dst } => {
            // A resident entry is redrawn from its previous placement on
            // the old texture, never from a cached surface, and the copy
            // preserves the sub-image's extent.
            assert_eq!(*src, first_dst);
            assert_eq!(src.w, dst.w);
            assert_eq!(src.h, dst.h);
        },
        DrawStep::FromSurface { .. } => panic!("a resident entry must be copied from the atlas"),
    }
    match &plan.steps[1] {
        DrawStep::FromSurface { surface, .. } => assert_eq!(surface, "beta"),
        DrawStep::FromAtlas { .. } => panic!("a new entry must be drawn from its surface"),
    }
}

#[test]
fn placements_are_contained_and_disjoint() {
    let mut atlas: Atlas<String> = Atlas::new();
    let sizes = [(40u32, 30u32), (100, 20), (7, 90), (64, 64), (30, 30), (90, 10)];
    for (i, (w, h)) in sizes.iter().enumerate() {
        atlas.submit(format!("img{}", i), *w, *h);
    }
    let plan = atlas.pack().unwrap().unwrap();
    assert!(plan.bin_w <= 4096 && plan.bin_h <= 4096);
    let rects: Vec<Rect> = plan.steps.iter().map(dst_of).collect();
    for (i, r) in rects.iter().enumerate() {
        assert_eq!((r.w, r.h), sizes[i]);
        assert!(within(r, plan.bin_w, plan.bin_h));
    }
    for i in 0..rects.len() {
        for j in 0..rects.len() {
            if i != j {
                assert!(disjoint(&rects[i], &rects[j]));
            }
        }
    }
}

#[test]
fn oversized_width_fails_the_pack() {
    let mut atlas: Atlas<String> = Atlas::new();
    atlas.submit(String::from("wide"), 4097, 10);
    assert!(matches!(atlas.pack(), Err(PackError::PlacementFailed)));
}

#[test]
fn oversized_height_fails_the_pack() {
    let mut atlas: Atlas<String> = Atlas::new();
    atlas.submit(String::from("tall"), 10, 4097);
    assert!(matches!(atlas.pack(), Err(PackError::PlacementFailed)));
}

#[test]
fn failed_pack_clears_the_flag_without_rearming() {
    let mut atlas: Atlas<String> = Atlas::new();
    atlas.submit(String::from("tall"), 10, 5000);
    assert!(matches!(atlas.pack(), Err(PackError::PlacementFailed)));
    // The flag was cleared at the start of the attempt and is not
    // re-armed on failure; another attempt needs a new submission.
    assert!(matches!(atlas.pack(), Ok(None)));
}

#[test]
fn scenario_three_images() {
    let mut atlas: Atlas<String> = Atlas::new();
    atlas.submit(String::from("a"), 64, 64);
    atlas.submit(String::from("b"), 128, 64);
    atlas.submit(String::from("c"), 64, 128);
    let plan = atlas.pack().unwrap().unwrap();
    assert!(plan.bin_w <= 4096 && plan.bin_h <= 4096);
    let rects: Vec<Rect> = plan.steps.iter().map(dst_of).collect();
    assert_eq!(rects.len(), 3);
    assert_eq!((rects[0].w, rects[0].h), (64, 64));
    assert_eq!((rects[1].w, rects[1].h), (128, 64));
    assert_eq!((rects[2].w, rects[2].h), (64, 128));
    for r in &rects {
        assert!(within(r, plan.bin_w, plan.bin_h));
    }
    for i in 0..3 {
        for j in 0..3 {
            if i != j {
                assert!(disjoint(&rects[i], &rects[j]));
            }
        }
    }
    // The shelf layout is deterministic for a fixed input order.
    assert_eq!((plan.bin_w, plan.bin_h), (128, 256));
    assert_eq!(rects[0], Rect { x: 0, y: 0, w: 64, h: 64 });
    assert_eq!(rects[1], Rect { x: 0, y: 64, w: 128, h: 64 });
    assert_eq!(rects[2], Rect { x: 0, y: 128, w: 64, h: 128 });
}
