//! The placement engine: computes positions that pack a sequence of
//! rectangle sizes into a bin no larger than [`MAX_BIN_SIDE`] on each axis.
//!
//! Placement is a pure, deterministic function of the input sizes: the
//! exec entry point [`place`] returns exactly [`spec_place`] of its input.
//! Packing proceeds shelf by shelf: entries are laid out left to right in
//! rows, a new row starting whenever the next entry would cross the bin's
//! right edge. If any entry cannot be placed within the maximum bin side,
//! the whole placement fails; there is no partial packing.

use vstd::prelude::*;

use crate::rect::{rect_within, rects_disjoint, Rect};

verus! {

/// Upper bound on each side of the atlas bin, in pixels.
pub const MAX_BIN_SIDE: u32 = 4096;

/// Running state of the shelf layout: the rectangles placed so far, the
/// cursor within the current row (`cur_x`), the current row's base line
/// (`cur_y`) and height (`row_h`), and whether placement has failed.
pub ghost struct ShelfState {
    pub rects: Seq<Rect>,
    pub cur_x: int,
    pub cur_y: int,
    pub row_h: int,
    pub failed: bool,
}

/// The layout state before any size has been placed.
pub open spec fn shelf_init() -> ShelfState {
    ShelfState { rects: Seq::empty(), cur_x: 0, cur_y: 0, row_h: 0, failed: false }
}

/// Places one `w` by `h` size into the layout: continue the current row if
/// the size fits before the bin's right edge, otherwise open a new row;
/// fail if the size would cross the maximum bin side, and stay failed once
/// failed.
pub open spec fn shelf_step(st: ShelfState, w: u32, h: u32, bin_w: int) -> ShelfState {
    if st.failed {
        st
    } else {
        let same_row = st.cur_x + w as int <= bin_w;
        let x = if same_row { st.cur_x } else { 0 };
        let y = if same_row { st.cur_y } else { st.cur_y + st.row_h };
        let rh = if same_row { st.row_h } else { 0 };
        if y + h as int > MAX_BIN_SIDE as int {
            ShelfState {
                rects: st.rects,
                cur_x: st.cur_x,
                cur_y: st.cur_y,
                row_h: st.row_h,
                failed: true,
            }
        } else {
            ShelfState {
                rects: st.rects.push(Rect { x: x as u32, y: y as u32, w, h }),
                cur_x: x + w as int,
                cur_y: y,
                row_h: if h as int > rh { h as int } else { rh },
                failed: false,
            }
        }
    }
}

/// The layout state after placing every size of `sizes`, in order.
pub open spec fn shelf_run(sizes: Seq<(u32, u32)>, bin_w: int) -> ShelfState
    decreases sizes.len(),
{
    if sizes.len() == 0 {
        shelf_init()
    } else {
        shelf_step(shelf_run(sizes.drop_last(), bin_w), sizes.last().0, sizes.last().1, bin_w)
    }
}

/// The widest width among `sizes`; `0` when `sizes` is empty.
pub open spec fn max_width(sizes: Seq<(u32, u32)>) -> int
    decreases sizes.len(),
{
    if sizes.len() == 0 {
        0
    } else if sizes.last().0 as int > max_width(sizes.drop_last()) {
        sizes.last().0 as int
    } else {
        max_width(sizes.drop_last())
    }
}

/// What placing `sizes` yields: `None` when some size cannot be placed
/// within [`MAX_BIN_SIDE`], otherwise the bin size `(bin_w, bin_h)` and
/// one rectangle per input size, in input order. The bin is as wide as
/// the widest entry and as tall as the rows the shelf layout used.
pub open spec fn spec_place(sizes: Seq<(u32, u32)>) -> Option<(int, int, Seq<Rect>)> {
    let bw = max_width(sizes);
    let st = shelf_run(sizes, bw);
    if bw > MAX_BIN_SIDE as int || st.failed {
        None
    } else {
        Some((bw, st.cur_y + st.row_h, st.rects))
    }
}

/// The layout invariant: every placed rectangle matches its input size,
/// lies within the bin's width and the rows used so far, sits either in a
/// finished row below the current base line or in the current row left of
/// the cursor, and no two placed rectangles overlap.
pub open spec fn shelf_inv(st: ShelfState, sizes: Seq<(u32, u32)>, bin_w: int) -> bool {
    !st.failed ==> {
        &&& 0 <= st.cur_x <= bin_w
        &&& 0 <= st.cur_y
        &&& 0 <= st.row_h
        &&& st.cur_y + st.row_h <= MAX_BIN_SIDE as int
        &&& st.rects.len() == sizes.len()
        &&& forall|i: int|
            0 <= i < sizes.len() ==> {
                let r = #[trigger] st.rects[i];
                &&& r.w == sizes[i].0
                &&& r.h == sizes[i].1
                &&& r.x as int + r.w as int <= bin_w
                &&& r.y as int + r.h as int <= st.cur_y + st.row_h
                &&& (r.y as int + r.h as int <= st.cur_y || (r.y as int == st.cur_y
                    && r.x as int + r.w as int <= st.cur_x && r.h as int <= st.row_h))
            }
        &&& forall|i: int, j: int|
            0 <= i < j < sizes.len() ==> rects_disjoint(#[trigger] st.rects[i], #[trigger] st.rects[j])
    }
}

/// One step preserves the layout invariant.
proof fn lemma_shelf_step_inv(st: ShelfState, sizes: Seq<(u32, u32)>, w: u32, h: u32, bin_w: int)
    requires
        shelf_inv(st, sizes, bin_w),
        0 < w as int <= bin_w,
        0 < h,
        bin_w <= u32::MAX as int,
    ensures
        shelf_inv(shelf_step(st, w, h, bin_w), sizes.push((w, h)), bin_w),
{
    if !st.failed {
        let st2 = shelf_step(st, w, h, bin_w);
        if !st2.failed {
            let k = sizes.len() as int;
            assert forall|i: int| 0 <= i < sizes.push((w, h)).len() implies {
                let r = #[trigger] st2.rects[i];
                &&& r.w == sizes.push((w, h))[i].0
                &&& r.h == sizes.push((w, h))[i].1
                &&& r.x as int + r.w as int <= bin_w
                &&& r.y as int + r.h as int <= st2.cur_y + st2.row_h
                &&& (r.y as int + r.h as int <= st2.cur_y || (r.y as int == st2.cur_y
                    && r.x as int + r.w as int <= st2.cur_x && r.h as int <= st2.row_h))
            } by {
                if i < k {
                    assert(st2.rects[i] == st.rects[i]);
                    assert(sizes.push((w, h))[i] == sizes[i]);
                }
            }
            assert forall|i: int, j: int| 0 <= i < j < sizes.push((w, h)).len() implies rects_disjoint(
                #[trigger] st2.rects[i],
                #[trigger] st2.rects[j],
            ) by {
                if j < k {
                    assert(st2.rects[i] == st.rects[i]);
                    assert(st2.rects[j] == st.rects[j]);
                } else {
                    assert(st2.rects[i] == st.rects[i]);
                    assert(st2.rects[j] == st2.rects[k]);
                }
            }
        }
    }
}

/// The layout invariant holds of the whole run, provided every size is
/// positive and no wider than the bin.
pub proof fn lemma_shelf_run_inv(sizes: Seq<(u32, u32)>, bin_w: int)
    requires
        0 <= bin_w <= u32::MAX as int,
        forall|i: int|
            0 <= i < sizes.len() ==> 0 < (#[trigger] sizes[i]).0 as int <= bin_w && 0 < sizes[i].1,
    ensures
        shelf_inv(shelf_run(sizes, bin_w), sizes, bin_w),
    decreases sizes.len(),
{
    if sizes.len() > 0 {
        let prefix = sizes.drop_last();
        assert(forall|i: int| 0 <= i < prefix.len() ==> #[trigger] prefix[i] == sizes[i]);
        lemma_shelf_run_inv(prefix, bin_w);
        lemma_shelf_step_inv(shelf_run(prefix, bin_w), prefix, sizes.last().0, sizes.last().1, bin_w);
        assert(prefix.push((sizes.last().0, sizes.last().1)) =~= sizes);
    }
}

/// The run's cursor fields are never negative, whatever the sizes are.
proof fn lemma_shelf_run_nonneg(sizes: Seq<(u32, u32)>, bin_w: int)
    ensures
        0 <= shelf_run(sizes, bin_w).cur_x || shelf_run(sizes, bin_w).failed,
        0 <= shelf_run(sizes, bin_w).cur_y || shelf_run(sizes, bin_w).failed,
        0 <= shelf_run(sizes, bin_w).row_h || shelf_run(sizes, bin_w).failed,
    decreases sizes.len(),
{
    if sizes.len() > 0 {
        lemma_shelf_run_nonneg(sizes.drop_last(), bin_w);
    }
}

/// Extending the input by one size runs one more step.
proof fn lemma_shelf_run_snoc(sizes: Seq<(u32, u32)>, n: int, bin_w: int)
    requires
        0 <= n < sizes.len(),
    ensures
        shelf_run(sizes.take(n + 1), bin_w) == shelf_step(
            shelf_run(sizes.take(n), bin_w),
            sizes[n].0,
            sizes[n].1,
            bin_w,
        ),
{
    assert(sizes.take(n + 1).drop_last() =~= sizes.take(n));
    assert(sizes.take(n + 1).last() == sizes[n]);
}

/// The same for the widest width.
proof fn lemma_max_width_snoc(sizes: Seq<(u32, u32)>, n: int)
    requires
        0 <= n < sizes.len(),
    ensures
        max_width(sizes.take(n + 1)) == if sizes[n].0 as int > max_width(sizes.take(n)) {
            sizes[n].0 as int
        } else {
            max_width(sizes.take(n))
        },
{
    assert(sizes.take(n + 1).drop_last() =~= sizes.take(n));
    assert(sizes.take(n + 1).last() == sizes[n]);
}

/// The widest width bounds every width, and is never negative.
pub proof fn lemma_max_width_bounds(sizes: Seq<(u32, u32)>)
    ensures
        0 <= max_width(sizes),
        forall|i: int| 0 <= i < sizes.len() ==> (#[trigger] sizes[i]).0 as int <= max_width(sizes),
    decreases sizes.len(),
{
    if sizes.len() > 0 {
        lemma_max_width_bounds(sizes.drop_last());
        assert(forall|i: int|
            0 <= i < sizes.len() - 1 ==> #[trigger] sizes[i] == sizes.drop_last()[i]);
    }
}

/// Once a prefix of the input has failed, the whole run has failed.
proof fn lemma_shelf_run_failed_prefix(sizes: Seq<(u32, u32)>, n: int, bin_w: int)
    requires
        0 <= n <= sizes.len(),
        shelf_run(sizes.take(n), bin_w).failed,
    ensures
        shelf_run(sizes, bin_w).failed,
    decreases sizes.len() - n,
{
    if n == sizes.len() {
        assert(sizes.take(n) =~= sizes);
    } else {
        lemma_shelf_run_snoc(sizes, n, bin_w);
        lemma_shelf_run_failed_prefix(sizes, n + 1, bin_w);
    }
}

/// LAW: a size wider or taller than the maximum bin side makes the whole
/// placement fail — there is no truncated or partial packing.
pub proof fn lemma_oversized_fails(sizes: Seq<(u32, u32)>, i: int)
    requires
        0 <= i < sizes.len(),
        sizes[i].0 > MAX_BIN_SIDE || sizes[i].1 > MAX_BIN_SIDE,
    ensures
        spec_place(sizes) is None,
{
    let bw = max_width(sizes);
    lemma_max_width_bounds(sizes);
    if sizes[i].0 > MAX_BIN_SIDE {
        assert(bw > MAX_BIN_SIDE as int);
    } else if bw <= MAX_BIN_SIDE as int {
        let st = shelf_run(sizes.take(i), bw);
        lemma_shelf_run_snoc(sizes, i, bw);
        if !st.failed {
            lemma_shelf_run_nonneg(sizes.take(i), bw);
            assert(shelf_run(sizes.take(i + 1), bw).failed);
        }
        lemma_shelf_run_failed_prefix(sizes, i + 1, bw);
    }
}

/// LAW: a successful placement covers every input size; each rectangle
/// keeps its requested extent and lies fully within the bin, the bin is
/// within the maximum side on both axes, and no two rectangles overlap.
/// A nonempty input yields a bin of positive size.
pub proof fn lemma_place_geometry(sizes: Seq<(u32, u32)>)
    requires
        forall|i: int| 0 <= i < sizes.len() ==> 0 < (#[trigger] sizes[i]).0 && 0 < sizes[i].1,
        spec_place(sizes) is Some,
    ensures
        ({
            let t = spec_place(sizes)->Some_0;
            &&& 0 <= t.0 <= MAX_BIN_SIDE as int
            &&& 0 <= t.1 <= MAX_BIN_SIDE as int
            &&& sizes.len() > 0 ==> 0 < t.0 && 0 < t.1
            &&& t.2.len() == sizes.len()
            &&& forall|i: int|
                0 <= i < sizes.len() ==> (#[trigger] t.2[i]).w == sizes[i].0 && t.2[i].h
                    == sizes[i].1
            &&& forall|i: int| 0 <= i < sizes.len() ==> rect_within(#[trigger] t.2[i], t.0, t.1)
            &&& forall|i: int, j: int|
                0 <= i < sizes.len() && 0 <= j < sizes.len() && i != j ==> rects_disjoint(
                    #[trigger] t.2[i],
                    #[trigger] t.2[j],
                )
        }),
{
    let bw = max_width(sizes);
    let st = shelf_run(sizes, bw);
    lemma_max_width_bounds(sizes);
    lemma_shelf_run_inv(sizes, bw);
    if sizes.len() > 0 {
        assert(st.rects[0].x as int + st.rects[0].w as int <= bw);
        assert(st.rects[0].y as int + st.rects[0].h as int <= st.cur_y + st.row_h);
    }
    assert forall|i: int, j: int|
        0 <= i < sizes.len() && 0 <= j < sizes.len() && i != j implies rects_disjoint(
        #[trigger] st.rects[i],
        #[trigger] st.rects[j],
    ) by {
        if i < j {
            assert(rects_disjoint(st.rects[i], st.rects[j]));
        } else {
            assert(rects_disjoint(st.rects[j], st.rects[i]));
        }
    }
}

/// Why a placement request was refused.
#[derive(Clone, Copy, PartialEq, Eq, Structural, Debug)]
pub enum PlaceError {
    /// Some entry cannot be placed within [`MAX_BIN_SIDE`].
    DoesNotFit,
}

/// A successful placement: the bin size and one rectangle per input size,
/// in input order.
#[derive(Debug)]
pub struct Packing {
    pub bin_w: u32,
    pub bin_h: u32,
    pub rects: Vec<Rect>,
}

/// Packs `sizes` into a bin no larger than [`MAX_BIN_SIDE`] on each axis.
/// The result is exactly [`spec_place`] of the input: placement is a
/// deterministic, pure function of the sizes, it fails precisely when the
/// shelf layout cannot fit every size, and on success the returned
/// rectangles are aligned with the input order.
pub fn place(sizes: &Vec<(u32, u32)>) -> (r: Result<Packing, PlaceError>)
    requires
        forall|i: int| 0 <= i < sizes@.len() ==> 0 < (#[trigger] sizes@[i]).0 && 0 < sizes@[i].1,
    ensures
        match r {
            Ok(p) => spec_place(sizes@) == Some((p.bin_w as int, p.bin_h as int, p.rects@)),
            Err(e) => e == PlaceError::DoesNotFit && spec_place(sizes@) is None,
        },
{
    let n = sizes.len();
    let mut bw: u32 = 0;
    let mut i: usize = 0;
    while i < n
        invariant
            i <= n,
            n == sizes@.len(),
            bw as int == max_width(sizes@.take(i as int)),
        decreases n - i,
    {
        proof {
            lemma_max_width_snoc(sizes@, i as int);
        }
        if sizes[i].0 > bw {
            bw = sizes[i].0;
        }
        i = i + 1;
    }
    proof {
        assert(sizes@.take(n as int) =~= sizes@);
        lemma_max_width_bounds(sizes@);
    }
    if bw > MAX_BIN_SIDE {
        return Err(PlaceError::DoesNotFit);
    }

    let mut rects: Vec<Rect> = Vec::new();
    let mut x: u32 = 0;
    let mut y: u32 = 0;
    let mut rh: u32 = 0;
    i = 0;
    while i < n
        invariant
            i <= n,
            n == sizes@.len(),
            forall|k: int|
                0 <= k < sizes@.len() ==> 0 < (#[trigger] sizes@[k]).0 && 0 < sizes@[k].1,
            bw as int == max_width(sizes@),
            bw <= MAX_BIN_SIDE,
            ({
                let st = shelf_run(sizes@.take(i as int), bw as int);
                &&& !st.failed
                &&& st.rects == rects@
                &&& st.cur_x == x as int
                &&& st.cur_y == y as int
                &&& st.row_h == rh as int
            }),
        decreases n - i,
    {
        proof {
            assert(forall|k: int|
                0 <= k < i as int ==> #[trigger] sizes@.take(i as int)[k] == sizes@[k]);
            lemma_max_width_bounds(sizes@);
            lemma_shelf_run_inv(sizes@.take(i as int), bw as int);
            lemma_shelf_run_snoc(sizes@, i as int, bw as int);
        }
        let (w, h) = sizes[i];
        if x + w > bw {
            y = y + rh;
            x = 0;
            rh = 0;
        }
        if h > MAX_BIN_SIDE || y + h > MAX_BIN_SIDE {
            proof {
                assert(shelf_run(sizes@.take(i as int + 1), bw as int).failed);
                lemma_shelf_run_failed_prefix(sizes@, i as int + 1, bw as int);
            }
            return Err(PlaceError::DoesNotFit);
        }
        rects.push(Rect { x, y, w, h });
        x = x + w;
        if h > rh {
            rh = h;
        }
        i = i + 1;
    }
    proof {
        assert(sizes@.take(n as int) =~= sizes@);
        lemma_shelf_run_inv(sizes@, bw as int);
    }
    let bin_h = y + rh;
    Ok(Packing { bin_w: bw, bin_h, rects })
}

} // verus!
