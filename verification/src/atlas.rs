//! The atlas manager: owns the list of image entries and the repack flag,
//! and turns a pack request into a placement plus a plan of draw steps.
//!
//! An entry is *new* while it still owns its submitted pixel surface and
//! *resident* once it has been drawn into an atlas texture; the transition
//! happens exactly once, during a successful [`Atlas::pack`], which hands
//! the surface's ownership out in the returned plan. The caller performs
//! the GPU work the plan describes: allocate a texture of the plan's bin
//! size, draw each step in order, then install the new texture and discard
//! the previous one.

use vstd::prelude::*;

use crate::placement::{
    lemma_oversized_fails, lemma_place_geometry, place, spec_place, PlaceError, MAX_BIN_SIDE,
};
use crate::rect::{rect_within, rects_disjoint, Rect};

verus! {

/// The abstract state of one tracked image.
pub ghost struct EntryModel<S> {
    /// Requested width, immutable after submission.
    pub width: u32,
    /// Requested height, immutable after submission.
    pub height: u32,
    /// The submitted pixel surface; present exactly until the entry is
    /// first drawn into an atlas texture.
    pub source: Option<S>,
    /// Last committed placement in atlas-texture coordinates.
    pub placed: Option<Rect>,
}

/// The abstract state of the atlas.
pub ghost struct AtlasModel<S> {
    /// All tracked images, in submission order; never reordered or removed.
    pub entries: Seq<EntryModel<S>>,
    /// True when a submission has occurred since the last pack attempt.
    pub pending: bool,
    /// Size of the current backing texture, absent before the first
    /// successful pack.
    pub tex: Option<(u32, u32)>,
}

/// The requested sizes of all entries, in entry order: what the placement
/// engine is fed.
pub open spec fn entry_sizes<S>(entries: Seq<EntryModel<S>>) -> Seq<(u32, u32)> {
    entries.map_values(|e: EntryModel<S>| (e.width, e.height))
}

/// Well-formedness of one entry: positive extent; the surface is present
/// exactly while the entry has never been placed; a committed placement
/// matches the requested extent and lies within the current texture.
pub open spec fn entry_wf<S>(m: AtlasModel<S>, i: int) -> bool {
    let e = m.entries[i];
    &&& 0 < e.width
    &&& 0 < e.height
    &&& (e.source is Some <==> e.placed is None)
    &&& (e.placed matches Some(r) ==> {
        &&& r.w == e.width
        &&& r.h == e.height
        &&& m.tex is Some
        &&& rect_within(r, m.tex->Some_0.0 as int, m.tex->Some_0.1 as int)
    })
}

/// Well-formedness of the whole atlas: every entry is well formed, no two
/// committed placements overlap, a pending repack implies something to
/// pack, and the backing texture never exceeds the maximum bin side.
pub open spec fn atlas_wf<S>(m: AtlasModel<S>) -> bool {
    &&& forall|i: int| 0 <= i < m.entries.len() ==> #[trigger] entry_wf(m, i)
    &&& forall|i: int, j: int|
        0 <= i < j < m.entries.len() && (#[trigger] m.entries[i]).placed is Some
            && (#[trigger] m.entries[j]).placed is Some ==> rects_disjoint(
            m.entries[i].placed->Some_0,
            m.entries[j].placed->Some_0,
        )
    &&& (m.pending ==> m.entries.len() > 0)
    &&& (m.tex matches Some(d) ==> 0 < d.0 <= MAX_BIN_SIDE && 0 < d.1 <= MAX_BIN_SIDE)
}

/// What one submission does to the abstract state: append a fresh entry
/// owning its surface, and arm the repack flag.
pub open spec fn submit_model<S>(m: AtlasModel<S>, surface: S, width: u32, height: u32) -> AtlasModel<S> {
    AtlasModel {
        entries: m.entries.push(
            EntryModel { width, height, source: Some(surface), placed: None },
        ),
        pending: true,
        tex: m.tex,
    }
}

/// The abstract state after a whole batch of submissions, applied in
/// order: each element of `subs` is a surface with its requested extent.
pub open spec fn submit_all<S>(m: AtlasModel<S>, subs: Seq<(S, u32, u32)>) -> AtlasModel<S>
    decreases subs.len(),
{
    if subs.len() == 0 {
        m
    } else {
        submit_model(
            submit_all(m, subs.drop_last()),
            subs.last().0,
            subs.last().1,
            subs.last().2,
        )
    }
}

/// LAW: any number of submissions between two packs results in exactly one
/// repack. However many submissions arrive, they merely append fresh
/// entries and arm the single repack flag; the backing texture and the
/// existing entries are untouched. The next pack therefore places all of
/// them together, and — by [`Atlas::pack`]'s contract, which clears the
/// flag — a further pack with no new submissions in between is a no-op.
pub proof fn lemma_single_pending_flag<S>(m: AtlasModel<S>, subs: Seq<(S, u32, u32)>)
    requires
        subs.len() > 0,
    ensures
        submit_all(m, subs).pending,
        submit_all(m, subs).tex == m.tex,
        submit_all(m, subs).entries.len() == m.entries.len() + subs.len(),
        forall|i: int|
            0 <= i < m.entries.len() ==> submit_all(m, subs).entries[i] == #[trigger] m.entries[i],
        forall|i: int|
            0 <= i < subs.len() ==> submit_all(m, subs).entries[m.entries.len() + i] == (EntryModel {
                width: (#[trigger] subs[i]).1,
                height: subs[i].2,
                source: Some(subs[i].0),
                placed: None,
            }),
    decreases subs.len(),
{
    if subs.len() == 1 {
        assert(submit_all(m, subs.drop_last()) == m);
    } else {
        lemma_single_pending_flag(m, subs.drop_last());
        assert(forall|i: int|
            0 <= i < subs.len() - 1 ==> #[trigger] subs[i] == subs.drop_last()[i]);
    }
}

/// One step of the redraw protocol, to be executed against the new
/// backing texture as the active render target.
pub enum DrawStep<S> {
    /// Draw a freshly submitted surface into `dst` on the new texture;
    /// the surface's ownership travels with the step and ends after the
    /// draw.
    FromSurface { surface: S, dst: Rect },
    /// Copy the sub-image at `src` of the *previous* backing texture into
    /// `dst` on the new one.
    FromAtlas { src: Rect, dst: Rect },
}

/// Everything the caller needs to rebuild the backing texture: the size
/// of the texture to allocate, and one draw step per entry, in entry
/// order.
pub struct PackPlan<S> {
    pub bin_w: u32,
    pub bin_h: u32,
    pub steps: Vec<DrawStep<S>>,
}

/// Why a pack attempt failed. Placement failure is fatal to the attempt:
/// the repack flag stays cleared and no partial packing is exposed.
#[derive(Clone, Copy, PartialEq, Eq, Structural, Debug)]
pub enum PackError {
    /// Some entry cannot be placed within [`MAX_BIN_SIDE`].
    PlacementFailed,
}

/// The relation a successful repack establishes between the state before
/// (`m0`), the state after (`m1`), and the emitted plan: the bin is
/// exactly what the placement engine computed for `m0`'s sizes, every
/// entry is resident afterwards at its newly placed rectangle, each new
/// entry's surface moved into its draw step, and each already resident
/// entry is redrawn from its *old* placement on the previous texture.
pub open spec fn pack_repacked<S>(
    m0: AtlasModel<S>,
    m1: AtlasModel<S>,
    bin_w: u32,
    bin_h: u32,
    steps: Seq<DrawStep<S>>,
) -> bool {
    let t = spec_place(entry_sizes(m0.entries))->Some_0;
    &&& spec_place(entry_sizes(m0.entries)) is Some
    &&& bin_w as int == t.0
    &&& bin_h as int == t.1
    &&& m1.tex == Some((bin_w, bin_h))
    &&& !m1.pending
    &&& m1.entries.len() == m0.entries.len()
    &&& forall|i: int|
        0 <= i < m0.entries.len() ==> {
            let e0 = m0.entries[i];
            let e1 = #[trigger] m1.entries[i];
            &&& e1.width == e0.width
            &&& e1.height == e0.height
            &&& e1.source is None
            &&& e1.placed == Some(t.2[i])
        }
    &&& steps.len() == m0.entries.len()
    &&& forall|i: int|
        0 <= i < m0.entries.len() ==> #[trigger] steps[i] == (match m0.entries[i].source {
            Option::Some(s) => (DrawStep::FromSurface { surface: s, dst: t.2[i] }),
            Option::None => (DrawStep::FromAtlas {
                src: m0.entries[i].placed->Some_0,
                dst: t.2[i],
            }),
        })
}

/// LAW: packing never alters content, only position. For every entry
/// resident before a successful repack, the emitted step copies exactly
/// the entry's old rectangle on the previous texture onto its new
/// rectangle on the new texture, with the extent unchanged — so the
/// sub-image visible at the new placement is the one that was visible at
/// the old placement before the repack.
pub proof fn lemma_content_preservation<S>(
    m0: AtlasModel<S>,
    m1: AtlasModel<S>,
    bin_w: u32,
    bin_h: u32,
    steps: Seq<DrawStep<S>>,
    i: int,
)
    requires
        atlas_wf(m0),
        pack_repacked(m0, m1, bin_w, bin_h, steps),
        0 <= i < m0.entries.len(),
        m0.entries[i].placed is Some,
    ensures
        steps[i] == (DrawStep::<S>::FromAtlas {
            src: m0.entries[i].placed->Some_0,
            dst: m1.entries[i].placed->Some_0,
        }),
        m0.entries[i].placed->Some_0.w == m1.entries[i].placed->Some_0.w,
        m0.entries[i].placed->Some_0.h == m1.entries[i].placed->Some_0.h,
{
    assert(entry_wf(m0, i));
    let sizes = entry_sizes(m0.entries);
    assert forall|k: int| 0 <= k < sizes.len() implies 0 < (#[trigger] sizes[k]).0 && 0
        < sizes[k].1 by {
        assert(entry_wf(m0, k));
    }
    lemma_place_geometry(sizes);
}

/// One tracked image as stored.
struct Slot<S> {
    width: u32,
    height: u32,
    source: Option<S>,
    placed: Option<Rect>,
}

/// The atlas manager. `S` is the caller's pixel-surface type; the atlas
/// only stores and hands back such values, it never inspects them.
pub struct Atlas<S> {
    /// One slot per submitted image, in submission order.
    data: Vec<Slot<S>>,
    /// If `false`, [`Atlas::pack`] is a no-op.
    pack_queued: bool,
    /// Size of the current backing texture, if one exists.
    texture: Option<(u32, u32)>,
}

impl<S> View for Atlas<S> {
    type V = AtlasModel<S>;

    closed spec fn view(&self) -> AtlasModel<S> {
        AtlasModel {
            entries: self.data@.map_values(
                |s: Slot<S>| EntryModel {
                    width: s.width,
                    height: s.height,
                    source: s.source,
                    placed: s.placed,
                },
            ),
            pending: self.pack_queued,
            tex: self.texture,
        }
    }
}

impl<S> Atlas<S> {
    /// The atlas invariant; established by [`Atlas::new`] and preserved by
    /// every operation.
    pub open spec fn wf(&self) -> bool {
        atlas_wf(self@)
    }

    /// An empty atlas: no entries, no backing texture, no pack queued.
    pub fn new() -> (a: Atlas<S>)
        ensures
            a.wf(),
            a@.entries.len() == 0,
            !a@.pending,
            a@.tex is None,
    {
        Atlas { data: Vec::new(), pack_queued: false, texture: None }
    }

    /// Registers a new image: creates a fresh entry owning `surface` and
    /// arms the repack flag. No placement happens here. The returned
    /// handle is the entry's index, stable across repacks since entries
    /// are never reordered or removed.
    pub fn submit(&mut self, surface: S, width: u32, height: u32) -> (handle: usize)
        requires
            old(self).wf(),
            0 < width,
            0 < height,
            old(self)@.entries.len() < usize::MAX,
        ensures
            final(self).wf(),
            handle == old(self)@.entries.len(),
            final(self)@ == submit_model(old(self)@, surface, width, height),
    {
        let handle = self.data.len();
        self.data.push(Slot { width, height, source: Some(surface), placed: None });
        self.pack_queued = true;
        proof {
            assert(self@.entries =~= submit_model(old(self)@, surface, width, height).entries);
            assert forall|i: int| 0 <= i < self@.entries.len() implies #[trigger] entry_wf(
                self@,
                i,
            ) by {
                if i < old(self)@.entries.len() {
                    assert(entry_wf(old(self)@, i));
                }
            }
        }
        handle
    }

    /// The core operation. If no repack is pending it does nothing and
    /// reports `Ok(None)`. Otherwise it clears the flag, asks the
    /// placement engine to place every entry, and on success commits the
    /// new placements, records the new texture size, and returns the plan
    /// of draw steps for the caller to execute — new entries drawn from
    /// their surrendered surface, resident entries copied from their old
    /// rectangle on the previous texture. On placement failure the flag
    /// stays cleared and entries and texture are left untouched.
    #[verifier::loop_isolation(false)]
    pub fn pack(&mut self) -> (r: Result<Option<PackPlan<S>>, PackError>)
        requires
            old(self).wf(),
        ensures
            final(self).wf(),
            !final(self)@.pending,
            !old(self)@.pending ==> final(self)@ == old(self)@ && (r matches Ok(o) && o is None),
            old(self)@.pending && spec_place(entry_sizes(old(self)@.entries)) is None ==> (
            r matches Err(e) && e == PackError::PlacementFailed) && final(self)@.entries == old(
                self,
            )@.entries && final(self)@.tex == old(self)@.tex,
            old(self)@.pending && spec_place(entry_sizes(old(self)@.entries)) is Some ==> (
            r matches Ok(o) && o matches Some(plan) && pack_repacked(
                old(self)@,
                final(self)@,
                plan.bin_w,
                plan.bin_h,
                plan.steps@,
            )),
            old(self)@.pending && (exists|i: int|
                0 <= i < old(self)@.entries.len() && ((#[trigger] old(self)@.entries[i]).width
                    > MAX_BIN_SIDE || old(self)@.entries[i].height > MAX_BIN_SIDE)) ==> (
            r matches Err(e) && e == PackError::PlacementFailed),
    {
        if !self.pack_queued {
            return Ok(None);
        }
        self.pack_queued = false;

        // The requested extent of every entry, new and resident alike.
        let n = self.data.len();
        let mut sizes: Vec<(u32, u32)> = Vec::new();
        let mut i: usize = 0;
        while i < n
            invariant
                i <= n,
                sizes@.len() == i as int,
                forall|k: int|
                    0 <= k < i as int ==> #[trigger] sizes@[k] == (
                        self.data@[k].width,
                        self.data@[k].height,
                    ),
            decreases n - i,
        {
            sizes.push((self.data[i].width, self.data[i].height));
            i = i + 1;
        }
        proof {
            assert(sizes@ =~= entry_sizes(old(self)@.entries));
            assert forall|k: int| 0 <= k < sizes@.len() implies 0 < (#[trigger] sizes@[k]).0
                && 0 < sizes@[k].1 by {
                assert(entry_wf(old(self)@, k));
            }
            if exists|k: int|
                0 <= k < old(self)@.entries.len() && ((#[trigger] old(self)@.entries[k]).width
                    > MAX_BIN_SIDE || old(self)@.entries[k].height > MAX_BIN_SIDE) {
                let k = choose|k: int|
                    0 <= k < old(self)@.entries.len() && ((#[trigger] old(
                        self,
                    )@.entries[k]).width > MAX_BIN_SIDE || old(self)@.entries[k].height
                        > MAX_BIN_SIDE);
                lemma_oversized_fails(sizes@, k);
            }
        }

        let packing = match place(&sizes) {
            Ok(p) => p,
            Err(PlaceError::DoesNotFit) => {
                proof {
                    assert(self@.entries == old(self)@.entries);
                    assert forall|k: int| 0 <= k < self@.entries.len() implies #[trigger] entry_wf(
                        self@,
                        k,
                    ) by {
                        assert(entry_wf(old(self)@, k));
                    }
                }
                return Err(PackError::PlacementFailed);
            },
        };
        proof {
            lemma_place_geometry(sizes@);
        }

        // Rebuild every slot at its new placement, handing each surrendered
        // surface out in the plan.
        let ghost t = spec_place(sizes@)->Some_0;
        let mut work: Vec<Slot<S>> = Vec::new();
        core::mem::swap(&mut self.data, &mut work);
        proof {
            assert(work@ =~= old(self).data@.skip(0));
        }
        let mut steps: Vec<DrawStep<S>> = Vec::new();
        let mut i: usize = 0;
        while i < n
            invariant
                i <= n,
                work@ == old(self).data@.skip(i as int),
                self.pack_queued == false,
                self.texture == old(self).texture,
                self.data@.len() == i as int,
                steps@.len() == i as int,
                forall|k: int|
                    0 <= k < i as int ==> {
                        let s0 = old(self).data@[k];
                        let s1 = #[trigger] self.data@[k];
                        &&& s1.width == s0.width
                        &&& s1.height == s0.height
                        &&& s1.source is None
                        &&& s1.placed == Some(t.2[k])
                    },
                forall|k: int|
                    0 <= k < i as int ==> #[trigger] steps@[k] == (match old(
                        self,
                    ).data@[k].source {
                        Option::Some(s) => (DrawStep::FromSurface { surface: s, dst: t.2[k] }),
                        Option::None => (DrawStep::FromAtlas {
                            src: old(self).data@[k].placed->Some_0,
                            dst: t.2[k],
                        }),
                    }),
            decreases n - i,
        {
            proof {
                assert(work@[0] == old(self).data@[i as int]);
                assert(entry_wf(old(self)@, i as int));
            }
            let slot = work.remove(0);
            let dst = packing.rects[i];
            proof {
                assert(dst == t.2[i as int]);
            }
            match slot.source {
                Some(surface) => {
                    steps.push(DrawStep::FromSurface { surface, dst });
                },
                None => {
                    match slot.placed {
                        Some(src) => {
                            steps.push(DrawStep::FromAtlas { src, dst });
                        },
                        None => {
                            // A slot without a surface is resident and so
                            // has a committed placement (entry_wf).
                            proof {
                                assert(false);
                            }
                        },
                    }
                },
            }
            self.data.push(
                Slot { width: slot.width, height: slot.height, source: None, placed: Some(dst) },
            );
            proof {
                assert(work@ =~= old(self).data@.skip(i as int + 1));
            }
            i = i + 1;
        }
        self.texture = Some((packing.bin_w, packing.bin_h));

        proof {
            assert(self@.entries.len() == old(self)@.entries.len());
            assert forall|k: int| 0 <= k < self@.entries.len() implies #[trigger] entry_wf(
                self@,
                k,
            ) by {
                assert(entry_wf(old(self)@, k));
                assert(self@.entries[k].placed == Some(t.2[k]));
            }
            assert forall|i2: int, j2: int|
                0 <= i2 < j2 < self@.entries.len() && (#[trigger] self@.entries[i2]).placed
                    is Some && (#[trigger] self@.entries[j2]).placed is Some implies
                rects_disjoint(
                self@.entries[i2].placed->Some_0,
                self@.entries[j2].placed->Some_0,
            ) by {
                assert(self@.entries[i2].placed == Some(t.2[i2]));
                assert(self@.entries[j2].placed == Some(t.2[j2]));
            }
        }
        Ok(Some(PackPlan { bin_w: packing.bin_w, bin_h: packing.bin_h, steps }))
    }
}

} // verus!
