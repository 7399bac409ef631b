//! Bookkeeping for the dual blur pyramid: a list of texture slots whose sizes
//! halve step by step, reused across frames, together with the pass schedule
//! of a blur render.
//!
//! The GPU work itself happens outside; this module decides which slots exist,
//! when they are recreated, and in which order the passes run.

use vstd::prelude::*;

verus! {

/// Number of blur passes clamped to the supported range.
pub open spec fn clamp_passes(p: u8) -> int {
    if p < 1 {
        1
    } else if p > 31 {
        31
    } else {
        p as int
    }
}

/// One dimension of the next pyramid level: halved, but at least one pixel.
pub open spec fn half_dim(d: int) -> int {
    if d / 2 >= 1 {
        d / 2
    } else {
        1
    }
}

/// One texture slot of the pyramid: its size in pixels and the identity of
/// the texture backing it. Identities let a caller recognize which slots
/// survived a re-preparation and which must be allocated anew.
#[derive(Clone, Copy, PartialEq, Eq, Structural, Debug)]
pub struct PyramidEntry {
    pub w: i32,
    pub h: i32,
    pub id: u64,
}

/// The error of a blur render whose preconditions do not hold: these signal
/// caller bugs and abort only the one render.
#[derive(Clone, Copy, PartialEq, Eq, Structural, Debug)]
pub enum BlurError {
    /// The frame belongs to another renderer than the pyramid.
    WrongRenderer,
    /// The pyramid was prepared for another pass count.
    WrongTexturesLen,
    /// The output slot does not match the source size.
    WrongOutputSize,
    /// The output slot is still referenced by an earlier consumer.
    OutputNotUnique,
}

/// The texture a blur pass reads from.
#[derive(Clone, Copy, PartialEq, Eq, Structural, Debug)]
pub enum PassSource {
    /// The source texture handed to the render, outside the pyramid.
    Source,
    /// The pyramid slot with this index.
    Entry(usize),
}

/// One blur pass: where it reads, which slot it writes, and the size whose
/// reciprocal gives the shader's half-pixel offset (the destination size on
/// the way down, the source size on the way up).
#[derive(Clone, Copy, PartialEq, Eq, Structural, Debug)]
pub struct BlurPass {
    pub down: bool,
    pub src: PassSource,
    pub dst: usize,
    pub half_pixel_w: i32,
    pub half_pixel_h: i32,
}

/// The blur pyramid of one element: its texture slots and a counter for
/// fresh slot identities. The renderer context that owns the textures is
/// remembered so a render against another context can be refused.
pub struct BlurPyramid {
    context_id: u64,
    entries: Vec<PyramidEntry>,
    next_id: u64,
}

/// How many leading slots a preparation keeps: all still-wanted slots when
/// slot 0 matches the source size and the output is exclusively owned, none
/// otherwise.
pub open spec fn prepare_kept(
    pre: BlurPyramid,
    source_w: i32,
    source_h: i32,
    passes: u8,
    output_unique: bool,
) -> int {
    if pre.spec_entries().len() > 0 && pre.spec_entries()[0].w == source_w
        && pre.spec_entries()[0].h == source_h && output_unique {
        if pre.spec_entries().len() <= clamp_passes(passes) + 1 {
            pre.spec_entries().len() as int
        } else {
            clamp_passes(passes) + 1
        }
    } else {
        0
    }
}

/// What a preparation does: exactly `clamp_passes(passes) + 1` slots, slot 0
/// sized to the source, sizes halving with a floor of one pixel, the kept
/// prefix unchanged, and every other slot fresh.
pub open spec fn prepare_post(
    pre: BlurPyramid,
    post: BlurPyramid,
    source_w: i32,
    source_h: i32,
    passes: u8,
    output_unique: bool,
) -> bool {
    let kept = prepare_kept(pre, source_w, source_h, passes, output_unique);
    &&& post.spec_entries().len() == clamp_passes(passes) + 1
    &&& post.spec_entries()[0].w == source_w
    &&& post.spec_entries()[0].h == source_h
    &&& forall|i: int|
        0 <= i < post.spec_entries().len() - 1 ==> (#[trigger] post.spec_entries()[i + 1]).w
            == half_dim(post.spec_entries()[i].w as int) && post.spec_entries()[i + 1].h
            == half_dim(post.spec_entries()[i].h as int)
    &&& forall|i: int|
        0 <= i < kept ==> #[trigger] post.spec_entries()[i] == pre.spec_entries()[i]
    &&& forall|i: int|
        kept <= i < post.spec_entries().len() ==> (#[trigger] post.spec_entries()[i]).id
            >= pre.spec_next_id()
    &&& post.spec_next_id() == pre.spec_next_id() + (clamp_passes(passes) + 1 - kept)
}

/// Law: preparing a pyramid again with unchanged source size and pass count
/// is a no-op — the slots and the identity counter stand exactly as the
/// first preparation left them.
pub proof fn lemma_prepare_repeat_noop(
    p0: BlurPyramid,
    p1: BlurPyramid,
    p2: BlurPyramid,
    source_w: i32,
    source_h: i32,
    passes: u8,
)
    requires
        prepare_post(p0, p1, source_w, source_h, passes, true),
        prepare_post(p1, p2, source_w, source_h, passes, true),
    ensures
        p2.spec_entries() == p1.spec_entries(),
        p2.spec_next_id() == p1.spec_next_id(),
{
    assert(prepare_kept(p1, source_w, source_h, passes, true) == clamp_passes(passes) + 1);
    assert forall|i: int| 0 <= i < p2.spec_entries().len() implies #[trigger] p2.spec_entries()[i]
        == p1.spec_entries()[i] by {}
    assert(p2.spec_entries() =~= p1.spec_entries());
}

impl BlurPyramid {
    /// Sizes are positive, each level is the half of the one before, and all
    /// slot identities were handed out by this pyramid.
    pub closed spec fn wf(&self) -> bool {
        &&& forall|i: int|
            0 <= i < self.entries@.len() ==> (#[trigger] self.entries@[i]).w >= 1
                && self.entries@[i].h >= 1
        &&& forall|i: int|
            0 <= i < self.entries@.len() - 1 ==> (#[trigger] self.entries@[i + 1]).w == half_dim(
                self.entries@[i].w as int,
            ) && self.entries@[i + 1].h == half_dim(self.entries@[i].h as int)
        &&& forall|i: int|
            0 <= i < self.entries@.len() ==> (#[trigger] self.entries@[i]).id < self.next_id
    }

    /// The renderer context this pyramid was created for.
    pub closed spec fn spec_context_id(&self) -> u64 {
        self.context_id
    }

    /// The current texture slots.
    pub closed spec fn spec_entries(&self) -> Seq<PyramidEntry> {
        self.entries@
    }

    /// The next slot identity this pyramid would hand out. Identities at or
    /// above this value are fresh: no current slot carries one.
    pub closed spec fn spec_next_id(&self) -> u64 {
        self.next_id
    }

    /// A new, empty pyramid for the given renderer context.
    pub fn new(context_id: u64) -> (r: BlurPyramid)
        ensures
            r.wf(),
            r.spec_context_id() == context_id,
            r.spec_entries().len() == 0,
            r.spec_next_id() == 0,
    {
        BlurPyramid { context_id, entries: Vec::new(), next_id: 0 }
    }

    /// The renderer context this pyramid was created for.
    pub fn context_id(&self) -> (r: u64)
        ensures
            r == self.spec_context_id(),
    {
        self.context_id
    }

    /// The next slot identity this pyramid would hand out.
    pub fn next_id(&self) -> (r: u64)
        ensures
            r == self.spec_next_id(),
    {
        self.next_id
    }

    /// How many texture slots the pyramid currently holds.
    pub fn len(&self) -> (r: usize)
        ensures
            r == self.spec_entries().len(),
    {
        self.entries.len()
    }

    /// The texture slot with the given index.
    pub fn entry(&self, i: usize) -> (r: PyramidEntry)
        requires
            i < self.spec_entries().len(),
        ensures
            r == self.spec_entries()[i as int],
    {
        self.entries[i]
    }

    /// Ensures the pyramid holds exactly `clamp_passes(passes) + 1` slots,
    /// slot 0 sized to the source and each further slot half the one before.
    /// The existing slots are reused in place when slot 0 already matches the
    /// source size and the output texture is exclusively owned; otherwise all
    /// slots are recreated. Newly created slots carry fresh identities, so a
    /// caller can tell which textures to allocate.
    pub fn prepare(&mut self, source_w: i32, source_h: i32, passes: u8, output_unique: bool)
        requires
            old(self).wf(),
            source_w >= 1,
            source_h >= 1,
            old(self).spec_next_id() + 32 <= u64::MAX,
        ensures
            final(self).wf(),
            final(self).spec_context_id() == old(self).spec_context_id(),
            prepare_post(*old(self), *final(self), source_w, source_h, passes, output_unique),
    {
        let passes = clamped_passes(passes) as usize;
        let want = passes + 1;

        // Reuse the slots only when slot 0 still matches the source size and
        // the output texture is not shared; otherwise recreate everything.
        if self.entries.len() > 0 {
            let e0 = self.entries[0];
            if e0.w != source_w || e0.h != source_h || !output_unique {
                self.entries.clear();
            }
        }
        let ghost base = self.entries@;

        // Create the missing slots, each half the size of the one before.
        while self.entries.len() < want
            invariant
                1 <= want <= 32,
                source_w >= 1,
                source_h >= 1,
                self.context_id == old(self).context_id,
                base.len() <= self.entries@.len() || base.len() > want,
                base.len() > want ==> self.entries@ == base,
                forall|i: int| 0 <= i < base.len() ==> #[trigger] self.entries@[i] == base[i],
                forall|i: int|
                    base.len() <= i < self.entries@.len() ==> (#[trigger] self.entries@[i]).id
                        >= old(self).next_id,
                self.next_id == old(self).next_id + (self.entries@.len() - base.len()),
                old(self).next_id + 32 <= u64::MAX,
                self.entries@.len() <= want || self.entries@ == base,
                forall|i: int|
                    0 <= i < self.entries@.len() ==> (#[trigger] self.entries@[i]).w >= 1
                        && self.entries@[i].h >= 1,
                forall|i: int|
                    0 <= i < self.entries@.len() - 1 ==> (#[trigger] self.entries@[i + 1]).w
                        == half_dim(self.entries@[i].w as int) && self.entries@[i + 1].h
                        == half_dim(self.entries@[i].h as int),
                forall|i: int|
                    0 <= i < self.entries@.len() ==> (#[trigger] self.entries@[i]).id
                        < self.next_id,
                self.entries@.len() > 0 ==> self.entries@[0].w == source_w && self.entries@[0].h
                    == source_h,
            decreases want - self.entries@.len(),
        {
            let n = self.entries.len();
            let w: i32;
            let h: i32;
            if n == 0 {
                w = source_w;
                h = source_h;
            } else {
                let last = self.entries[n - 1];
                w = if last.w / 2 >= 1 {
                    last.w / 2
                } else {
                    1
                };
                h = if last.h / 2 >= 1 {
                    last.h / 2
                } else {
                    1
                };
            }
            let id = self.next_id;
            self.next_id = self.next_id + 1;
            self.entries.push(PyramidEntry { w, h, id });
        }

        // Drop the slots beyond the wanted pass count.
        self.entries.truncate(want);
    }

    /// The pass schedule of one blur render, or the contract violation that
    /// forbids it. The schedule holds `passes` downsampling steps from the
    /// source through ever smaller slots, then `passes` upsampling steps back
    /// into slot 0, which holds the result. Downsampling offsets follow the
    /// destination resolution, upsampling offsets the source resolution.
    pub fn render_schedule(
        &self,
        frame_context_id: u64,
        source_w: i32,
        source_h: i32,
        passes: u8,
        output_unique: bool,
    ) -> (r: Result<Vec<BlurPass>, BlurError>)
        requires
            self.wf(),
        ensures
            r is Ok <==> frame_context_id == self.spec_context_id() && self.spec_entries().len()
                == clamp_passes(passes) + 1 && self.spec_entries()[0].w == source_w
                && self.spec_entries()[0].h == source_h && output_unique,
            match r {
                Ok(sched) => {
                    &&& sched@.len() == 2 * clamp_passes(passes)
                    &&& forall|i: int|
                        0 <= i < clamp_passes(passes) ==> #[trigger] sched@[i] == (BlurPass {
                            down: true,
                            src: if i == 0 {
                                PassSource::Source
                            } else {
                                PassSource::Entry(i as usize)
                            },
                            dst: (i + 1) as usize,
                            half_pixel_w: self.spec_entries()[i + 1].w,
                            half_pixel_h: self.spec_entries()[i + 1].h,
                        })
                    &&& forall|i: int|
                        clamp_passes(passes) <= i < 2 * clamp_passes(passes)
                            ==> #[trigger] sched@[i] == (BlurPass {
                            down: false,
                            src: PassSource::Entry((2 * clamp_passes(passes) - i) as usize),
                            dst: (2 * clamp_passes(passes) - i - 1) as usize,
                            half_pixel_w: self.spec_entries()[2 * clamp_passes(passes) - i].w,
                            half_pixel_h: self.spec_entries()[2 * clamp_passes(passes) - i].h,
                        })
                },
                Err(e) => {
                    &&& (e is WrongRenderer <==> frame_context_id != self.spec_context_id())
                    &&& (e is WrongTexturesLen <==> frame_context_id == self.spec_context_id()
                        && self.spec_entries().len() != clamp_passes(passes) + 1)
                    &&& (e is WrongOutputSize <==> frame_context_id == self.spec_context_id()
                        && self.spec_entries().len() == clamp_passes(passes) + 1 && !(
                    self.spec_entries()[0].w == source_w && self.spec_entries()[0].h == source_h))
                    &&& (e is OutputNotUnique <==> frame_context_id == self.spec_context_id()
                        && self.spec_entries().len() == clamp_passes(passes) + 1
                        && self.spec_entries()[0].w == source_w && self.spec_entries()[0].h
                        == source_h && !output_unique)
                },
            },
    {
        let p = clamped_passes(passes) as usize;
        if frame_context_id != self.context_id {
            return Err(BlurError::WrongRenderer);
        }
        if self.entries.len() != p + 1 {
            return Err(BlurError::WrongTexturesLen);
        }
        let e0 = self.entries[0];
        if e0.w != source_w || e0.h != source_h {
            return Err(BlurError::WrongOutputSize);
        }
        if !output_unique {
            return Err(BlurError::OutputNotUnique);
        }

        let mut sched: Vec<BlurPass> = Vec::new();
        let mut i: usize = 0;
        while i < p
            invariant
                1 <= p <= 31,
                self.entries@.len() == p + 1,
                0 <= i <= p,
                sched@.len() == i,
                forall|k: int|
                    0 <= k < i ==> #[trigger] sched@[k] == (BlurPass {
                        down: true,
                        src: if k == 0 {
                            PassSource::Source
                        } else {
                            PassSource::Entry(k as usize)
                        },
                        dst: (k + 1) as usize,
                        half_pixel_w: self.spec_entries()[k + 1].w,
                        half_pixel_h: self.spec_entries()[k + 1].h,
                    }),
            decreases p - i,
        {
            let dst = self.entries[i + 1];
            let src = if i == 0 {
                PassSource::Source
            } else {
                PassSource::Entry(i)
            };
            sched.push(
                BlurPass { down: true, src, dst: i + 1, half_pixel_w: dst.w, half_pixel_h: dst.h },
            );
            i += 1;
        }
        let mut j: usize = 0;
        while j < p
            invariant
                1 <= p <= 31,
                self.entries@.len() == p + 1,
                0 <= j <= p,
                sched@.len() == p + j,
                forall|k: int|
                    0 <= k < p ==> #[trigger] sched@[k] == (BlurPass {
                        down: true,
                        src: if k == 0 {
                            PassSource::Source
                        } else {
                            PassSource::Entry(k as usize)
                        },
                        dst: (k + 1) as usize,
                        half_pixel_w: self.spec_entries()[k + 1].w,
                        half_pixel_h: self.spec_entries()[k + 1].h,
                    }),
                forall|k: int|
                    p <= k < p + j ==> #[trigger] sched@[k] == (BlurPass {
                        down: false,
                        src: PassSource::Entry((2 * p - k) as usize),
                        dst: (2 * p - k - 1) as usize,
                        half_pixel_w: self.spec_entries()[2 * p - k].w,
                        half_pixel_h: self.spec_entries()[2 * p - k].h,
                    }),
            decreases p - j,
        {
            let srci = p - j;
            let s = self.entries[srci];
            sched.push(
                BlurPass {
                    down: false,
                    src: PassSource::Entry(srci),
                    dst: srci - 1,
                    half_pixel_w: s.w,
                    half_pixel_h: s.h,
                },
            );
            j += 1;
        }
        Ok(sched)
    }
}

/// The pass count clamped to the supported range.
pub fn clamped_passes(p: u8) -> (r: u8)
    ensures
        r as int == clamp_passes(p),
        1 <= r <= 31,
{
    if p < 1 {
        1
    } else if p > 31 {
        31
    } else {
        p
    }
}

} // verus!
