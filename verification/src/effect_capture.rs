//! The per-element offscreen capture state: uninitialized until the first
//! render, then ready with its textures, which are recreated only when the
//! element's size changes.

use vstd::prelude::*;

verus! {

/// What the intermediate texture currently holds.
#[derive(Clone, Copy, PartialEq, Eq, Structural, Debug)]
pub enum Intermediate {
    /// No capture happened yet this frame, or the last one was discarded.
    Missing,
    /// The raw capture, used directly or as the blur fallback.
    Raw,
    /// The blurred capture.
    Blurred,
}

/// The capture texture: its size and identity, so a caller knows when to
/// allocate a new one.
#[derive(Clone, Copy, PartialEq, Eq, Structural, Debug)]
pub struct CaptureTex {
    pub w: i32,
    pub h: i32,
    pub id: u64,
}

/// The capture state of one effect element. The blur pyramid itself lives
/// beside this state; only its availability is tracked here.
pub struct ElementCapture {
    framebuffer: Option<CaptureTex>,
    next_id: u64,
    intermediate: Intermediate,
    has_blur: bool,
}

impl ElementCapture {
    /// The current capture texture, if one exists.
    pub closed spec fn spec_framebuffer(&self) -> Option<CaptureTex> {
        self.framebuffer
    }

    /// Identities at or above this value are fresh.
    pub closed spec fn spec_next_id(&self) -> u64 {
        self.next_id
    }

    /// What the intermediate texture holds.
    pub closed spec fn spec_intermediate(&self) -> Intermediate {
        self.intermediate
    }

    /// Whether the blur engine exists (its shader compiled).
    pub closed spec fn spec_has_blur(&self) -> bool {
        self.has_blur
    }

    /// The capture texture's identity is below the counter.
    pub closed spec fn wf(&self) -> bool {
        self.framebuffer matches Some(fb) ==> fb.id < self.next_id
    }

    /// A fresh, uninitialized element state. `has_blur` says whether the
    /// blur engine exists (its shader compiled) on the renderer context.
    pub fn new(has_blur: bool) -> (r: ElementCapture)
        ensures
            r.wf(),
            r.spec_framebuffer() is None,
            r.spec_intermediate() == Intermediate::Missing,
            r.spec_has_blur() == has_blur,
            r.spec_next_id() == 0,
    {
        ElementCapture { framebuffer: None, next_id: 0, intermediate: Intermediate::Missing, has_blur }
    }

    /// An element that requests blur cannot render without the blur shader;
    /// it declines instead of rendering unblurred.
    pub fn accepts_render(&self, blur_requested: bool) -> (r: bool)
        ensures
            r == (!blur_requested || self.spec_has_blur()),
    {
        !blur_requested || self.has_blur
    }

    /// Begins a capture sized from the element's geometry and scale: the
    /// intermediate is discarded, and the capture texture is kept exactly
    /// when its size already matches, recreated under a fresh identity
    /// otherwise.
    pub fn begin_capture(&mut self, w: i32, h: i32) -> (tex: CaptureTex)
        requires
            old(self).wf(),
            w >= 1,
            h >= 1,
            old(self).spec_next_id() < u64::MAX,
        ensures
            final(self).wf(),
            final(self).spec_intermediate() == Intermediate::Missing,
            final(self).spec_framebuffer() == Some(tex),
            tex.w == w && tex.h == h,
            (old(self).spec_framebuffer() matches Some(fb) && fb.w == w && fb.h == h) ==> tex
                == old(self).spec_framebuffer().unwrap(),
            !(old(self).spec_framebuffer() matches Some(fb) && fb.w == w && fb.h == h) ==> tex.id
                >= old(self).spec_next_id(),
            final(self).spec_has_blur() == old(self).spec_has_blur(),
    {
        self.intermediate = Intermediate::Missing;
        match self.framebuffer {
            Some(fb) => {
                if fb.w == w && fb.h == h {
                    return fb;
                }
            },
            None => {},
        }
        let tex = CaptureTex { w, h, id: self.next_id };
        self.next_id = self.next_id + 1;
        self.framebuffer = Some(tex);
        tex
    }

    /// Discards the intermediate texture without beginning a capture: a
    /// capture attempt that ends early — a fully offscreen destination, a
    /// degenerate size — must not leave the previous frame's composite
    /// behind, or a later draw would show stale content.
    pub fn discard_intermediate(&mut self)
        ensures
            final(self).spec_intermediate() == Intermediate::Missing,
            final(self).spec_framebuffer() == old(self).spec_framebuffer(),
            final(self).spec_next_id() == old(self).spec_next_id(),
            final(self).spec_has_blur() == old(self).spec_has_blur(),
            old(self).wf() ==> final(self).wf(),
    {
        self.intermediate = Intermediate::Missing;
    }

    /// Ends a capture: the intermediate is the blurred texture when blur was
    /// requested and succeeded, and falls back to the raw capture otherwise.
    pub fn finish_capture(&mut self, blur_requested: bool, blur_ok: bool)
        requires
            old(self).spec_framebuffer() is Some,
        ensures
            final(self).spec_intermediate() == (if blur_requested && blur_ok {
                Intermediate::Blurred
            } else {
                Intermediate::Raw
            }),
            final(self).spec_framebuffer() == old(self).spec_framebuffer(),
            final(self).spec_next_id() == old(self).spec_next_id(),
            final(self).spec_has_blur() == old(self).spec_has_blur(),
    {
        self.intermediate = if blur_requested && blur_ok {
            Intermediate::Blurred
        } else {
            Intermediate::Raw
        };
    }

    /// The next texture identity this state would hand out.
    pub fn next_id(&self) -> (r: u64)
        ensures
            r == self.spec_next_id(),
    {
        self.next_id
    }

    /// What the intermediate texture currently holds.
    pub fn intermediate_kind(&self) -> (r: Intermediate)
        ensures
            r == self.spec_intermediate(),
    {
        self.intermediate
    }

    /// Whether a draw has an intermediate texture to composite; without one
    /// the draw is skipped.
    pub fn can_draw(&self) -> (r: bool)
        ensures
            r == (self.spec_intermediate() != Intermediate::Missing),
    {
        match self.intermediate {
            Intermediate::Missing => false,
            _ => true,
        }
    }
}

} // verus!
