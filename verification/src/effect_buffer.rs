//! The cached capture shared by every element drawing the same underlying
//! content, one instance per render target.
//!
//! One writer prepares the buffer per frame; many readers then render from it
//! at different destinations without recapturing. A commit counter rises
//! exactly when newly captured content differs from the previous commit, so
//! consumers detect change without comparing pixels.

use vstd::prelude::*;

verus! {

/// The shared capture buffer of one render target.
pub struct EffectBuffer {
    /// Monotonically increasing content version.
    commit: u64,
    /// The content version last captured, `None` before the first capture.
    captured: Option<u64>,
    /// Whether the captured texture was blurred.
    blurred: bool,
}

impl EffectBuffer {
    /// The consumer-visible commit counter.
    pub closed spec fn spec_commit(&self) -> u64 {
        self.commit
    }

    /// The content version held by the capture, if any.
    pub closed spec fn spec_captured(&self) -> Option<u64> {
        self.captured
    }

    /// Whether the held capture is blurred.
    pub closed spec fn spec_blurred(&self) -> bool {
        self.blurred
    }

    /// A fresh buffer holding nothing.
    pub fn new() -> (r: EffectBuffer)
        ensures
            r.spec_commit() == 0,
            r.spec_captured() is None,
            !r.spec_blurred(),
    {
        EffectBuffer { commit: 0, captured: None, blurred: false }
    }

    /// The current commit counter.
    pub fn commit(&self) -> (r: u64)
        ensures
            r == self.spec_commit(),
    {
        self.commit
    }

    /// Whether a capture at this content version with this blur choice is
    /// stale and must recapture.
    pub fn is_stale(&self, content_version: u64, want_blur: bool) -> (r: bool)
        ensures
            r == !(self.spec_captured() == Some(content_version) && self.spec_blurred()
                == want_blur),
    {
        match self.captured {
            Some(v) => v != content_version || self.blurred != want_blur,
            None => true,
        }
    }

    /// Adopts a capture: recaptures only when stale, and bumps the commit
    /// counter exactly when the newly captured content differs from the
    /// previous commit. Returns whether the buffer is available to render
    /// from; on a failed capture the old state stands and the buffer is
    /// available only if it already held a capture.
    pub fn prepare(&mut self, content_version: u64, want_blur: bool, capture_ok: bool) -> (r: bool)
        requires
            old(self).spec_commit() < u64::MAX,
        ensures
            final(self).spec_commit() >= old(self).spec_commit(),
            !(old(self).spec_captured() == Some(content_version) && old(self).spec_blurred()
                == want_blur) && capture_ok ==> {
                &&& final(self).spec_captured() == Some(content_version)
                &&& final(self).spec_blurred() == want_blur
                &&& final(self).spec_commit() as int == (if old(self).spec_captured() == Some(
                    content_version,
                ) {
                    old(self).spec_commit() as int
                } else {
                    old(self).spec_commit() + 1
                })
                &&& r
            },
            (old(self).spec_captured() == Some(content_version) && old(self).spec_blurred()
                == want_blur) ==> *final(self) == *old(self) && r,
            !capture_ok && !(old(self).spec_captured() == Some(content_version) && old(
                self,
            ).spec_blurred() == want_blur) ==> *final(self) == *old(self) && r == (old(
                self,
            ).spec_captured() is Some),
    {
        if !self.is_stale(content_version, want_blur) {
            return true;
        }
        if !capture_ok {
            return self.captured.is_some();
        }
        let content_changed = match self.captured {
            Some(v) => v != content_version,
            None => true,
        };
        if content_changed {
            self.commit = self.commit + 1;
        }
        self.captured = Some(content_version);
        self.blurred = want_blur;
        true
    }

    /// Whether a reader may render from the buffer this frame. Reading
    /// never changes the buffer: capture is decoupled from, and idempotent
    /// across, the draws of one frame.
    pub fn render_available(&self) -> (r: bool)
        ensures
            r == (self.spec_captured() is Some),
    {
        self.captured.is_some()
    }
}

} // verus!
