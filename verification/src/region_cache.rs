//! The per-surface cache of the decomposed blur region.
//!
//! The protocol layer marks the cache pending on every region request and
//! promotes pending to dirty when the surface commits; the renderer reads the
//! cache, recomputing it lazily only when it is dirty. The guarded cell that
//! makes this safe across contexts lives outside; this module holds the state
//! machine inside the cell.

use vstd::prelude::*;

use crate::rect::Rect;
use crate::region::{decomposition_ok, region_to_non_overlapping_rects, RegionOp};

verus! {

/// The blur region a surface's protocol state currently requests.
pub enum RequestedRegion {
    /// No protocol state, or state without a region set.
    Unset,
    /// The whole surface, represented by one huge rectangle that later
    /// clipping cuts down naturally.
    WholeSurface,
    /// An explicit add/subtract region.
    Region(Vec<(RegionOp, Rect)>),
}

/// A legacy effect protocol's blur request: the whole surface or an explicit
/// region.
pub enum LegacyRegion {
    WholeSurface,
    Region(Vec<(RegionOp, Rect)>),
}

/// Resolves a surface's protocol state into one requested region. The primary
/// effect protocol wins wherever its state is present — even with no region
/// set — and the legacy protocol is consulted only otherwise. The outer
/// `Option` says whether a protocol's state is present at all, the inner one
/// whether it holds a region.
pub fn resolve_requested_region(
    primary: Option<Option<Vec<(RegionOp, Rect)>>>,
    legacy: Option<Option<LegacyRegion>>,
) -> (r: RequestedRegion)
    ensures
        r == (match primary {
            Some(Some(ops)) => RequestedRegion::Region(ops),
            Some(None) => RequestedRegion::Unset,
            None => match legacy {
                Some(Some(LegacyRegion::WholeSurface)) => RequestedRegion::WholeSurface,
                Some(Some(LegacyRegion::Region(ops))) => RequestedRegion::Region(ops),
                Some(None) => RequestedRegion::Unset,
                None => RequestedRegion::Unset,
            },
        }),
{
    match primary {
        Some(Some(ops)) => RequestedRegion::Region(ops),
        Some(None) => RequestedRegion::Unset,
        None => match legacy {
            Some(Some(LegacyRegion::WholeSurface)) => RequestedRegion::WholeSurface,
            Some(Some(LegacyRegion::Region(ops))) => RequestedRegion::Region(ops),
            Some(None) => RequestedRegion::Unset,
            None => RequestedRegion::Unset,
        },
    }
}

/// The rectangle standing for a whole-surface region.
pub open spec fn spec_whole_surface_rect() -> Rect {
    Rect { x1: -1073741823i32, y1: -1073741823i32, x2: 1073741824i32, y2: 1073741824i32 }
}

/// The rectangle standing for a whole-surface region.
pub fn whole_surface_rect() -> (r: Rect)
    ensures
        r == spec_whole_surface_rect(),
{
    Rect {
        x1: -(i32::MAX / 2),
        y1: -(i32::MAX / 2),
        x2: i32::MAX - i32::MAX / 2,
        y2: i32::MAX - i32::MAX / 2,
    }
}

/// What the cached rectangles must hold after a recomputation for the given
/// request. `None` means "no blur region configured", distinct from an empty
/// list.
pub open spec fn cached_rects_ok(request: &RequestedRegion, rects: Option<Seq<Rect>>) -> bool {
    match request {
        RequestedRegion::Unset => rects is None,
        RequestedRegion::WholeSurface => rects == Some(seq![spec_whole_surface_rect()]),
        RequestedRegion::Region(ops) => rects matches Some(rs) && decomposition_ok(ops@, rs),
    }
}

/// The cached decomposed blur region of one surface, with the dirty flags
/// that drive its lazy recomputation.
pub struct RegionCache {
    /// A region change was requested and awaits the surface's commit.
    pending_dirty: bool,
    /// The committed region changed; the rectangles must be recomputed.
    dirty: bool,
    /// The commit hook for this surface was already registered.
    hook_registered: bool,
    /// The decomposed rectangles; `None` means no blur region configured.
    rects: Option<Vec<Rect>>,
}

impl RegionCache {
    /// A region change awaits the surface's commit.
    pub closed spec fn spec_pending_dirty(&self) -> bool {
        self.pending_dirty
    }

    /// The rectangles must be recomputed on the next read.
    pub closed spec fn spec_dirty(&self) -> bool {
        self.dirty
    }

    /// The commit hook was registered.
    pub closed spec fn spec_hook_registered(&self) -> bool {
        self.hook_registered
    }

    /// The cached rectangles.
    pub closed spec fn spec_rects(&self) -> Option<Seq<Rect>> {
        match self.rects {
            Some(ref v) => Some(v@),
            None => None,
        }
    }

    /// A fresh cache: clean, nothing computed, no hook registered.
    pub fn new() -> (r: RegionCache)
        ensures
            !r.spec_pending_dirty(),
            !r.spec_dirty(),
            !r.spec_hook_registered(),
            r.spec_rects() is None,
    {
        RegionCache { pending_dirty: false, dirty: false, hook_registered: false, rects: None }
    }

    /// Notes a requested region change; it takes effect on the next commit.
    /// Returns whether the caller must register the commit hook, which
    /// happens exactly once per surface.
    pub fn mark_pending_dirty(&mut self) -> (register_hook: bool)
        ensures
            final(self).spec_pending_dirty(),
            final(self).spec_hook_registered(),
            final(self).spec_dirty() == old(self).spec_dirty(),
            final(self).spec_rects() == old(self).spec_rects(),
            register_hook == !old(self).spec_hook_registered(),
    {
        self.pending_dirty = true;
        if self.hook_registered {
            false
        } else {
            self.hook_registered = true;
            true
        }
    }

    /// The surface committed: a pending region change becomes dirty.
    pub fn on_commit(&mut self)
        ensures
            !final(self).spec_pending_dirty(),
            final(self).spec_dirty() == (old(self).spec_dirty() || old(
                self,
            ).spec_pending_dirty()),
            final(self).spec_hook_registered() == old(self).spec_hook_registered(),
            final(self).spec_rects() == old(self).spec_rects(),
    {
        if self.pending_dirty {
            self.pending_dirty = false;
            self.dirty = true;
        }
    }

    /// Recomputes the cached rectangles if and only if they are dirty: a
    /// clean cache is returned untouched, however often it is read.
    pub fn refresh(&mut self, request: &RequestedRegion)
        ensures
            !final(self).spec_dirty(),
            final(self).spec_pending_dirty() == old(self).spec_pending_dirty(),
            final(self).spec_hook_registered() == old(self).spec_hook_registered(),
            !old(self).spec_dirty() ==> final(self).spec_rects() == old(self).spec_rects(),
            old(self).spec_dirty() ==> cached_rects_ok(request, final(self).spec_rects()),
    {
        if !self.dirty {
            return ;
        }
        self.dirty = false;
        match request {
            RequestedRegion::Unset => {
                self.rects = None;
            },
            RequestedRegion::WholeSurface => {
                let mut v: Vec<Rect> = Vec::new();
                v.push(whole_surface_rect());
                proof {
                    assert(v@ =~= seq![spec_whole_surface_rect()]);
                }
                self.rects = Some(v);
            },
            RequestedRegion::Region(ops) => {
                let mut v: Vec<Rect> = Vec::new();
                region_to_non_overlapping_rects(ops, &mut v);
                self.rects = Some(v);
            },
        }
    }

    /// The cached rectangles; `None` means no blur region is configured.
    pub fn cached_rects(&self) -> (r: Option<&Vec<Rect>>)
        ensures
            match r {
                Some(v) => self.spec_rects() == Some(v@),
                None => self.spec_rects() is None,
            },
    {
        self.rects.as_ref()
    }
}

} // verus!
