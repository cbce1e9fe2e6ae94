//! Clamped scroll regions: a scroll position that can never leave
//! `[0, max_scroll]`, whatever sequence of operations runs on it.

use vstd::prelude::*;

verus! {

/// How far one PageUp / PageDown key moves a region.
pub const PAGE_STEP: usize = 10;

/// How far one mouse-wheel tick moves a region.
pub const WHEEL_STEP: usize = 2;

/// One scroll region. `max_scroll` is supplied by the renderer once the
/// content height is known.
pub struct ScrollRegion {
    pub scroll: usize,
    pub max_scroll: usize,
}

impl ScrollRegion {
    /// The region's invariant: the position is clamped into
    /// `[0, max_scroll]` (the lower bound is the type's).
    pub open spec fn wf(self) -> bool {
        self.scroll <= self.max_scroll
    }

    pub fn new() -> (r: ScrollRegion)
        ensures
            r.wf(),
            r.scroll == 0,
            r.max_scroll == 0,
    {
        ScrollRegion { scroll: 0, max_scroll: 0 }
    }

    /// Moves down by `n`, saturating at `max_scroll`.
    pub fn step_down(&mut self, n: usize)
        requires
            old(self).wf(),
        ensures
            final(self).wf(),
            final(self).max_scroll == old(self).max_scroll,
            final(self).scroll == (if old(self).scroll + n <= old(self).max_scroll {
                old(self).scroll + n
            } else {
                old(self).max_scroll as int
            }),
    {
        if self.max_scroll - self.scroll >= n {
            self.scroll = self.scroll + n;
        } else {
            self.scroll = self.max_scroll;
        }
    }

    /// Moves up by `n`, saturating at 0.
    pub fn step_up(&mut self, n: usize)
        requires
            old(self).wf(),
        ensures
            final(self).wf(),
            final(self).max_scroll == old(self).max_scroll,
            final(self).scroll == (if old(self).scroll >= n {
                old(self).scroll - n
            } else {
                0
            }),
    {
        if self.scroll >= n {
            self.scroll = self.scroll - n;
        } else {
            self.scroll = 0;
        }
    }

    /// Jumps to the top.
    pub fn to_top(&mut self)
        ensures
            final(self).wf(),
            final(self).max_scroll == old(self).max_scroll,
            final(self).scroll == 0,
    {
        self.scroll = 0;
    }

    /// Jumps to the bottom.
    pub fn to_bottom(&mut self)
        ensures
            final(self).wf(),
            final(self).max_scroll == old(self).max_scroll,
            final(self).scroll == old(self).max_scroll,
    {
        self.scroll = self.max_scroll;
    }

    /// Takes the bound the renderer computed, clamping the position into
    /// the new range.
    pub fn set_max_scroll(&mut self, m: usize)
        ensures
            final(self).wf(),
            final(self).max_scroll == m,
            final(self).scroll == (if old(self).scroll <= m {
                old(self).scroll as int
            } else {
                m as int
            }),
    {
        self.max_scroll = m;
        if self.scroll > m {
            self.scroll = m;
        }
    }
}

} // verus!
