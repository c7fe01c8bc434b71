//! Fog of war: one boolean per tile, hidden at world start and punched
//! open by base placement and by units every tick. Visibility is
//! write-once: no core operation ever hides a tile again.

use vstd::prelude::*;

use crate::terrain::MAX_CELLS;

verus! {

/// Tiles revealed around each base at world-generation time.
pub const BASE_REVEAL_RADIUS: u32 = 6;

/// Whether `(x, y)` lies in the square (Chebyshev) neighbourhood of
/// side `2 * radius + 1` centred on `(cx, cy)`.
pub open spec fn in_square(x: int, y: int, cx: int, cy: int, radius: int) -> bool {
    &&& cx - radius <= x <= cx + radius
    &&& cy - radius <= y <= cy + radius
}

/// The fog after one reveal: every tile of the square becomes visible,
/// every other tile keeps its state.
pub open spec fn spec_reveal(s: Seq<bool>, w: int, cx: int, cy: int, radius: int) -> Seq<bool> {
    Seq::new(s.len(), |k: int| s[k] || in_square(k % w, k / w, cx, cy, radius))
}

/// Every on-map tile of the square of side `2 * radius + 1` around
/// the centre is visible.
pub open spec fn square_visible(fog: FogGrid, cx: int, cy: int, radius: int) -> bool {
    forall|x: int, y: int|
        0 <= x < fog.spec_width() && 0 <= y < fog.spec_height() && in_square(x, y, cx, cy, radius)
            ==> fog.spec_at(x, y)
}

/// Per-tile visibility over the whole map, row-major like the height
/// field.
pub struct FogGrid {
    width: usize,
    height: usize,
    visible: Vec<bool>,
}

impl View for FogGrid {
    type V = Seq<bool>;

    closed spec fn view(&self) -> Seq<bool> {
        self.visible@
    }
}

impl FogGrid {
    pub closed spec fn spec_width(&self) -> int {
        self.width as int
    }

    pub closed spec fn spec_height(&self) -> int {
        self.height as int
    }

    pub open spec fn wf(&self) -> bool {
        &&& 1 <= self.spec_width()
        &&& 1 <= self.spec_height()
        &&& self.spec_width() * self.spec_height() <= MAX_CELLS
        &&& self@.len() == self.spec_width() * self.spec_height()
    }

    /// Whether the tile at `(x, y)` is visible.
    pub open spec fn spec_at(&self, x: int, y: int) -> bool {
        self@[y * self.spec_width() + x]
    }

    /// A fully hidden fog layer covering the whole map.
    pub fn new_hidden(width: usize, height: usize) -> (fog: FogGrid)
        requires
            1 <= width,
            1 <= height,
            width * height <= MAX_CELLS,
        ensures
            fog.wf(),
            fog.spec_width() == width,
            fog.spec_height() == height,
            forall|k: int| 0 <= k < fog@.len() ==> !(#[trigger] fog@[k]),
    {
        let n = width * height;
        let mut visible: Vec<bool> = Vec::new();
        let mut i: usize = 0;
        while i < n
            invariant
                0 <= i <= n,
                visible@.len() == i,
                forall|k: int| 0 <= k < visible@.len() ==> !(#[trigger] visible@[k]),
            decreases n - i,
        {
            visible.push(false);
            i = i + 1;
        }
        FogGrid { width, height, visible }
    }

    pub fn width(&self) -> (w: usize)
        ensures
            w == self.spec_width(),
    {
        self.width
    }

    pub fn height(&self) -> (h: usize)
        ensures
            h == self.spec_height(),
    {
        self.height
    }

    /// Visibility of the tile at `(x, y)`, or `None` off the map: an
    /// out-of-bounds lookup is a non-fatal miss.
    pub fn visible_at(&self, x: u32, y: u32) -> (r: Option<bool>)
        requires
            self.wf(),
        ensures
            x < self.spec_width() && y < self.spec_height() ==> r == Some(
                self.spec_at(x as int, y as int),
            ),
            !(x < self.spec_width() && y < self.spec_height()) ==> r is None,
    {
        if (x as usize) < self.width && (y as usize) < self.height {
            proof {
                lemma_fog_index(self.spec_width(), self.spec_height(), x as int, y as int);
            }
            Some(self.visible[(y as usize) * self.width + (x as usize)])
        } else {
            None
        }
    }

    /// Reveal the square of side `2 * radius + 1` around the centre:
    /// every tile of the square becomes visible, tiles off the map are
    /// silently skipped, and no tile ever reverts to hidden.
    pub fn reveal_square(&mut self, cx: u32, cy: u32, radius: u32)
        requires
            old(self).wf(),
        ensures
            final(self).wf(),
            final(self).spec_width() == old(self).spec_width(),
            final(self).spec_height() == old(self).spec_height(),
            final(self)@ == spec_reveal(
                old(self)@,
                old(self).spec_width(),
                cx as int,
                cy as int,
                radius as int,
            ),
            forall|k: int| 0 <= k < old(self)@.len() && old(self)@[k] ==> final(self)@[k],
            cx < old(self).spec_width() && cy < old(self).spec_height() ==> final(self).spec_at(
                cx as int,
                cy as int,
            ),
            square_visible(*final(self), cx as int, cy as int, radius as int),
    {
        let ghost s0 = self@;
        let ghost w = self.spec_width();
        proof {
            assert(self.spec_width() <= MAX_CELLS) by (nonlinear_arith)
                requires
                    1 <= self.spec_width(),
                    1 <= self.spec_height(),
                    self.spec_width() * self.spec_height() <= MAX_CELLS,
            ;
        }
        let n = self.visible.len();
        let mut k: usize = 0;
        while k < n
            invariant
                0 <= k <= n,
                self.width == old(self).width,
                self.height == old(self).height,
                n == self@.len(),
                s0.len() == n,
                w == self.spec_width(),
                1 <= w,
                w <= MAX_CELLS,
                n <= MAX_CELLS,
                self@.len() == old(self)@.len(),
                forall|j: int|
                    0 <= j < k ==> self@[j] == #[trigger] spec_reveal(
                        s0,
                        w,
                        cx as int,
                        cy as int,
                        radius as int,
                    )[j],
                forall|j: int| k <= j < n ==> self@[j] == s0[j],
            decreases n - k,
        {
            let x = k % self.width;
            let y = k / self.width;
            let inside = (cx as i64) - (radius as i64) <= (x as i64) && (x as i64) <= (cx as i64)
                + (radius as i64) && (cy as i64) - (radius as i64) <= (y as i64) && (y as i64)
                <= (cy as i64) + (radius as i64);
            if inside {
                self.visible.set(k, true);
            }
            proof {
                assert(x as int == (k as int) % w && y as int == (k as int) / w) by {
                    vstd::arithmetic::div_mod::lemma_mod_bound(k as int, w);
                }
                assert(inside == in_square(
                    (k as int) % w,
                    (k as int) / w,
                    cx as int,
                    cy as int,
                    radius as int,
                ));
            }
            k = k + 1;
        }
        proof {
            assert(self@ =~= spec_reveal(s0, w, cx as int, cy as int, radius as int));
            // The centre itself, when on the map, is now visible.
            if cx < self.spec_width() && cy < self.spec_height() {
                lemma_fog_index(self.spec_width(), self.spec_height(), cx as int, cy as int);
                let ki = (cy as int) * w + (cx as int);
                vstd::arithmetic::div_mod::lemma_fundamental_div_mod_converse(
                    ki,
                    w,
                    cy as int,
                    cx as int,
                );
                assert(in_square(ki % w, ki / w, cx as int, cy as int, radius as int));
            }
            // And so is every on-map tile of the whole square.
            let h = self.spec_height();
            assert forall|x: int, y: int|
                0 <= x < w && 0 <= y < h && in_square(
                    x,
                    y,
                    cx as int,
                    cy as int,
                    radius as int,
                ) implies self.spec_at(x, y) by {
                lemma_fog_index(w, h, x, y);
                let ki = y * w + x;
                vstd::arithmetic::div_mod::lemma_fundamental_div_mod_converse(ki, w, y, x);
                assert(in_square(ki % w, ki / w, cx as int, cy as int, radius as int));
                assert(self@[ki]);
            }
        }
    }
}

proof fn lemma_fog_index(w: int, h: int, x: int, y: int)
    requires
        0 <= x < w,
        0 <= y < h,
    ensures
        0 <= y * w + x < w * h,
{
    assert(y * w + x < w * h) by (nonlinear_arith)
        requires
            0 <= x < w,
            0 <= y < h,
    ;
    vstd::arithmetic::mul::lemma_mul_nonnegative(y, w);
}

/// A visible square stays visible through any later fog change that
/// only adds visibility, reveals included.
pub proof fn lemma_square_visible_monotone(f1: FogGrid, f2: FogGrid, cx: int, cy: int, radius: int)
    requires
        f1.wf(),
        square_visible(f1, cx, cy, radius),
        f2.spec_width() == f1.spec_width(),
        f2.spec_height() == f1.spec_height(),
        f2@.len() == f1@.len(),
        forall|k: int| 0 <= k < f1@.len() && f1@[k] ==> f2@[k],
    ensures
        square_visible(f2, cx, cy, radius),
{
    let w = f1.spec_width();
    let h = f1.spec_height();
    assert forall|x: int, y: int|
        0 <= x < f2.spec_width() && 0 <= y < f2.spec_height() && in_square(
            x,
            y,
            cx,
            cy,
            radius,
        ) implies f2.spec_at(x, y) by {
        assert(f1.spec_at(x, y));
        lemma_fog_index(w, h, x, y);
    }
}

/// Fog monotonicity: a tile visible before a reveal is visible after
/// it, whatever the centre and radius. Together with the fully hidden
/// constructor, these are the only core operations that touch fog, so
/// no core operation ever hides a visible tile again.
pub proof fn lemma_reveal_monotone(s: Seq<bool>, w: int, cx: int, cy: int, radius: int)
    ensures
        forall|k: int| 0 <= k < s.len() && s[k] ==> #[trigger] spec_reveal(s, w, cx, cy, radius)[k],
{
}

} // verus!
