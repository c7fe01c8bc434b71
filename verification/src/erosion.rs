//! Hydraulic erosion over a height grid.
//!
//! Each round adds a fixed rainfall to every cell and averages it with the
//! lowest of its in-bounds Moore neighbours, reading only the previous
//! round's grid (double buffering), so no scan-order bias can arise.
//! After all rounds, a single settling pass finds every local minimum
//! ("river source") and overwrites its lowest neighbour with the source's
//! own value, applied sequentially in scan order.

use vstd::prelude::*;

verus! {

use crate::terrain::MAX_CELLS;

/// A value strictly above any cell, used to mark out-of-bounds neighbours.
pub const NEIGHBOR_SENTINEL: u64 = 0x1_0000_0000;

/// The smaller of two values.
pub open spec fn min2(a: int, b: int) -> int {
    if a <= b {
        a
    } else {
        b
    }
}

/// The neighbour value at offset `(dx, dy)` from `(x, y)`, or the
/// sentinel when that position falls off the grid.
pub open spec fn nb(s: Seq<u32>, w: int, h: int, x: int, y: int, dx: int, dy: int) -> int {
    if 0 <= x + dx < w && 0 <= y + dy < h {
        s[(y + dy) * w + (x + dx)] as int
    } else {
        NEIGHBOR_SENTINEL as int
    }
}

/// Minimum over the eight Moore neighbours of `(x, y)` that lie on the
/// grid; the sentinel when the grid has no second cell.
pub open spec fn neighbor_min(s: Seq<u32>, w: int, h: int, x: int, y: int) -> int {
    min2(
        min2(
            min2(nb(s, w, h, x, y, -1, -1), nb(s, w, h, x, y, -1, 0)),
            min2(nb(s, w, h, x, y, -1, 1), nb(s, w, h, x, y, 0, -1)),
        ),
        min2(
            min2(nb(s, w, h, x, y, 0, 1), nb(s, w, h, x, y, 1, -1)),
            min2(nb(s, w, h, x, y, 1, 0), nb(s, w, h, x, y, 1, 1)),
        ),
    )
}

/// The lowest in-bounds neighbour, or the cell itself on a grid so small
/// that it has no neighbour at all.
pub open spec fn neighbor_min_or_self(s: Seq<u32>, w: int, h: int, x: int, y: int) -> int {
    let m = neighbor_min(s, w, h, x, y);
    if m >= NEIGHBOR_SENTINEL {
        s[y * w + x] as int
    } else {
        m
    }
}

/// One eroded cell: the rainfall-incremented cell averaged with its
/// lowest neighbour.
pub open spec fn erode_cell(s: Seq<u32>, w: int, h: int, rain: int, x: int, y: int) -> int {
    (s[y * w + x] + rain + neighbor_min_or_self(s, w, h, x, y)) / 2
}

/// One full erosion round, every cell computed from the previous grid.
pub open spec fn spec_erode_round(s: Seq<u32>, w: int, h: int, rain: int) -> Seq<u32> {
    Seq::new(s.len(), |k: int| erode_cell(s, w, h, rain, k % w, k / w) as u32)
}

/// `rounds` erosion rounds applied in order.
pub open spec fn spec_erode(s: Seq<u32>, w: int, h: int, rain: int, rounds: nat) -> Seq<u32>
    decreases rounds,
{
    if rounds == 0 {
        s
    } else {
        spec_erode(spec_erode_round(s, w, h, rain), w, h, rain, (rounds - 1) as nat)
    }
}

/// A river source: no in-bounds neighbour is strictly lower.
pub open spec fn is_river_source(s: Seq<u32>, w: int, h: int, x: int, y: int) -> bool {
    neighbor_min(s, w, h, x, y) >= s[y * w + x] as int
}

/// River sources among the first `t` cells in column-major scan order
/// (`x` outermost), each recorded as `(x, y)`.
pub open spec fn sources_upto(s: Seq<u32>, w: int, h: int, t: nat) -> Seq<(usize, usize)>
    decreases t,
{
    if t == 0 {
        Seq::empty()
    } else {
        let prev = sources_upto(s, w, h, (t - 1) as nat);
        let x = ((t - 1) as int) / h;
        let y = ((t - 1) as int) % h;
        if is_river_source(s, w, h, x, y) {
            prev.push((x as usize, y as usize))
        } else {
            prev
        }
    }
}

/// All river sources of the grid in scan order.
pub open spec fn spec_sources(s: Seq<u32>, w: int, h: int) -> Seq<(usize, usize)> {
    sources_upto(s, w, h, (w * h) as nat)
}

/// Offset table for the settling pass, in the scan order that breaks
/// ties: `dx` outermost, then `dy`.
pub open spec fn offset_at(k: int) -> (int, int) {
    if k == 0 {
        (-1, -1)
    } else if k == 1 {
        (-1, 0)
    } else if k == 2 {
        (-1, 1)
    } else if k == 3 {
        (0, -1)
    } else if k == 4 {
        (0, 1)
    } else if k == 5 {
        (1, -1)
    } else if k == 6 {
        (1, 0)
    } else {
        (1, 1)
    }
}

/// Best (lowest, earliest) neighbour position after scanning the first
/// `k` offsets; starts at the cell itself.
pub open spec fn scan_lowest(s: Seq<u32>, w: int, h: int, x: int, y: int, k: nat) -> (
    int,
    int,
    int,
)
    decreases k,
{
    if k == 0 {
        (x, y, s[y * w + x] as int)
    } else {
        let (bx, by, bv) = scan_lowest(s, w, h, x, y, (k - 1) as nat);
        let (dx, dy) = offset_at(k - 1);
        let v = nb(s, w, h, x, y, dx, dy);
        if v < bv {
            (x + dx, y + dy, v)
        } else {
            (bx, by, bv)
        }
    }
}

/// One settling step: the source's lowest neighbour takes the source's
/// value (a no-op when the source has no strictly lower neighbour).
pub open spec fn fill_one(s: Seq<u32>, w: int, h: int, x: int, y: int) -> Seq<u32> {
    let (bx, by, bv) = scan_lowest(s, w, h, x, y, 8);
    s.update(by * w + bx, s[y * w + x])
}

/// The settling pass applied to each source in order, each step reading
/// the grid as left by the steps before it.
pub open spec fn apply_fills(s: Seq<u32>, w: int, h: int, srcs: Seq<(usize, usize)>) -> Seq<u32>
    decreases srcs.len(),
{
    if srcs.len() == 0 {
        s
    } else {
        apply_fills(
            fill_one(s, w, h, srcs.first().0 as int, srcs.first().1 as int),
            w,
            h,
            srcs.skip(1),
        )
    }
}

/// The whole settling pass over the grid's own sources.
pub open spec fn spec_rivers(s: Seq<u32>, w: int, h: int) -> Seq<u32> {
    apply_fills(s, w, h, spec_sources(s, w, h))
}

/// Erosion rounds followed by the settling pass.
pub open spec fn spec_erosion(s: Seq<u32>, w: int, h: int, rain: int, rounds: nat) -> Seq<u32> {
    spec_rivers(spec_erode(s, w, h, rain, rounds), w, h)
}

proof fn lemma_grid_index(w: int, h: int, x: int, y: int)
    requires
        0 <= x < w,
        0 <= y < h,
    ensures
        0 <= y * w + x < w * h,
    decreases h,
{
    assert(y * w + x < w * h) by (nonlinear_arith)
        requires
            0 <= x < w,
            0 <= y < h,
    ;
    vstd::arithmetic::mul::lemma_mul_nonnegative(y, w);
}

proof fn lemma_grid_coords(w: int, h: int, k: int)
    requires
        0 < w,
        0 < h,
        0 <= k < w * h,
    ensures
        0 <= k % w < w,
        0 <= k / w < h,
        (k / w) * w + (k % w) == k,
{
    vstd::arithmetic::div_mod::lemma_fundamental_div_mod(k, w);
    vstd::arithmetic::div_mod::lemma_mod_bound(k, w);
    vstd::arithmetic::div_mod::lemma_div_pos_is_pos(k, w);
    vstd::arithmetic::mul::lemma_mul_is_commutative(k / w, w);
    assert(k / w < h) by (nonlinear_arith)
        requires
            0 < w,
            0 < h,
            0 <= k < w * h,
            k == w * (k / w) + k % w,
            0 <= k % w < w,
            0 <= k / w,
    ;
}

/// The neighbour value at one offset, with the sentinel off the grid.
fn nb_exec(cells: &Vec<u32>, w: usize, h: usize, x: usize, y: usize, dx: i8, dy: i8) -> (r: u64)
    requires
        cells@.len() == w * h,
        w * h <= MAX_CELLS,
        0 < w,
        0 < h,
        x < w,
        y < h,
        -1 <= dx <= 1,
        -1 <= dy <= 1,
    ensures
        r as int == nb(cells@, w as int, h as int, x as int, y as int, dx as int, dy as int),
{
    proof {
        assert(w <= w * h && h <= w * h) by (nonlinear_arith)
            requires
                0 < w,
                0 < h,
        ;
    }
    let nx: i64 = x as i64 + dx as i64;
    let ny: i64 = y as i64 + dy as i64;
    if 0 <= nx && nx < w as i64 && 0 <= ny && ny < h as i64 {
        proof {
            lemma_grid_index(w as int, h as int, nx as int, ny as int);
        }
        let i: usize = (ny as usize) * w + (nx as usize);
        cells[i] as u64
    } else {
        NEIGHBOR_SENTINEL
    }
}

fn min2_exec(a: u64, b: u64) -> (r: u64)
    ensures
        r as int == min2(a as int, b as int),
{
    if a <= b {
        a
    } else {
        b
    }
}

/// Lowest in-bounds neighbour value of `(x, y)`, sentinel when none.
fn neighbor_min_exec(cells: &Vec<u32>, w: usize, h: usize, x: usize, y: usize) -> (r: u64)
    requires
        cells@.len() == w * h,
        w * h <= MAX_CELLS,
        0 < w,
        0 < h,
        x < w,
        y < h,
    ensures
        r as int == neighbor_min(cells@, w as int, h as int, x as int, y as int),
{
    let a = min2_exec(
        min2_exec(nb_exec(cells, w, h, x, y, -1, -1), nb_exec(cells, w, h, x, y, -1, 0)),
        min2_exec(nb_exec(cells, w, h, x, y, -1, 1), nb_exec(cells, w, h, x, y, 0, -1)),
    );
    let b = min2_exec(
        min2_exec(nb_exec(cells, w, h, x, y, 0, 1), nb_exec(cells, w, h, x, y, 1, -1)),
        min2_exec(nb_exec(cells, w, h, x, y, 1, 0), nb_exec(cells, w, h, x, y, 1, 1)),
    );
    min2_exec(a, b)
}

/// One erosion round, reading only the previous grid.
pub fn erode_round(cells: &Vec<u32>, w: usize, h: usize, rain: u32) -> (out: Vec<u32>)
    requires
        cells@.len() == w * h,
        w * h <= MAX_CELLS,
        0 < w,
        0 < h,
    ensures
        out@ == spec_erode_round(cells@, w as int, h as int, rain as int),
{
    let len = cells.len();
    let mut out: Vec<u32> = Vec::new();
    let mut k: usize = 0;
    while k < len
        invariant
            0 <= k <= len,
            len == cells@.len(),
            cells@.len() == w * h,
            w * h <= MAX_CELLS,
            0 < w,
            0 < h,
            out@ =~= spec_erode_round(cells@, w as int, h as int, rain as int).take(k as int),
        decreases len - k,
    {
        proof {
            lemma_grid_coords(w as int, h as int, k as int);
        }
        let x = k % w;
        let y = k / w;
        let m = neighbor_min_exec(cells, w, h, x, y);
        let self_val = cells[k];
        let low: u64 = if m >= NEIGHBOR_SENTINEL {
            self_val as u64
        } else {
            m
        };
        let ghost wi = w as int;
        proof {
            assert(y * wi + x == k);
            assert(low as int == neighbor_min_or_self(cells@, wi, h as int, x as int, y as int));
        }
        let v: u64 = self_val as u64 + rain as u64 + low;
        let nv: u64 = v / 2;
        proof {
            assert(nv as int == erode_cell(cells@, wi, h as int, rain as int, x as int, y as int));
        }
        out.push(nv as u32);
        proof {
            assert(out@ =~= spec_erode_round(cells@, wi, h as int, rain as int).take(k as int + 1));
        }
        k = k + 1;
    }
    proof {
        assert(out@ =~= spec_erode_round(cells@, w as int, h as int, rain as int));
    }
    out
}

/// Every cell an erosion round writes stays below the old bound plus the
/// rainfall.
pub proof fn lemma_erode_round_bound(s: Seq<u32>, w: int, h: int, rain: int, b: int)
    requires
        s.len() == w * h,
        0 < w,
        0 < h,
        0 <= rain,
        0 <= b,
        b + rain <= u32::MAX,
        forall|i: int| 0 <= i < s.len() ==> #[trigger] s[i] <= b,
    ensures
        forall|i: int|
            0 <= i < s.len() ==> #[trigger] spec_erode_round(s, w, h, rain)[i] <= b + rain,
{
    let t = spec_erode_round(s, w, h, rain);
    assert forall|i: int| 0 <= i < s.len() implies #[trigger] t[i] <= b + rain by {
        lemma_grid_coords(w, h, i);
        let x = i % w;
        let y = i / w;
        let m = neighbor_min(s, w, h, x, y);
        if m < NEIGHBOR_SENTINEL {
            lemma_neighbor_min_is_cell(s, w, h, x, y);
        }
        lemma_grid_index(w, h, x, y);
        assert(neighbor_min_or_self(s, w, h, x, y) <= b);
        assert(erode_cell(s, w, h, rain, x, y) <= (b + rain + b) / 2) by {
            vstd::arithmetic::div_mod::lemma_div_is_ordered(
                s[y * w + x] + rain + neighbor_min_or_self(s, w, h, x, y),
                b + rain + b,
                2,
            );
        }
        assert((b + rain + b) / 2 <= b + rain);
        assert(0 <= erode_cell(s, w, h, rain, x, y)) by {
            vstd::arithmetic::div_mod::lemma_div_pos_is_pos(
                s[y * w + x] + rain + neighbor_min_or_self(s, w, h, x, y),
                2,
            );
        }
    }
}

/// Every value `neighbor_min` can take below the sentinel is some cell of
/// the grid.
proof fn lemma_neighbor_min_is_cell(s: Seq<u32>, w: int, h: int, x: int, y: int)
    requires
        s.len() == w * h,
        0 < w,
        0 < h,
        0 <= x < w,
        0 <= y < h,
        neighbor_min(s, w, h, x, y) < NEIGHBOR_SENTINEL,
    ensures
        exists|j: int| 0 <= j < s.len() && neighbor_min(s, w, h, x, y) == s[j] as int,
{
    let nm = neighbor_min(s, w, h, x, y);
    // The min2 nesting makes nm equal one of the eight nb terms; a term
    // below the sentinel names an in-bounds cell.
    if nm == nb(s, w, h, x, y, -1, -1) {
        lemma_nb_is_cell(s, w, h, x, y, -1, -1);
    } else if nm == nb(s, w, h, x, y, -1, 0) {
        lemma_nb_is_cell(s, w, h, x, y, -1, 0);
    } else if nm == nb(s, w, h, x, y, -1, 1) {
        lemma_nb_is_cell(s, w, h, x, y, -1, 1);
    } else if nm == nb(s, w, h, x, y, 0, -1) {
        lemma_nb_is_cell(s, w, h, x, y, 0, -1);
    } else if nm == nb(s, w, h, x, y, 0, 1) {
        lemma_nb_is_cell(s, w, h, x, y, 0, 1);
    } else if nm == nb(s, w, h, x, y, 1, -1) {
        lemma_nb_is_cell(s, w, h, x, y, 1, -1);
    } else if nm == nb(s, w, h, x, y, 1, 0) {
        lemma_nb_is_cell(s, w, h, x, y, 1, 0);
    } else {
        assert(nm == nb(s, w, h, x, y, 1, 1));
        lemma_nb_is_cell(s, w, h, x, y, 1, 1);
    }
}

/// Offset table for the settling scan, exact against `offset_at`.
fn offset_exec(k: u8) -> (r: (i8, i8))
    requires
        k < 8,
    ensures
        r.0 as int == offset_at(k as int).0,
        r.1 as int == offset_at(k as int).1,
{
    if k == 0 {
        (-1, -1)
    } else if k == 1 {
        (-1, 0)
    } else if k == 2 {
        (-1, 1)
    } else if k == 3 {
        (0, -1)
    } else if k == 4 {
        (0, 1)
    } else if k == 5 {
        (1, -1)
    } else if k == 6 {
        (1, 0)
    } else {
        (1, 1)
    }
}

proof fn lemma_scan_lowest_in_bounds(s: Seq<u32>, w: int, h: int, x: int, y: int, k: nat)
    requires
        s.len() == w * h,
        0 < w,
        0 < h,
        0 <= x < w,
        0 <= y < h,
    ensures
        ({
            let (bx, by, bv) = scan_lowest(s, w, h, x, y, k);
            0 <= bx < w && 0 <= by < h && bv < NEIGHBOR_SENTINEL
        }),
    decreases k,
{
    if k == 0 {
        lemma_grid_index(w, h, x, y);
    } else {
        lemma_scan_lowest_in_bounds(s, w, h, x, y, (k - 1) as nat);
    }
}

/// Position of the lowest strictly-lower neighbour of `(x, y)`, ties
/// broken by scan order; the cell itself when no neighbour is lower.
fn scan_lowest_exec(cells: &Vec<u32>, w: usize, h: usize, x: usize, y: usize) -> (r: (
    usize,
    usize,
))
    requires
        cells@.len() == w * h,
        w * h <= MAX_CELLS,
        0 < w,
        0 < h,
        x < w,
        y < h,
    ensures
        ({
            let (bx, by, bv) = scan_lowest(cells@, w as int, h as int, x as int, y as int, 8);
            r.0 == bx && r.1 == by && r.0 < w && r.1 < h
        }),
{
    proof {
        lemma_grid_index(w as int, h as int, x as int, y as int);
        assert(w <= w * h && h <= w * h) by (nonlinear_arith)
            requires
                0 < w,
                0 < h,
        ;
    }
    let mut bx = x;
    let mut by = y;
    let mut bv: u64 = cells[y * w + x] as u64;
    let mut k: u8 = 0;
    while k < 8
        invariant
            0 <= k <= 8,
            cells@.len() == w * h,
            w * h <= MAX_CELLS,
            0 < w,
            0 < h,
            x < w,
            y < h,
            bx < w,
            by < h,
            bv < NEIGHBOR_SENTINEL,
            ({
                let (sx, sy, sv) = scan_lowest(
                    cells@,
                    w as int,
                    h as int,
                    x as int,
                    y as int,
                    k as nat,
                );
                bx == sx && by == sy && bv == sv
            }),
        decreases 8 - k,
    {
        let (dx, dy) = offset_exec(k);
        let v = nb_exec(cells, w, h, x, y, dx, dy);
        if v < bv {
            // Below the sentinel, so the offset lands on the grid.
            proof {
                assert(w <= w * h && h <= w * h) by (nonlinear_arith)
                    requires
                        0 < w,
                        0 < h,
                ;
            }
            let nx: i64 = x as i64 + dx as i64;
            let ny: i64 = y as i64 + dy as i64;
            proof {
                assert(0 <= nx < w && 0 <= ny < h);
            }
            bx = nx as usize;
            by = ny as usize;
            bv = v;
        }
        k = k + 1;
    }
    (bx, by)
}

/// One settling step in place, exact against `fill_one`.
fn fill_one_exec(cells: &mut Vec<u32>, w: usize, h: usize, x: usize, y: usize)
    requires
        old(cells)@.len() == w * h,
        w * h <= MAX_CELLS,
        0 < w,
        0 < h,
        x < w,
        y < h,
    ensures
        final(cells)@ == fill_one(old(cells)@, w as int, h as int, x as int, y as int),
        final(cells)@.len() == old(cells)@.len(),
{
    proof {
        lemma_grid_index(w as int, h as int, x as int, y as int);
    }
    let val = cells[y * w + x];
    let (bx, by) = scan_lowest_exec(cells, w, h, x, y);
    proof {
        lemma_grid_index(w as int, h as int, bx as int, by as int);
    }
    let i = by * w + bx;
    cells.set(i, val);
}

/// A settling step only copies an existing cell, so a bound on all cells
/// survives it.
proof fn lemma_fill_one_bound(s: Seq<u32>, w: int, h: int, x: int, y: int, b: int)
    requires
        s.len() == w * h,
        0 < w,
        0 < h,
        0 <= x < w,
        0 <= y < h,
        forall|i: int| 0 <= i < s.len() ==> #[trigger] s[i] <= b,
    ensures
        fill_one(s, w, h, x, y).len() == s.len(),
        forall|i: int| 0 <= i < s.len() ==> #[trigger] fill_one(s, w, h, x, y)[i] <= b,
{
    lemma_scan_lowest_in_bounds(s, w, h, x, y, 8);
    lemma_grid_index(w, h, x, y);
    let (bx, by, bv) = scan_lowest(s, w, h, x, y, 8);
    lemma_grid_index(w, h, bx, by);
    assert(fill_one(s, w, h, x, y) == s.update(by * w + bx, s[y * w + x]));
}

/// Whether `(x, y)` is a river source, exact against `is_river_source`.
fn is_river_source_exec(cells: &Vec<u32>, w: usize, h: usize, x: usize, y: usize) -> (r: bool)
    requires
        cells@.len() == w * h,
        w * h <= MAX_CELLS,
        0 < w,
        0 < h,
        x < w,
        y < h,
    ensures
        r == is_river_source(cells@, w as int, h as int, x as int, y as int),
{
    proof {
        lemma_grid_index(w as int, h as int, x as int, y as int);
    }
    let m = neighbor_min_exec(cells, w, h, x, y);
    m >= cells[y * w + x] as u64
}

/// All river sources of the grid in scan order, exact against
/// `spec_sources`.
fn collect_sources(cells: &Vec<u32>, w: usize, h: usize) -> (srcs: Vec<(usize, usize)>)
    requires
        cells@.len() == w * h,
        w * h <= MAX_CELLS,
        0 < w,
        0 < h,
    ensures
        srcs@ == spec_sources(cells@, w as int, h as int),
{
    let mut srcs: Vec<(usize, usize)> = Vec::new();
    let mut x: usize = 0;
    while x < w
        invariant
            0 <= x <= w,
            cells@.len() == w * h,
            w * h <= MAX_CELLS,
            0 < w,
            0 < h,
            srcs@ == sources_upto(cells@, w as int, h as int, (x * h) as nat),
            x * h <= w * h,
        decreases w - x,
    {
        proof {
            assert(x * h + h <= w * h) by (nonlinear_arith)
                requires
                    0 <= x < w,
                    0 < h,
            ;
        }
        let mut y: usize = 0;
        while y < h
            invariant
                0 <= y <= h,
                x < w,
                cells@.len() == w * h,
                w * h <= MAX_CELLS,
                0 < w,
                0 < h,
                x * h + h <= w * h,
                srcs@ == sources_upto(cells@, w as int, h as int, (x * h + y) as nat),
            decreases h - y,
        {
            let t = x * h + y;
            proof {
                vstd::arithmetic::div_mod::lemma_fundamental_div_mod_converse(
                    t as int,
                    h as int,
                    x as int,
                    y as int,
                );
                assert(t as int == (h as int) * (x as int) + y as int) by (nonlinear_arith)
                    requires
                        t == x * h + y,
                ;
            }
            if is_river_source_exec(cells, w, h, x, y) {
                srcs.push((x, y));
            }
            proof {
                let tt = (t + 1) as nat;
                assert(sources_upto(cells@, w as int, h as int, tt) == if is_river_source(
                    cells@,
                    w as int,
                    h as int,
                    x as int,
                    y as int,
                ) {
                    sources_upto(cells@, w as int, h as int, t as nat).push((x, y))
                } else {
                    sources_upto(cells@, w as int, h as int, t as nat)
                });
            }
            y = y + 1;
        }
        x = x + 1;
        proof {
            assert(x * h == (x - 1) * h + h) by (nonlinear_arith)
                requires
                    x >= 1,
            ;
            assert(x * h <= w * h) by (nonlinear_arith)
                requires
                    x <= w,
                    0 < h,
            ;
        }
    }
    proof {
        assert(w * h == w * h);
    }
    srcs
}

proof fn lemma_sources_in_bounds(s: Seq<u32>, w: int, h: int, t: nat)
    requires
        0 < w,
        0 < h,
        t <= w * h,
    ensures
        forall|i: int|
            0 <= i < sources_upto(s, w, h, t).len() ==> (#[trigger] sources_upto(s, w, h, t)[i]).0
                < w && sources_upto(s, w, h, t)[i].1 < h,
    decreases t,
{
    if t > 0 {
        lemma_sources_in_bounds(s, w, h, (t - 1) as nat);
        let x = ((t - 1) as int) / h;
        let y = ((t - 1) as int) % h;
        vstd::arithmetic::div_mod::lemma_mod_bound((t - 1) as int, h);
        vstd::arithmetic::div_mod::lemma_div_pos_is_pos((t - 1) as int, h);
        vstd::arithmetic::div_mod::lemma_fundamental_div_mod((t - 1) as int, h);
        let u: int = (t - 1) as int;
        assert(x < w) by (nonlinear_arith)
            requires
                0 < w,
                0 < h,
                0 <= u,
                u < w * h,
                u == h * x + y,
                0 <= y < h,
        ;
        let cur = sources_upto(s, w, h, t);
        let prev = sources_upto(s, w, h, (t - 1) as nat);
        assert forall|i: int| 0 <= i < cur.len() implies (#[trigger] cur[i]).0 < w && cur[i].1
            < h by {
            if i < prev.len() {
                assert(cur[i] == prev[i]);
            }
        }
    }
}

/// The settling pass: apply one fill per source, in scan order, each
/// step reading the grid as the previous steps left it.
pub fn settle_rivers(cells: Vec<u32>, w: usize, h: usize) -> (out: Vec<u32>)
    requires
        cells@.len() == w * h,
        w * h <= MAX_CELLS,
        0 < w,
        0 < h,
    ensures
        out@ == spec_rivers(cells@, w as int, h as int),
        out@.len() == cells@.len(),
{
    let ghost s0 = cells@;
    let srcs = collect_sources(&cells, w, h);
    proof {
        lemma_sources_in_bounds(s0, w as int, h as int, (w * h) as nat);
    }
    let mut cur = cells;
    proof {
        assert(srcs@.skip(0) =~= srcs@);
    }
    let n = srcs.len();
    let mut i: usize = 0;
    while i < n
        invariant
            0 <= i <= n,
            n == srcs@.len(),
            cur@.len() == w * h,
            w * h <= MAX_CELLS,
            0 < w,
            0 < h,
            forall|j: int| 0 <= j < srcs@.len() ==> (#[trigger] srcs@[j]).0 < w && srcs@[j].1 < h,
            apply_fills(s0, w as int, h as int, srcs@) == apply_fills(
                cur@,
                w as int,
                h as int,
                srcs@.skip(i as int),
            ),
        decreases n - i,
    {
        let (x, y) = srcs[i];
        proof {
            let rest = srcs@.skip(i as int);
            assert(rest.first() == srcs@[i as int]);
            assert(rest.skip(1) =~= srcs@.skip(i as int + 1));
        }
        fill_one_exec(&mut cur, w, h, x, y);
        i = i + 1;
    }
    proof {
        assert(srcs@.skip(n as int) =~= Seq::<(usize, usize)>::empty());
        assert(apply_fills(cur@, w as int, h as int, Seq::<(usize, usize)>::empty()) == cur@);
    }
    cur
}

/// Largest rainfall increment accepted per round (1.0 in micro-units).
pub const MAX_RAIN: u32 = 1_000_000;

/// Most erosion rounds accepted in one run.
pub const MAX_ROUNDS: u32 = 2_000;

/// Cells entering erosion must be valid heights (at most 1.0).
pub const EROSION_INPUT_CAP: u32 = 1_000_000;

/// All erosion rounds in order, exact against `spec_erode`; cells grow by
/// at most one rainfall per round.
pub fn erode(cells: Vec<u32>, w: usize, h: usize, rain: u32, rounds: u32) -> (out: Vec<u32>)
    requires
        cells@.len() == w * h,
        w * h <= MAX_CELLS,
        0 < w,
        0 < h,
        rain <= MAX_RAIN,
        rounds <= MAX_ROUNDS,
        forall|i: int| 0 <= i < cells@.len() ==> #[trigger] cells@[i] <= EROSION_INPUT_CAP,
    ensures
        out@ == spec_erode(cells@, w as int, h as int, rain as int, rounds as nat),
        out@.len() == cells@.len(),
        forall|i: int|
            0 <= i < out@.len() ==> #[trigger] out@[i] <= EROSION_INPUT_CAP + rounds * rain,
{
    let ghost s0 = cells@;
    let mut cur = cells;
    let mut i: u32 = 0;
    while i < rounds
        invariant
            0 <= i <= rounds,
            rounds <= MAX_ROUNDS,
            rain <= MAX_RAIN,
            cur@.len() == w * h,
            s0.len() == w * h,
            w * h <= MAX_CELLS,
            0 < w,
            0 < h,
            spec_erode(s0, w as int, h as int, rain as int, rounds as nat) == spec_erode(
                cur@,
                w as int,
                h as int,
                rain as int,
                (rounds - i) as nat,
            ),
            forall|j: int|
                0 <= j < cur@.len() ==> #[trigger] cur@[j] <= EROSION_INPUT_CAP + i * rain,
        decreases rounds - i,
    {
        proof {
            lemma_mul_inequality_u32(i as int, 2000, rain as int);
            vstd::arithmetic::mul::lemma_mul_nonnegative(i as int, rain as int);
            lemma_erode_round_bound(
                cur@,
                w as int,
                h as int,
                rain as int,
                (EROSION_INPUT_CAP + i * rain) as int,
            );
            assert(EROSION_INPUT_CAP + i * rain + rain == EROSION_INPUT_CAP + (i + 1) * rain) by {
                vstd::arithmetic::mul::lemma_mul_is_distributive_add_other_way(
                    rain as int,
                    i as int,
                    1,
                );
            }
        }
        let next = erode_round(&cur, w, h, rain);
        cur = next;
        i = i + 1;
    }
    cur
}

proof fn lemma_mul_inequality_u32(x: int, xb: int, y: int)
    requires
        0 <= x <= xb,
        1 <= xb,
        0 <= y <= 1_000_000,
    ensures
        x * y <= xb * 1_000_000,
{
    vstd::arithmetic::mul::lemma_mul_inequality(x, xb, y);
    vstd::arithmetic::mul::lemma_mul_left_inequality(xb, y, 1_000_000);
}

/// Erosion rounds followed by the settling pass, exact against
/// `spec_erosion`; every resulting cell is bounded by the input cap plus
/// the total rainfall.
pub fn hydraulic_erosion(cells: Vec<u32>, w: usize, h: usize, rain: u32, rounds: u32) -> (out: Vec<
    u32,
>)
    requires
        cells@.len() == w * h,
        w * h <= MAX_CELLS,
        0 < w,
        0 < h,
        rain <= MAX_RAIN,
        rounds <= MAX_ROUNDS,
        forall|i: int| 0 <= i < cells@.len() ==> #[trigger] cells@[i] <= EROSION_INPUT_CAP,
    ensures
        out@ == spec_erosion(cells@, w as int, h as int, rain as int, rounds as nat),
        out@.len() == cells@.len(),
        forall|i: int|
            0 <= i < out@.len() ==> #[trigger] out@[i] <= EROSION_INPUT_CAP + rounds * rain,
{
    let eroded = erode(cells, w, h, rain, rounds);
    let ghost e = eroded@;
    let out = settle_rivers(eroded, w, h);
    proof {
        lemma_spec_sources_in_bounds(e, w as int, h as int);
        lemma_apply_fills_bound(
            e,
            w as int,
            h as int,
            spec_sources(e, w as int, h as int),
            (EROSION_INPUT_CAP + rounds * rain) as int,
        );
    }
    out
}

/// A bound on all cells survives the whole settling pass.
pub proof fn lemma_apply_fills_bound(
    s: Seq<u32>,
    w: int,
    h: int,
    srcs: Seq<(usize, usize)>,
    b: int,
)
    requires
        s.len() == w * h,
        0 < w,
        0 < h,
        forall|i: int| 0 <= i < srcs.len() ==> (#[trigger] srcs[i]).0 < w && srcs[i].1 < h,
        forall|i: int| 0 <= i < s.len() ==> #[trigger] s[i] <= b,
    ensures
        apply_fills(s, w, h, srcs).len() == s.len(),
        forall|i: int| 0 <= i < s.len() ==> #[trigger] apply_fills(s, w, h, srcs)[i] <= b,
    decreases srcs.len(),
{
    if srcs.len() > 0 {
        let x = srcs.first().0 as int;
        let y = srcs.first().1 as int;
        lemma_fill_one_bound(s, w, h, x, y, b);
        lemma_apply_fills_bound(fill_one(s, w, h, x, y), w, h, srcs.skip(1), b);
    }
}

/// The sources of a grid stay within it.
pub proof fn lemma_spec_sources_in_bounds(s: Seq<u32>, w: int, h: int)
    requires
        0 < w,
        0 < h,
        s.len() == w * h,
    ensures
        forall|i: int|
            0 <= i < spec_sources(s, w, h).len() ==> (#[trigger] spec_sources(s, w, h)[i]).0 < w
                && spec_sources(s, w, h)[i].1 < h,
{
    lemma_sources_in_bounds(s, w, h, (w * h) as nat);
}

proof fn lemma_nb_is_cell(s: Seq<u32>, w: int, h: int, x: int, y: int, dx: int, dy: int)
    requires
        s.len() == w * h,
        0 < w,
        0 < h,
        0 <= x < w,
        0 <= y < h,
        -1 <= dx <= 1,
        -1 <= dy <= 1,
        nb(s, w, h, x, y, dx, dy) < NEIGHBOR_SENTINEL,
    ensures
        exists|j: int| 0 <= j < s.len() && nb(s, w, h, x, y, dx, dy) == s[j] as int,
{
    assert(0 <= x + dx < w && 0 <= y + dy < h);
    lemma_grid_index(w, h, x + dx, y + dy);
    let j = (y + dy) * w + (x + dx);
    assert(0 <= j < s.len() && nb(s, w, h, x, y, dx, dy) == s[j] as int);
}

} // verus!
