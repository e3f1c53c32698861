//! The mathematical model of the automaton: a generation is a `Seq<bool>`
//! of length `width * height` in row-major order, and these spec functions
//! say what one `tick` produces, which cells count as neighbors on the
//! torus, and what the live-cell listing and the rendering look like.

use vstd::prelude::*;

verus! {

/// One where the cell is alive, zero where it is dead.
pub open spec fn b2i(b: bool) -> int {
    if b {
        1
    } else {
        0
    }
}

/// The coordinate one step toward zero, wrapping to `m - 1` at the edge.
pub open spec fn wrap_dec(x: int, m: int) -> int {
    if x == 0 {
        m - 1
    } else {
        x - 1
    }
}

/// The coordinate one step away from zero, wrapping to `0` at the edge.
pub open spec fn wrap_inc(x: int, m: int) -> int {
    if x == m - 1 {
        0
    } else {
        x + 1
    }
}

/// The cell at `(row, col)` of a row-major grid of width `w`.
pub open spec fn cell_at(s: Seq<bool>, w: int, row: int, col: int) -> bool {
    s[row * w + col]
}

/// How many of the eight toroidal neighbors of `(row, col)` are alive.
pub open spec fn neighbor_count(s: Seq<bool>, w: int, h: int, row: int, col: int) -> int {
    let up = wrap_dec(row, h);
    let down = wrap_inc(row, h);
    let left = wrap_dec(col, w);
    let right = wrap_inc(col, w);
    b2i(cell_at(s, w, up, left)) + b2i(cell_at(s, w, up, col)) + b2i(cell_at(s, w, up, right))
        + b2i(cell_at(s, w, row, left)) + b2i(cell_at(s, w, row, right)) + b2i(
        cell_at(s, w, down, left),
    ) + b2i(cell_at(s, w, down, col)) + b2i(cell_at(s, w, down, right))
}

/// The transition rule: a live cell survives with two or three live
/// neighbors, a dead cell comes alive with exactly three, and every
/// other cell is dead in the next generation.
pub open spec fn next_state(alive: bool, neighbors: int) -> bool {
    if alive {
        2 <= neighbors <= 3
    } else {
        neighbors == 3
    }
}

/// The whole next generation, every cell computed from the snapshot `s`.
pub open spec fn next_gen(s: Seq<bool>, w: int, h: int) -> Seq<bool> {
    Seq::new(s.len(), |i: int| next_state(s[i], neighbor_count(s, w, h, i / w, i % w)))
}

/// The grid after `n` generations.
pub open spec fn gen_n(s: Seq<bool>, w: int, h: int, n: nat) -> Seq<bool>
    decreases n,
{
    if n == 0 {
        s
    } else {
        next_gen(gen_n(s, w, h, (n - 1) as nat), w, h)
    }
}

/// The ascending list of live indices below `n`.
pub open spec fn live_prefix(s: Seq<bool>, n: int) -> Seq<u32>
    decreases n,
{
    if n <= 0 {
        Seq::empty()
    } else {
        live_prefix(s, n - 1) + (if s[n - 1] {
            seq![(n - 1) as u32]
        } else {
            Seq::empty()
        })
    }
}

/// The ascending list of all live indices of the grid.
pub open spec fn live_list(s: Seq<bool>) -> Seq<u32> {
    live_prefix(s, s.len() as int)
}

/// How many cells below `n` are alive.
pub open spec fn live_count_prefix(s: Seq<bool>, n: int) -> nat
    decreases n,
{
    if n <= 0 {
        0
    } else {
        live_count_prefix(s, n - 1) + (if s[n - 1] {
            1nat
        } else {
            0nat
        })
    }
}

/// How many cells of the grid are alive.
pub open spec fn live_count(s: Seq<bool>) -> nat {
    live_count_prefix(s, s.len() as int)
}

/// No cell of the grid is alive.
pub open spec fn all_dead(s: Seq<bool>) -> bool {
    forall|i: int| 0 <= i < s.len() ==> !s[i]
}

/// The glyph a cell is rendered as.
pub open spec fn glyph(b: bool) -> char {
    if b {
        '◼'
    } else {
        '◻'
    }
}

/// The `w` glyphs of one rendered row.
pub open spec fn row_chars(s: Seq<bool>, w: int, row: int) -> Seq<char> {
    Seq::new(w as nat, |c: int| glyph(s[row * w + c]))
}

/// The first `r` rendered rows, separated by line breaks.
pub open spec fn render_rows(s: Seq<bool>, w: int, r: int) -> Seq<char>
    decreases r,
{
    if r <= 0 {
        Seq::empty()
    } else if r == 1 {
        row_chars(s, w, 0)
    } else {
        render_rows(s, w, r - 1) + seq!['\n'] + row_chars(s, w, r - 1)
    }
}

/// The full rendering: one line per row, `w` glyphs per line, a line
/// break between rows and none after the last.
pub open spec fn render_spec(s: Seq<bool>, w: int, h: int) -> Seq<char> {
    render_rows(s, w, h)
}

/// Every seed index lies below `size`.
pub open spec fn seed_in_range(seed: Seq<u32>, size: int) -> bool {
    forall|j: int| 0 <= j < seed.len() ==> (seed[j] as int) < size
}

/// The grid of `size` cells whose live cells are exactly the seed indices.
pub open spec fn seeded_cells(size: int, seed: Seq<u32>) -> Seq<bool> {
    Seq::new(size as nat, |i: int| seed.contains(i as u32))
}

/// A row-major index built from in-range coordinates lies in the grid.
pub proof fn lemma_index_bound(w: int, h: int, row: int, col: int)
    requires
        w >= 1,
        h >= 1,
        0 <= row < h,
        0 <= col < w,
    ensures
        0 <= row * w + col < w * h,
{
    assert(row * w + col < w * h) by (nonlinear_arith)
        requires
            w >= 1,
            h >= 1,
            0 <= row < h,
            0 <= col < w,
    ;
    assert(row * w >= 0) by (nonlinear_arith)
        requires
            w >= 1,
            0 <= row,
    ;
}

/// A row-major index decomposes back into its row and column.
pub proof fn lemma_index_decomp(w: int, row: int, col: int)
    requires
        w >= 1,
        0 <= row,
        0 <= col < w,
    ensures
        (row * w + col) / w == row,
        (row * w + col) % w == col,
{
    vstd::arithmetic::div_mod::lemma_fundamental_div_mod_converse(row * w + col, w, row, col);
}

/// An index into the grid has in-range row and column coordinates.
pub proof fn lemma_coords(i: int, w: int, h: int)
    requires
        w >= 1,
        h >= 1,
        0 <= i < w * h,
    ensures
        0 <= i / w < h,
        0 <= i % w < w,
        i == (i / w) * w + (i % w),
{
    vstd::arithmetic::div_mod::lemma_fundamental_div_mod(i, w);
    vstd::arithmetic::div_mod::lemma_mod_pos_bound(i, w);
    vstd::arithmetic::div_mod::lemma_div_pos_is_pos(i, w);
    vstd::arithmetic::mul::lemma_mul_is_commutative(w, i / w);
    vstd::arithmetic::mul::lemma_mul_is_commutative(w, h);
    if i / w >= h {
        vstd::arithmetic::mul::lemma_mul_inequality(h, i / w, w);
        assert(h * w <= (i / w) * w);
        assert(false);
    }
}

/// The live listing of the first `n` cells holds exactly the indices of
/// the live cells below `n`, in strictly ascending order.
pub proof fn lemma_live_prefix_exact(s: Seq<bool>, n: int)
    requires
        0 <= n <= s.len(),
        s.len() <= u32::MAX as int,
    ensures
        live_prefix(s, n).len() <= n,
        forall|j: int|
            0 <= j < live_prefix(s, n).len() ==> (#[trigger] live_prefix(s, n)[j] as int) < n && s[
                live_prefix(s, n)[j] as int
            ],
        forall|a: int, b: int|
            0 <= a < b < live_prefix(s, n).len() ==> live_prefix(s, n)[a] < live_prefix(s, n)[b],
        forall|x: u32| live_prefix(s, n).contains(x) <==> ((x as int) < n && s[x as int]),
    decreases n,
{
    if n > 0 {
        lemma_live_prefix_exact(s, n - 1);
        let prev = live_prefix(s, n - 1);
        let cur = live_prefix(s, n);
        assert forall|x: u32| cur.contains(x) implies ((x as int) < n && s[x as int]) by {
            let j = choose|j: int| 0 <= j < cur.len() && cur[j] == x;
            if j < prev.len() {
                assert(prev[j] == x);
                assert(prev.contains(x));
            } else {
                assert(x as int == n - 1);
            }
        }
        assert forall|x: u32| ((x as int) < n && s[x as int]) implies cur.contains(x) by {
            if (x as int) < n - 1 {
                assert(prev.contains(x));
                let j = choose|j: int| 0 <= j < prev.len() && prev[j] == x;
                assert(cur[j] == x);
            } else {
                assert(x as int == n - 1);
                assert(s[n - 1]);
                assert(cur[cur.len() - 1] == x);
            }
        }
    }
}

/// The live listing has exactly one entry per live cell.
pub proof fn lemma_live_count_matches(s: Seq<bool>)
    ensures
        live_list(s).len() == live_count(s),
{
    lemma_live_prefix_count(s, s.len() as int);
}

proof fn lemma_live_prefix_count(s: Seq<bool>, n: int)
    ensures
        live_prefix(s, n).len() == live_count_prefix(s, n),
    decreases n,
{
    if n > 0 {
        lemma_live_prefix_count(s, n - 1);
    }
}

/// Round trip: the live listing of a grid seeded from `seed` is the
/// sorted, de-duplicated form of `seed` — strictly ascending, and holding
/// exactly the seeded indices.
pub proof fn lemma_seed_round_trip(size: int, seed: Seq<u32>)
    requires
        0 <= size <= u32::MAX as int,
        seed_in_range(seed, size),
    ensures
        forall|a: int, b: int|
            0 <= a < b < live_list(seeded_cells(size, seed)).len() ==> live_list(
                seeded_cells(size, seed),
            )[a] < live_list(seeded_cells(size, seed))[b],
        forall|x: u32| live_list(seeded_cells(size, seed)).contains(x) <==> seed.contains(x),
{
    let s = seeded_cells(size, seed);
    lemma_live_prefix_exact(s, size);
    assert forall|x: u32| live_list(s).contains(x) implies seed.contains(x) by {
        assert((x as int) < size && s[x as int]);
    }
    assert forall|x: u32| seed.contains(x) implies live_list(s).contains(x) by {
        let j = choose|j: int| 0 <= j < seed.len() && seed[j] == x;
        assert((seed[j] as int) < size);
        assert(s[x as int] == seed.contains(x));
    }
}

/// One step of an all-dead grid is all dead.
pub proof fn lemma_dead_step(s: Seq<bool>, w: int, h: int)
    requires
        all_dead(s),
        w >= 1,
        h >= 1,
        s.len() == w * h,
    ensures
        next_gen(s, w, h) == s,
{
    assert forall|i: int| 0 <= i < s.len() implies next_gen(s, w, h)[i] == s[i] by {
        lemma_coords(i, w, h);
        let row = i / w;
        let col = i % w;
        lemma_wrapped_in_range(w, h, row, col);
        lemma_index_bound(w, h, wrap_dec(row, h), wrap_dec(col, w));
        lemma_index_bound(w, h, wrap_dec(row, h), col);
        lemma_index_bound(w, h, wrap_dec(row, h), wrap_inc(col, w));
        lemma_index_bound(w, h, row, wrap_dec(col, w));
        lemma_index_bound(w, h, row, wrap_inc(col, w));
        lemma_index_bound(w, h, wrap_inc(row, h), wrap_dec(col, w));
        lemma_index_bound(w, h, wrap_inc(row, h), col);
        lemma_index_bound(w, h, wrap_inc(row, h), wrap_inc(col, w));
        assert(neighbor_count(s, w, h, row, col) == 0);
        assert(next_gen(s, w, h)[i] == next_state(s[i], 0));
    }
    assert(next_gen(s, w, h) =~= s);
}

/// Wrapped coordinates stay on the grid.
pub proof fn lemma_wrapped_in_range(w: int, h: int, row: int, col: int)
    requires
        w >= 1,
        h >= 1,
        0 <= row < h,
        0 <= col < w,
    ensures
        0 <= wrap_dec(row, h) < h,
        0 <= wrap_inc(row, h) < h,
        0 <= wrap_dec(col, w) < w,
        0 <= wrap_inc(col, w) < w,
{
}

/// Stability: an all-dead grid stays all dead after any number of steps.
pub proof fn lemma_empty_stable(s: Seq<bool>, w: int, h: int, n: nat)
    requires
        all_dead(s),
        w >= 1,
        h >= 1,
        s.len() == w * h,
    ensures
        gen_n(s, w, h, n) == s,
    decreases n,
{
    if n > 0 {
        lemma_empty_stable(s, w, h, (n - 1) as nat);
        lemma_dead_step(s, w, h);
    }
}

/// Determinism: grids with equal state stay equal, with equal live
/// listings, after the same number of steps.
pub proof fn lemma_deterministic(s: Seq<bool>, t: Seq<bool>, w: int, h: int, n: nat)
    requires
        s == t,
    ensures
        gen_n(s, w, h, n) == gen_n(t, w, h, n),
        live_list(gen_n(s, w, h, n)) == live_list(gen_n(t, w, h, n)),
{
}

/// Toroidal wrap at the corner: with only the cell at index 0 alive on a
/// 3-by-3 grid, the cell in the last row and last column counts one live
/// neighbor — the top-left corner is adjacent to it across both edges.
pub proof fn lemma_corner_wraps()
    ensures
        neighbor_count(Seq::new(9, |i: int| i == 0), 3, 3, 2, 2) == 1,
{
    let s = Seq::new(9, |i: int| i == 0);
    assert(wrap_dec(2, 3) == 1);
    assert(wrap_inc(2, 3) == 0);
    assert(cell_at(s, 3, 0, 0) == s[0]);
    assert(s[0]);
    assert(!s[4] && !s[5] && !s[3] && !s[7] && !s[6] && !s[1] && !s[2]);
}

} // verus!
