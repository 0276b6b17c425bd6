use vstd::prelude::*;
use crate::cell::Cell;
use crate::grid::{GridModel, next_cell, b2n, disp, band_count, lemma_index, lemma_coord};
use crate::pattern::{pulsar_coords, pulsar_offset, pulsar_seed, lemma_mirror};

verus! {

/// A generation step keeps one cell per position: a well-formed grid stays
/// well formed, with the same dimensions.
pub proof fn lemma_tick_keeps_shape(m: GridModel)
    requires
        m.wf(),
    ensures
        m.next_generation().wf(),
        m.next_generation().width == m.width,
        m.next_generation().height == m.height,
        m.next_generation().cells.len() == m.width * m.height,
{
}

/// Neighbor counting wraps round both edges: a live cell at the last row and
/// last column is a neighbor of the cell at `(0, 0)` and adds one to its count.
/// (On a 1 by 1 grid the two are the same cell, which is not its own neighbor.)
pub proof fn lemma_corner_neighbor(m: GridModel)
    requires
        m.wf(),
        m.height > 0,
        m.width > 0,
        !(m.height == 1 && m.width == 1),
        m.at(m.height - 1, m.width - 1) == Cell::Alive,
    ensures
        m.neighbor_weight(0, 0, m.height - 1, m.width - 1) == 1,
        m.live_neighbors(0, 0) >= 1,
{
    vstd::arithmetic::div_mod::lemma_small_mod((m.height - 1) as nat, m.height);
    vstd::arithmetic::div_mod::lemma_small_mod((m.width - 1) as nat, m.width);
}

/// Toggling the same cell twice gives back the grid one started with.
pub proof fn lemma_toggle_twice(m: GridModel, row: int, col: int)
    requires
        m.wf(),
        m.in_range(row, col),
    ensures
        m.toggled(row, col).toggled(row, col) == m,
{
    lemma_index(m.width, row, col, m.height);
    assert(m.toggled(row, col).toggled(row, col).cells =~= m.cells);
}

/// A cleared or resized grid holds `width * height` cells, all of them dead.
pub proof fn lemma_dead_grid(width: nat, height: nat)
    requires
        width * height <= u32::MAX,
    ensures
        GridModel::dead(width, height).wf(),
        GridModel::dead(width, height).cells.len() == width * height,
        forall|i: int| 0 <= i < width * height ==> #[trigger] GridModel::dead(width, height).cells[i] == Cell::Dead,
        GridModel::dead(width, height).alive_set() == Set::<(u32, u32)>::empty(),
{
    let m = GridModel::dead(width, height);
    assert forall|p: (u32, u32)| !#[trigger] m.alive_set().contains(p) by {
        if m.in_range(p.0 as int, p.1 as int) {
            lemma_index(width, p.0 as int, p.1 as int, height);
        }
    }
    assert(m.alive_set() =~= Set::<(u32, u32)>::empty());
}

/// A pulsar is symmetric: mirroring any of its cells across the anchor row,
/// or across the anchor column, wrapping round the edges, gives another of
/// its cells.
pub proof fn lemma_pulsar_symmetric(row: int, col: int, height: nat, width: nat, p: (u32, u32))
    requires
        0 <= row < height <= u32::MAX,
        0 <= col < width <= u32::MAX,
        pulsar_coords(row, col, height, width).contains(p),
    ensures
        pulsar_coords(row, col, height, width).contains(
            (((2 * row - p.0) % (height as int)) as u32, p.1),
        ),
        pulsar_coords(row, col, height, width).contains(
            (p.0, ((2 * col - p.1) % (width as int)) as u32),
        ),
{
    let s = pulsar_coords(row, col, height, width);
    let k = choose|k: int| 0 <= k < s.len() && s[k] == p;
    let h = height as int;
    let w = width as int;
    let o = pulsar_offset(k);
    vstd::arithmetic::div_mod::lemma_fundamental_div_mod(k, 12);
    // mirror across the anchor row
    let kr = if k < 24 { k + 24 } else { k - 24 };
    vstd::arithmetic::div_mod::lemma_fundamental_div_mod_converse(kr, 12, if k < 24 { k / 12 + 2 } else { k / 12 - 2 }, k % 12);
    assert(pulsar_offset(kr) == (-o.0, o.1));
    lemma_mirror(row, o.0, h);
    vstd::arithmetic::div_mod::lemma_mod_multiples_vanish(1, 2 * row - p.0, h);
    assert(p.0 as int == (row + o.0) % h);
    assert(h * 1 + (2 * row - p.0) == 2 * row + h - ((row + o.0) % h));
    assert((2 * row - p.0) % h == (row - o.0) % h);
    assert(s[kr] == (((2 * row - p.0) % h) as u32, p.1));
    // mirror across the anchor column
    let kc = if (k / 12) % 2 == 0 { k + 12 } else { k - 12 };
    vstd::arithmetic::div_mod::lemma_fundamental_div_mod_converse(kc, 12, if (k / 12) % 2 == 0 { k / 12 + 1 } else { k / 12 - 1 }, k % 12);
    assert(pulsar_offset(kc) == (o.0, -o.1));
    lemma_mirror(col, o.1, w);
    vstd::arithmetic::div_mod::lemma_mod_multiples_vanish(1, 2 * col - p.1, w);
    assert(p.1 as int == (col + o.1) % w);
    assert(w * 1 + (2 * col - p.1) == 2 * col + w - ((col + o.1) % w));
    assert((2 * col - p.1) % w == (col - o.1) % w);
    assert(s[kc] == (p.0, ((2 * col - p.1) % w) as u32));
}

/// The seed's offsets lie between 1 and 6 and are pairwise distinct.
proof fn lemma_seed_facts()
    ensures
        pulsar_seed().len() == 12,
        forall|k: int| 0 <= k < 12 ==> 1 <= (#[trigger] pulsar_seed()[k]).0 <= 6 && 1 <= pulsar_seed()[k].1 <= 6,
        forall|a: int, b: int| 0 <= a < 12 && 0 <= b < 12 && a != b ==> #[trigger] pulsar_seed()[a] != #[trigger] pulsar_seed()[b],
{
    let s = pulsar_seed();
    assert(s[0] == (6int, 4int));
    assert(s[1] == (6int, 3int));
    assert(s[2] == (6int, 2int));
    assert(s[3] == (4int, 6int));
    assert(s[4] == (4int, 1int));
    assert(s[5] == (3int, 6int));
    assert(s[6] == (3int, 1int));
    assert(s[7] == (2int, 6int));
    assert(s[8] == (2int, 1int));
    assert(s[9] == (1int, 4int));
    assert(s[10] == (1int, 3int));
    assert(s[11] == (1int, 2int));
}

/// Two offsets of at most 6 either way that land on the same wrapped
/// position of a circle of 13 or more are equal.
proof fn lemma_wrap_injective(x: int, a: int, b: int, n: int)
    requires
        n >= 13,
        -6 <= a <= 6,
        -6 <= b <= 6,
        (x + a) % n == (x + b) % n,
    ensures
        a == b,
{
    vstd::arithmetic::div_mod::lemma_fundamental_div_mod(x + a, n);
    vstd::arithmetic::div_mod::lemma_fundamental_div_mod(x + b, n);
    let qa = (x + a) / n;
    let qb = (x + b) / n;
    assert(a - b == n * (qa - qb)) by (nonlinear_arith)
        requires x + a == n * qa + (x + a) % n, x + b == n * qb + (x + b) % n, (x + a) % n == (x + b) % n;
    assert(qa == qb) by (nonlinear_arith)
        requires a - b == n * (qa - qb), n >= 13, -12 <= a - b <= 12;
}

/// The 48 offsets of a pulsar are pairwise distinct and at most 6 either way.
proof fn lemma_offsets_distinct()
    ensures
        forall|k: int| 0 <= k < 48 ==> -6 <= (#[trigger] pulsar_offset(k)).0 <= 6 && -6 <= pulsar_offset(k).1 <= 6,
        forall|i: int, j: int| 0 <= i < 48 && 0 <= j < 48 && #[trigger] pulsar_offset(i) == #[trigger] pulsar_offset(j) ==> i == j,
{
    lemma_seed_facts();
    assert forall|k: int| 0 <= k < 48 implies -6 <= (#[trigger] pulsar_offset(k)).0 <= 6 && -6 <= pulsar_offset(k).1 <= 6 by {
        vstd::arithmetic::div_mod::lemma_fundamental_div_mod(k, 12);
    }
    assert forall|i: int, j: int| 0 <= i < 48 && 0 <= j < 48 && #[trigger] pulsar_offset(i) == #[trigger] pulsar_offset(j) implies i == j by {
        vstd::arithmetic::div_mod::lemma_fundamental_div_mod(i, 12);
        vstd::arithmetic::div_mod::lemma_fundamental_div_mod(j, 12);
        let di = pulsar_seed()[i % 12];
        let dj = pulsar_seed()[j % 12];
        assert((i < 24) == (j < 24));
        assert(i / 12 == j / 12);
        assert(di == dj);
        assert(i % 12 == j % 12);
    }
}

/// On a grid of at least 13 by 13 a pulsar covers 48 distinct cells.
pub proof fn lemma_pulsar_distinct(row: int, col: int, height: nat, width: nat)
    requires
        0 <= row < height <= u32::MAX,
        0 <= col < width <= u32::MAX,
        height >= 13,
        width >= 13,
    ensures
        pulsar_coords(row, col, height, width).no_duplicates(),
        pulsar_coords(row, col, height, width).to_set().len() == 48,
{
    let s = pulsar_coords(row, col, height, width);
    lemma_offsets_distinct();
    assert forall|i: int, j: int| 0 <= i < s.len() && 0 <= j < s.len() && i != j implies s[i] != s[j] by {
        if s[i] == s[j] {
            lemma_wrap_injective(row, pulsar_offset(i).0, pulsar_offset(j).0, height as int);
            lemma_wrap_injective(col, pulsar_offset(i).1, pulsar_offset(j).1, width as int);
            assert(pulsar_offset(i) == pulsar_offset(j));
        }
    }
    s.unique_seq_to_set();
}

/// Stamping a pulsar on a dead grid of at least 13 by 13 leaves exactly the
/// pulsar's cells alive: 48 of them.
pub proof fn lemma_pulsar_on_dead_grid(row: int, col: int, height: nat, width: nat)
    requires
        0 <= row < height,
        0 <= col < width,
        width * height <= u32::MAX,
        height >= 13,
        width >= 13,
    ensures
        GridModel::dead(width, height).with_alive(pulsar_coords(row, col, height, width)).alive_set()
            == pulsar_coords(row, col, height, width).to_set(),
        GridModel::dead(width, height).with_alive(pulsar_coords(row, col, height, width)).alive_set().len() == 48,
{
    let s = pulsar_coords(row, col, height, width);
    let g = GridModel::dead(width, height);
    let m = g.with_alive(s);
    assert(height <= u32::MAX && width <= u32::MAX) by (nonlinear_arith)
        requires width * height <= u32::MAX, height >= 13, width >= 13;
    lemma_pulsar_distinct(row, col, height, width);
    assert forall|p: (u32, u32)| #[trigger] m.alive_set().contains(p) <==> s.to_set().contains(p) by {
        if s.contains(p) {
            let k = choose|k: int| 0 <= k < s.len() && s[k] == p;
            assert(s[k] == p);
            lemma_index(width, p.0 as int, p.1 as int, height);
        }
        if m.in_range(p.0 as int, p.1 as int) {
            lemma_index(width, p.0 as int, p.1 as int, height);
        }
    }
    assert(m.alive_set() =~= s.to_set());
}

/// Adding `y` before or after wrapping `x` gives the same position.
proof fn lemma_mod_shift(x: int, y: int, n: int)
    requires
        n > 0,
    ensures
        (x % n + y) % n == (x + y) % n,
{
    vstd::arithmetic::div_mod::lemma_fundamental_div_mod(x, n);
    vstd::arithmetic::div_mod::lemma_mod_multiples_vanish(x / n, x % n + y, n);
}

/// The displacement of a wrapped neighbor is the wrapped displacement plus
/// the offset.
proof fn lemma_neighbor_disp(a: int, d: int, start: int, n: int)
    requires
        n > 0,
    ensures
        ((a + d) % n - start) % n == ((a - start) % n + d) % n,
{
    lemma_mod_shift(a + d, -start, n);
    lemma_mod_shift(a - start, d, n);
}

/// One step forwards or backwards round a circle of `n` positions.
proof fn lemma_step(d: int, n: int)
    requires
        0 <= d < n,
    ensures
        (d + 1) % n == if d + 1 < n { d + 1 } else { 0 },
        (d - 1) % n == if d >= 1 { d - 1 } else { n - 1 },
        (d + n - 1) % n == if d >= 1 { d - 1 } else { n - 1 },
{
    if d + 1 < n {
        vstd::arithmetic::div_mod::lemma_small_mod((d + 1) as nat, n as nat);
    } else {
        vstd::arithmetic::div_mod::lemma_mod_multiples_vanish(1, 0, n);
    }
    if d >= 1 {
        vstd::arithmetic::div_mod::lemma_small_mod((d - 1) as nat, n as nat);
        vstd::arithmetic::div_mod::lemma_mod_multiples_vanish(1, d - 1, n);
    } else {
        vstd::arithmetic::div_mod::lemma_small_mod((n - 1) as nat, n as nat);
        vstd::arithmetic::div_mod::lemma_mod_multiples_vanish(-1, n - 1, n);
    }
}

/// A band of `len` positions on a circle of at least `len + 2`: a position
/// inside sees itself and its inside neighbors, one outside sees the band
/// only when it borders it.
proof fn lemma_band_count(d: int, len: int, n: int)
    requires
        0 <= d < n,
        1 <= len,
        len + 2 <= n,
    ensures
        band_count(d, len, n) == if d < len {
            b2n(d >= 1) + 1 + b2n(d + 1 < len)
        } else {
            b2n(d == len) + b2n(d == n - 1)
        },
{
    lemma_step(d, n);
}

/// What the neighbor at offset `(dr, dc)` adds to the count of a cell of a
/// rectangular band pattern.
proof fn lemma_rect_term(m: GridModel, r0: int, lr: int, c0: int, lc: int, i: int, j: int, dr: int, dc: int)
    requires
        m.wf(),
        m.is_rect(r0, lr, c0, lc),
        m.in_range(i, j),
        !(dr == 0 && dc == 0),
    ensures
        m.neighbor_weight(i, j, dr, dc) == b2n((disp(i, r0, m.height) + dr) % (m.height as int) < lr) * b2n(
            (disp(j, c0, m.width) + dc) % (m.width as int) < lc),
{
    let h = m.height as int;
    let w = m.width as int;
    lemma_neighbor_disp(i, dr, r0, h);
    lemma_neighbor_disp(j, dc, c0, w);
    let a = (i + dr) % h;
    let b = (j + dc) % w;
    assert(m.in_range(a, b));
    assert((m.at(a, b) == Cell::Alive) <==> (disp(a, r0, m.height) < lr && disp(b, c0, m.width) < lc));
}

/// In a rectangular band pattern the live-neighbor count is the product of
/// the row and column band counts, less the cell itself.
proof fn lemma_rect_neighbors(m: GridModel, r0: int, lr: int, c0: int, lc: int, i: int, j: int)
    requires
        m.wf(),
        m.height >= 2,
        m.width >= 2,
        m.is_rect(r0, lr, c0, lc),
        m.in_range(i, j),
    ensures
        m.live_neighbors(i, j) + b2n(disp(i, r0, m.height) < lr && disp(j, c0, m.width) < lc)
            == band_count(disp(i, r0, m.height), lr, m.height as int) * band_count(disp(j, c0, m.width), lc, m.width as int),
        (m.at(i, j) == Cell::Alive) <==> (disp(i, r0, m.height) < lr && disp(j, c0, m.width) < lc),
{
    let h = m.height as int;
    let w = m.width as int;
    let di = disp(i, r0, m.height);
    let dj = disp(j, c0, m.width);
    vstd::arithmetic::div_mod::lemma_small_mod(di as nat, h as nat);
    vstd::arithmetic::div_mod::lemma_small_mod(dj as nat, w as nat);
    assert((di + 0) % h == di);
    assert((dj + 0) % w == dj);
    lemma_rect_term(m, r0, lr, c0, lc, i, j, h - 1, w - 1);
    lemma_rect_term(m, r0, lr, c0, lc, i, j, h - 1, 0);
    lemma_rect_term(m, r0, lr, c0, lc, i, j, h - 1, 1);
    lemma_rect_term(m, r0, lr, c0, lc, i, j, 0, w - 1);
    lemma_rect_term(m, r0, lr, c0, lc, i, j, 0, 1);
    lemma_rect_term(m, r0, lr, c0, lc, i, j, 1, w - 1);
    lemma_rect_term(m, r0, lr, c0, lc, i, j, 1, 0);
    lemma_rect_term(m, r0, lr, c0, lc, i, j, 1, 1);
    let x0 = b2n((di + h - 1) % h < lr);
    let x1 = b2n(di < lr);
    let x2 = b2n((di + 1) % h < lr);
    let y0 = b2n((dj + w - 1) % w < lc);
    let y1 = b2n(dj < lc);
    let y2 = b2n((dj + 1) % w < lc);
    assert(m.live_neighbors(i, j) == x0 * y0 + x0 * y1 + x0 * y2 + x1 * y0 + x1 * y2 + x2 * y0 + x2 * y1 + x2 * y2);
    assert(b2n(di < lr && dj < lc) == x1 * y1);
    assert(x0 * y0 + x0 * y1 + x0 * y2 + x1 * y0 + x1 * y2 + x2 * y0 + x2 * y1 + x2 * y2 + x1 * y1
        == (x0 + x1 + x2) * (y0 + y1 + y2)) by (nonlinear_arith);
    assert(m.in_range(i, j));
}

/// Products of two band counts, case by case.
proof fn lemma_product_cases(x: nat, y: nat)
    requires
        x <= 3,
        y <= 3,
    ensures
        x == 0 ==> x * y == 0,
        x == 1 ==> x * y == y,
        x == 2 ==> x * y == 2 * y,
        x == 3 ==> x * y == 3 * y,
{
}

/// The cell at an in-range coordinate one generation on.
proof fn lemma_next_at(m: GridModel, a: int, b: int)
    requires
        m.wf(),
        m.in_range(a, b),
    ensures
        m.next_generation().at(a, b) == next_cell(m.at(a, b), m.live_neighbors(a, b)),
{
    lemma_index(m.width, a, b, m.height);
}

/// Two grids of one size with the same rectangular band pattern are equal.
proof fn lemma_rect_unique(m1: GridModel, m2: GridModel, r0: int, lr: int, c0: int, lc: int)
    requires
        m1.wf(),
        m2.wf(),
        m1.width == m2.width,
        m1.height == m2.height,
        m1.is_rect(r0, lr, c0, lc),
        m2.is_rect(r0, lr, c0, lc),
    ensures
        m1 == m2,
{
    assert forall|x: int| 0 <= x < m1.cells.len() implies m1.cells[x] == m2.cells[x] by {
        lemma_coord(m1.width, m1.height, x);
        let a = x / (m1.width as int);
        let b = x % (m1.width as int);
        assert(m1.in_range(a, b));
        assert(m1.at(a, b) == m1.cells[x]);
        assert(m2.at(a, b) == m2.cells[x]);
        assert((m1.at(a, b) == Cell::Alive) <==> (m2.at(a, b) == Cell::Alive));
    }
    assert(m1.cells =~= m2.cells);
}

/// Still life: a 2 by 2 block of live cells, every other cell dead, on a
/// grid of at least 4 by 4 is left unchanged by a generation step.
pub proof fn lemma_block_still_life(m: GridModel, row: int, col: int)
    requires
        m.wf(),
        m.height >= 4,
        m.width >= 4,
        m.is_rect(row, 2, col, 2),
    ensures
        m.next_generation() == m,
{
    let n = m.next_generation();
    assert forall|a: int, b: int| n.in_range(a, b) implies ((#[trigger] n.at(a, b) == Cell::Alive) <==> (disp(a, row, n.height) < 2
        && disp(b, col, n.width) < 2)) by {
        lemma_next_at(m, a, b);
        lemma_rect_neighbors(m, row, 2, col, 2, a, b);
        let x = band_count(disp(a, row, m.height), 2, m.height as int);
        let y = band_count(disp(b, col, m.width), 2, m.width as int);
        lemma_band_count(disp(a, row, m.height), 2, m.height as int);
        lemma_band_count(disp(b, col, m.width), 2, m.width as int);
        lemma_product_cases(x, y);
    }
    lemma_tick_keeps_shape(m);
    lemma_rect_unique(n, m, row, 2, col, 2);
}

/// A horizontal blinker (the 3 cells from `(row, col)` rightwards) turns
/// into the vertical one through its middle cell.
proof fn lemma_blinker_turns_vertical(m: GridModel, row: int, col: int)
    requires
        m.wf(),
        m.height >= 5,
        m.width >= 5,
        m.is_rect(row, 1, col, 3),
    ensures
        m.next_generation().is_rect(row - 1, 3, col + 1, 1),
{
    let n = m.next_generation();
    assert forall|a: int, b: int| n.in_range(a, b) implies ((#[trigger] n.at(a, b) == Cell::Alive) <==> (disp(a, row - 1, n.height) < 3
        && disp(b, col + 1, n.width) < 1)) by {
        lemma_next_at(m, a, b);
        lemma_rect_neighbors(m, row, 1, col, 3, a, b);
        let x = band_count(disp(a, row, m.height), 1, m.height as int);
        let y = band_count(disp(b, col, m.width), 3, m.width as int);
        lemma_band_count(disp(a, row, m.height), 1, m.height as int);
        lemma_band_count(disp(b, col, m.width), 3, m.width as int);
        lemma_product_cases(x, y);
        lemma_mod_shift(a - row, 1, m.height as int);
        lemma_mod_shift(b - col, -1, m.width as int);
        lemma_step(disp(a, row, m.height), m.height as int);
        lemma_step(disp(b, col, m.width), m.width as int);
    }
}

/// A vertical blinker (the 3 cells from `(row, col)` downwards) turns into
/// the horizontal one through its middle cell.
proof fn lemma_blinker_turns_horizontal(m: GridModel, row: int, col: int)
    requires
        m.wf(),
        m.height >= 5,
        m.width >= 5,
        m.is_rect(row, 3, col, 1),
    ensures
        m.next_generation().is_rect(row + 1, 1, col - 1, 3),
{
    let n = m.next_generation();
    assert forall|a: int, b: int| n.in_range(a, b) implies ((#[trigger] n.at(a, b) == Cell::Alive) <==> (disp(a, row + 1, n.height) < 1
        && disp(b, col - 1, n.width) < 3)) by {
        lemma_next_at(m, a, b);
        lemma_rect_neighbors(m, row, 3, col, 1, a, b);
        let x = band_count(disp(a, row, m.height), 3, m.height as int);
        let y = band_count(disp(b, col, m.width), 1, m.width as int);
        lemma_band_count(disp(a, row, m.height), 3, m.height as int);
        lemma_band_count(disp(b, col, m.width), 1, m.width as int);
        lemma_product_cases(x, y);
        lemma_mod_shift(b - col, 1, m.width as int);
        lemma_mod_shift(a - row, -1, m.height as int);
        lemma_step(disp(a, row, m.height), m.height as int);
        lemma_step(disp(b, col, m.width), m.width as int);
    }
}

/// Oscillator: on a grid of at least 5 by 5, a horizontal blinker (3 live
/// cells in a row, every other cell dead) is vertical after one generation
/// and back where it started after two.
pub proof fn lemma_blinker_period_two(m: GridModel, row: int, col: int)
    requires
        m.wf(),
        m.height >= 5,
        m.width >= 5,
        m.is_rect(row, 1, col, 3),
    ensures
        m.next_generation().is_rect(row - 1, 3, col + 1, 1),
        m.next_generation().next_generation() == m,
{
    lemma_blinker_turns_vertical(m, row, col);
    let n = m.next_generation();
    lemma_tick_keeps_shape(m);
    lemma_blinker_turns_horizontal(n, row - 1, col + 1);
    lemma_tick_keeps_shape(n);
    assert(row - 1 + 1 == row && col + 1 - 1 == col);
    lemma_rect_unique(n.next_generation(), m, row, 1, col, 3);
}

} // verus!
