use vstd::prelude::*;

verus! {

/// Offsets from the anchor of the upper-right quarter of a pulsar.
pub open spec fn pulsar_seed() -> Seq<(int, int)> {
    seq![(6, 4), (6, 3), (6, 2), (4, 6), (4, 1), (3, 6), (3, 1), (2, 6), (2, 1), (1, 4), (1, 3), (1, 2)]
}

/// Offset from the anchor of element `k` of a pulsar (`k < 48`): the seed,
/// then its mirror across the anchor column, then the mirrors of those
/// across the anchor row.
pub open spec fn pulsar_offset(k: int) -> (int, int) {
    let d = pulsar_seed()[k % 12];
    (if k < 24 { d.0 } else { -d.0 }, if (k / 12) % 2 == 0 { d.1 } else { -d.1 })
}

/// The 48 coordinates of a pulsar anchored at `(row, col)` on a grid of the
/// given size, wrapping round both edges.
pub open spec fn pulsar_coords(row: int, col: int, height: nat, width: nat) -> Seq<(u32, u32)> {
    Seq::new(
        48,
        |k: int|
            (
                ((row + pulsar_offset(k).0) % (height as int)) as u32,
                ((col + pulsar_offset(k).1) % (width as int)) as u32,
            ),
    )
}

/// Mirroring the wrapped position `a + d` across `a` gives the wrapped
/// position `a - d`.
pub proof fn lemma_mirror(a: int, d: int, n: int)
    requires
        0 <= a < n,
    ensures
        0 <= 2 * a + n - ((a + d) % n) < 3 * n,
        (2 * a + n - ((a + d) % n)) % n == (a - d) % n,
{
    vstd::arithmetic::div_mod::lemma_fundamental_div_mod(a + d, n);
    let q = (a + d) / n;
    let m = (a + d) % n;
    assert(2 * a + n - m == n * (1 + q) + (a - d)) by (nonlinear_arith)
        requires a + d == n * q + m;
    vstd::arithmetic::div_mod::lemma_mod_multiples_vanish(1 + q, a - d, n);
}

fn seed() -> (r: Vec<(u32, u32)>)
    ensures
        r@.len() == 12,
        forall|k: int| 0 <= k < 12 ==> (#[trigger] r@[k]).0 as int == pulsar_seed()[k].0 && r@[k].1 as int == pulsar_seed()[k].1,
{
    let mut s: Vec<(u32, u32)> = Vec::new();
    s.push((6, 4));
    s.push((6, 3));
    s.push((6, 2));
    s.push((4, 6));
    s.push((4, 1));
    s.push((3, 6));
    s.push((3, 1));
    s.push((2, 6));
    s.push((2, 1));
    s.push((1, 4));
    s.push((1, 3));
    s.push((1, 2));
    s
}

/// The coordinates of a pulsar anchored at `(row, column)`: the seed quarter
/// moved to the anchor, mirrored across the anchor column to make the top
/// half, and the top half mirrored across the anchor row.
pub fn pulsar_coordinates(row: u32, column: u32, height: u32, width: u32) -> (r: Vec<(u32, u32)>)
    requires
        row < height,
        column < width,
    ensures
        r@ == pulsar_coords(row as int, column as int, height as nat, width as nat),
{
    let ghost target = pulsar_coords(row as int, column as int, height as nat, width as nat);
    let h = height as u64;
    let w = width as u64;
    let offsets = seed();
    let mut pulsar: Vec<(u32, u32)> = Vec::new();
    let mut k: usize = 0;
    while k < 12
        invariant
            offsets@.len() == 12,
            forall|k: int| 0 <= k < 12 ==> (#[trigger] offsets@[k]).0 as int == pulsar_seed()[k].0 && offsets@[k].1 as int == pulsar_seed()[k].1,
            target == pulsar_coords(row as int, column as int, height as nat, width as nat),
            h == height,
            w == width,
            row < height,
            column < width,
            k <= 12,
            pulsar@.len() == k,
            forall|j: int| 0 <= j < k ==> #[trigger] pulsar@[j] == target[j],
        decreases 12 - k,
    {
        let (dr, dc) = offsets[k];
        pulsar.push((((row as u64 + dr as u64) % h) as u32, ((column as u64 + dc as u64) % w) as u32));
        k = k + 1;
    }
    let mut k: usize = 0;
    while k < 12
        invariant
            target == pulsar_coords(row as int, column as int, height as nat, width as nat),
            h == height,
            w == width,
            row < height,
            column < width,
            k <= 12,
            pulsar@.len() == 12 + k,
            forall|j: int| 0 <= j < 12 + k ==> #[trigger] pulsar@[j] == target[j],
        decreases 12 - k,
    {
        let (r, c) = pulsar[k];
        proof {
            let d = pulsar_seed()[k as int];
            assert(pulsar@[k as int] == target[k as int]);
            lemma_mirror(column as int, d.1, width as int);
            vstd::arithmetic::div_mod::lemma_small_mod(r as nat, height as nat);
            vstd::arithmetic::div_mod::lemma_fundamental_div_mod_converse(12 + k as int, 12, 1, k as int);
            assert(pulsar_offset(12 + k as int) == (d.0, -d.1));
        }
        pulsar.push((((r as u64) % h) as u32, ((2 * column as u64 + w - c as u64) % w) as u32));
        k = k + 1;
    }
    let mut k: usize = 0;
    while k < 24
        invariant
            target == pulsar_coords(row as int, column as int, height as nat, width as nat),
            h == height,
            w == width,
            row < height,
            column < width,
            k <= 24,
            pulsar@.len() == 24 + k,
            forall|j: int| 0 <= j < 24 + k ==> #[trigger] pulsar@[j] == target[j],
        decreases 24 - k,
    {
        let (r, c) = pulsar[k];
        proof {
            let d = pulsar_seed()[k as int % 12];
            vstd::arithmetic::div_mod::lemma_fundamental_div_mod(k as int, 12);
            vstd::arithmetic::div_mod::lemma_fundamental_div_mod_converse(
                24 + k as int, 12, 2 + k as int / 12, k as int % 12);
            assert(pulsar@[k as int] == target[k as int]);
            lemma_mirror(row as int, d.0, height as int);
            vstd::arithmetic::div_mod::lemma_small_mod(c as nat, width as nat);
            assert(pulsar_offset(24 + k as int).0 == -d.0);
            assert(pulsar_offset(24 + k as int).1 == pulsar_offset(k as int).1);
        }
        pulsar.push((((2 * row as u64 + h - r as u64) % h) as u32, ((c as u64) % w) as u32));
        k = k + 1;
    }
    assert(pulsar@ =~= target);
    pulsar
}

} // verus!
