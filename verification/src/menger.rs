//! The cells of a Menger sponge: at each level a cube is cut into 3 x 3 x 3
//! sub-cubes, of which the centre one and the centres of the six faces are
//! taken away.
use vstd::prelude::*;

verus! {

/// The deepest level of a sponge that is ever traced; deeper levels are
/// traced at this one.
pub const MAX_TRACED_LEVEL: usize = 5;

/// The level at which a sponge of `level` is traced.
pub fn traced_level(level: usize) -> (l: usize)
    ensures
        l == if level <= MAX_TRACED_LEVEL {
            level
        } else {
            MAX_TRACED_LEVEL
        },
{
    if level <= MAX_TRACED_LEVEL {
        level
    } else {
        MAX_TRACED_LEVEL
    }
}

/// How many coordinates of a sub-cube are the middle one.
pub open spec fn middles(c: (usize, usize, usize)) -> nat {
    (if c.0 == 1 {
        1nat
    } else {
        0nat
    }) + (if c.1 == 1 {
        1nat
    } else {
        0nat
    }) + (if c.2 == 1 {
        1nat
    } else {
        0nat
    })
}

/// A sub-cube stays where at most one of its coordinates is the middle one.
pub open spec fn stays(c: (usize, usize, usize)) -> bool {
    middles(c) < 2
}

/// Sub-cube `n` of 27, counted with the last coordinate fastest.
pub open spec fn cell_number(n: nat) -> (usize, usize, usize) {
    ((n / 9) as usize, ((n / 3) % 3) as usize, (n % 3) as usize)
}

/// The sub-cubes among the first `n` that stay, in order.
pub open spec fn cells_below(n: nat) -> Seq<(usize, usize, usize)>
    decreases n,
{
    if n == 0 {
        seq![]
    } else if stays(cell_number((n - 1) as nat)) {
        cells_below((n - 1) as nat).push(cell_number((n - 1) as nat))
    } else {
        cells_below((n - 1) as nat)
    }
}

/// The sub-cubes of a cube that a sponge keeps, in the order in which they
/// are visited.
pub fn menger_cells() -> (cells: Vec<(usize, usize, usize)>)
    ensures
        cells@ == cells_below(27),
{
    let mut cells: Vec<(usize, usize, usize)> = Vec::new();
    let mut i: usize = 0;
    while i < 3
        invariant
            i <= 3,
            cells@ == cells_below(9 * i as nat),
        decreases 3 - i,
    {
        let mut j: usize = 0;
        while j < 3
            invariant
                i < 3,
                j <= 3,
                cells@ == cells_below((9 * i + 3 * j) as nat),
            decreases 3 - j,
        {
            let mut k: usize = 0;
            while k < 3
                invariant
                    i < 3,
                    j < 3,
                    k <= 3,
                    cells@ == cells_below((9 * i + 3 * j + k) as nat),
                decreases 3 - k,
            {
                let n: Ghost<nat> = Ghost((9 * i + 3 * j + k) as nat);
                assert(cell_number(n@) == (i, j, k));
                let count = (if i == 1 {
                    1usize
                } else {
                    0
                }) + (if j == 1 {
                    1usize
                } else {
                    0
                }) + (if k == 1 {
                    1usize
                } else {
                    0
                });
                if count < 2 {
                    cells.push((i, j, k));
                }
                k += 1;
            }
            j += 1;
        }
        i += 1;
    }
    cells
}

/// A sponge keeps twenty of the twenty-seven sub-cubes: exactly those with
/// at most one middle coordinate, each once.
pub proof fn lemma_menger_cells()
    ensures
        cells_below(27).len() == 20,
        forall|n: nat| n < 27 ==> (#[trigger] cells_below(27).contains(cell_number(n)) <==> stays(
            cell_number(n),
        )),
        forall|a: int, b: int|
            0 <= a < b < 20 ==> (#[trigger] cells_below(27)[a]) != (#[trigger] cells_below(27)[b]),
{
    lemma_cells_below(27);
    reveal_with_fuel(cells_below, 28);
    assert(cells_below(27).len() == 20);
}

proof fn lemma_cell_number_injective(m1: nat, m2: nat)
    requires
        m1 < 27,
        m2 < 27,
        cell_number(m1) == cell_number(m2),
    ensures
        m1 == m2,
{
    assert(m1 / 9 == m2 / 9);
    assert((m1 / 3) % 3 == (m2 / 3) % 3);
    assert(m1 % 3 == m2 % 3);
}

proof fn lemma_cells_below(n: nat)
    requires
        n <= 27,
    ensures
        forall|m: nat| m < 27 ==> (#[trigger] cells_below(n).contains(cell_number(m)) <==> (m < n
            && stays(cell_number(m)))),
        forall|a: int, b: int|
            0 <= a < b < cells_below(n).len() ==> (#[trigger] cells_below(n)[a]) != (
            #[trigger] cells_below(n)[b]),
        forall|a: int|
            #![trigger cells_below(n)[a]]
            0 <= a < cells_below(n).len() ==> exists|m: nat|
                m < n && #[trigger] cell_number(m) == cells_below(n)[a],
    decreases n,
{
    if n > 0 {
        let k = (n - 1) as nat;
        lemma_cells_below(k);
        let prev = cells_below(k);
        let c = cell_number(k);
        let cur = cells_below(n);
        assert forall|m: nat| m < 27 implies (#[trigger] cur.contains(cell_number(m)) <==> (m < n
            && stays(cell_number(m)))) by {
            if cell_number(m) == c {
                lemma_cell_number_injective(m, k);
            }
            if stays(c) {
                assert(cur == prev.push(c));
                if cur.contains(cell_number(m)) {
                    let a = choose|a: int| 0 <= a < cur.len() && cur[a] == cell_number(m);
                    if a < prev.len() {
                        assert(prev[a] == cur[a]);
                        assert(prev.contains(cell_number(m)));
                    }
                }
                if m < n && stays(cell_number(m)) {
                    if m < k {
                        assert(prev.contains(cell_number(m)));
                        let a = choose|a: int| 0 <= a < prev.len() && prev[a] == cell_number(m);
                        assert(cur[a] == cell_number(m));
                    } else {
                        assert(cur[prev.len() as int] == c);
                    }
                }
            }
        }
        assert forall|a: int, b: int| 0 <= a < b < cur.len() implies (#[trigger] cur[a]) != (
        #[trigger] cur[b]) by {
            if stays(c) && b == prev.len() {
                assert(cur[a] == prev[a]);
                let m = choose|m: nat| m < k && #[trigger] cell_number(m) == prev[a];
                if cur[a] == cur[b] {
                    lemma_cell_number_injective(m, k);
                }
            } else {
                assert(cur[a] == prev[a]);
                assert(cur[b] == prev[b]);
            }
        }
        assert forall|a: int| #![trigger cur[a]] 0 <= a < cur.len() implies exists|m: nat|
            m < n && #[trigger] cell_number(m) == cur[a] by {
            if stays(c) && a == prev.len() {
                assert(cell_number(k) == cur[a]);
            } else {
                assert(cur[a] == prev[a]);
                let m = choose|m: nat| m < k && #[trigger] cell_number(m) == prev[a];
                assert(cell_number(m) == cur[a]);
            }
        }
    }
}

} // verus!
