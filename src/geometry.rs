//! Index lists of generated shapes.

use vstd::prelude::*;
use vstd::arithmetic::div_mod::lemma_fundamental_div_mod_converse;

verus! {

/// Largest subdivision count of a UV sphere whose indices fit in `u32`.
pub const MAX_SPHERE_ITERATIONS: usize = 0x3fff;

/// The `i`-th index of a UV sphere of `it` latitude and `it` longitude
/// bands over an `(it + 1) × (it + 1)` vertex grid: six per cell, the
/// triangles `first, second, first + 1` and `second, second + 1, first + 1`,
/// where `first` is the cell's corner and `second` the one a row below.
pub open spec fn sphere_index(it: int, i: int) -> int {
    let q = i / 6;
    let lat = q / it;
    let lon = q % it;
    let first = lat * (it + 1) + lon;
    let second = first + it + 1;
    let p = i % 6;
    if p == 0 {
        first
    } else if p == 1 {
        second
    } else if p == 2 {
        first + 1
    } else if p == 3 {
        second
    } else if p == 4 {
        second + 1
    } else {
        first + 1
    }
}

pub open spec fn sphere_indices_spec(it: int) -> Seq<u32> {
    Seq::new((6 * it * it) as nat, |i: int| sphere_index(it, i) as u32)
}

/// Triangle indices of a UV sphere with `iterations` bands each way.
pub fn sphere_indices(iterations: usize) -> (r: Vec<u32>)
    requires
        iterations <= MAX_SPHERE_ITERATIONS,
    ensures
        r@ == sphere_indices_spec(iterations as int),
{
    let it = iterations;
    let ghost n = it as int;
    let mut indices: Vec<u32> = Vec::new();
    let mut lat: usize = 0;
    while lat < it
        invariant
            n == it as int,
            it <= MAX_SPHERE_ITERATIONS,
            lat <= it,
            indices@ =~= Seq::new((6 * lat * it) as nat, |i: int| sphere_index(n, i) as u32),
        decreases it - lat,
    {
        let mut lon: usize = 0;
        assert(6 * (lat * it + 0) == 6 * lat * it) by (nonlinear_arith);
        while lon < it
            invariant
                n == it as int,
                it <= MAX_SPHERE_ITERATIONS,
                lat < it,
                lon <= it,
                indices@ =~= Seq::new((6 * (lat * it + lon)) as nat, |i: int| sphere_index(n, i) as u32),
            decreases it - lon,
        {
            assert(lat * (it + 1) + lon + it + 2 <= 0x1000_0000) by (nonlinear_arith)
                requires lat < it, lon < it, it <= 0x3fff;
            let first = lat * (it + 1) + lon;
            let second = first + it + 1;
            let ghost q = (lat * it + lon) as int;
            proof {
                lemma_fundamental_div_mod_converse(q, n, lat as int, lon as int);
                assert(lat * it + lon < it * it) by (nonlinear_arith)
                    requires lat < it, lon < it;
            }
            let ghost before = indices@;
            indices.push(first as u32);
            indices.push(second as u32);
            indices.push((first + 1) as u32);
            indices.push(second as u32);
            indices.push((second + 1) as u32);
            indices.push((first + 1) as u32);
            proof {
                assert forall|i: int| 6 * q <= i < 6 * q + 6 implies (i / 6 == q && #[trigger] (i % 6) == i - 6 * q) by {
                }
                assert(6 * (lat * it + lon + 1) == 6 * q + 6);
            }
            lon += 1;
        }
        assert(6 * (lat * it + it) == 6 * (lat + 1) * it) by (nonlinear_arith);
        lat += 1;
    }
    assert(0 * it == 0);
    indices
}

} // verus!
