//! The control of the escape-time evaluator: the walk over the pixels of a
//! grid and the iteration of one point under a budget. The arithmetic of the
//! plane is the caller's, handed in as functions.

use vstd::prelude::*;

verus! {

/// Whether `orbit` is a run of the iteration from `start`: each point but the
/// last was tested, had not escaped, and was stepped to the next.
pub open spec fn is_orbit<Z, E: Fn(&Z) -> bool, S: Fn(Z) -> Z>(
    orbit: Seq<Z>,
    start: Z,
    escaped: E,
    step: S,
) -> bool {
    &&& orbit.len() >= 1
    &&& orbit[0] == start
    &&& forall|k: int|
        0 <= k < orbit.len() - 1 ==> call_ensures(escaped, (&#[trigger] orbit[k],), false)
            && call_ensures(step, (orbit[k],), orbit[k + 1])
}

/// Iterates `step` from `start` until a point has escaped or `max_iters`
/// steps are done. A point is tested before it is stepped, the starting
/// point too. The result is the number of steps done and the point reached:
/// below `max_iters` that point has escaped, and at `max_iters` it was not
/// tested.
pub fn mandelbrot_at_point<Z, E: Fn(&Z) -> bool, S: Fn(Z) -> Z>(
    start: Z,
    max_iters: usize,
    escaped: E,
    step: S,
) -> (result: (usize, Z))
    requires
        forall|z: Z| call_requires(escaped, (&z,)),
        forall|z: Z| call_requires(step, (z,)),
    ensures
        result.0 <= max_iters,
        result.0 < max_iters ==> call_ensures(escaped, (&result.1,), true),
        exists|orbit: Seq<Z>|
            is_orbit(orbit, start, escaped, step) && orbit.len() == result.0 + 1 && orbit.last()
                == result.1,
{
    let mut z = start;
    let ghost mut orbit: Seq<Z> = seq![start];
    let mut i: usize = 0;
    while i < max_iters
        invariant
            i <= max_iters,
            forall|z: Z| call_requires(escaped, (&z,)),
            forall|z: Z| call_requires(step, (z,)),
            is_orbit(orbit, start, escaped, step),
            orbit.len() == i + 1,
            orbit.last() == z,
        decreases max_iters - i,
    {
        if escaped(&z) {
            return (i, z);
        }
        let ghost before = orbit;
        z = step(z);
        proof {
            orbit = before.push(z);
            assert forall|k: int| 0 <= k < orbit.len() - 1 implies call_ensures(
                escaped,
                (&#[trigger] orbit[k],),
                false,
            ) && call_ensures(step, (orbit[k],), orbit[k + 1]) by {
                if k < before.len() - 1 {
                    assert(orbit[k] == before[k]);
                    assert(orbit[k + 1] == before[k + 1]);
                }
            }
        }
        i += 1;
    }
    (i, z)
}

/// Evaluates `point` at every pixel of a grid of `width` by `height` pixels,
/// at column `x` and row `y` as `point(x, y)`. The two grids hold what it
/// gave, row by row: each has `height` rows of `width` entries.
pub fn calculate_mandelbrot<M, F: Fn(usize, usize) -> (usize, M)>(
    width: usize,
    height: usize,
    point: F,
) -> (grids: (Vec<Vec<usize>>, Vec<Vec<M>>))
    requires
        forall|x: usize, y: usize| x < width && y < height ==> call_requires(point, (x, y)),
    ensures
        grids.0@.len() == height,
        grids.1@.len() == height,
        forall|y: int| 0 <= y < height ==> (#[trigger] grids.0@[y])@.len() == width,
        forall|y: int| 0 <= y < height ==> (#[trigger] grids.1@[y])@.len() == width,
        forall|y: int, x: int|
            #![trigger grids.0@[y]@[x]]
            #![trigger grids.1@[y]@[x]]
            0 <= y < height && 0 <= x < width ==> call_ensures(
                point,
                (x as usize, y as usize),
                (grids.0@[y]@[x], grids.1@[y]@[x]),
            ),
{
    let mut iterations: Vec<Vec<usize>> = Vec::new();
    let mut z_norms: Vec<Vec<M>> = Vec::new();
    let mut y: usize = 0;
    while y < height
        invariant
            y <= height,
            forall|x: usize, y: usize| x < width && y < height ==> call_requires(point, (x, y)),
            iterations@.len() == y,
            z_norms@.len() == y,
            forall|r: int| 0 <= r < y ==> (#[trigger] iterations@[r])@.len() == width,
            forall|r: int| 0 <= r < y ==> (#[trigger] z_norms@[r])@.len() == width,
            forall|r: int, c: int|
                #![trigger iterations@[r]@[c]]
                #![trigger z_norms@[r]@[c]]
                0 <= r < y && 0 <= c < width ==> call_ensures(
                    point,
                    (c as usize, r as usize),
                    (iterations@[r]@[c], z_norms@[r]@[c]),
                ),
        decreases height - y,
    {
        let mut iter_row: Vec<usize> = Vec::new();
        let mut norm_row: Vec<M> = Vec::new();
        let mut x: usize = 0;
        while x < width
            invariant
                x <= width,
                y < height,
                forall|x: usize, y: usize| x < width && y < height ==> call_requires(point, (x, y)),
                iter_row@.len() == x,
                norm_row@.len() == x,
                forall|c: int|
                    #![trigger iter_row@[c]]
                    #![trigger norm_row@[c]]
                    0 <= c < x ==> call_ensures(
                        point,
                        (c as usize, y),
                        (iter_row@[c], norm_row@[c]),
                    ),
            decreases width - x,
        {
            let (count, norm) = point(x, y);
            iter_row.push(count);
            norm_row.push(norm);
            x += 1;
        }
        iterations.push(iter_row);
        z_norms.push(norm_row);
        y += 1;
    }
    (iterations, z_norms)
}

} // verus!
