use vstd::prelude::*;

use crate::inputs::Coords;

verus! {

/// Whether `c` lies on the left of the line through `c_min` and `c_max`.
/// A point at the height of an endpoint is on the left when it is left of
/// that endpoint.
pub open spec fn left_of_line(c_min: Coords, c_max: Coords, c: Coords) -> bool {
    if c.y == c_max.y {
        c.x < c_max.x
    } else if c.y == c_min.y {
        c.x < c_min.x
    } else {
        (c_min.x - c_max.x) * (c.y - c_max.y) < (c_min.y - c_max.y) * (c.x - c_max.x)
    }
}

/// Whether `c` lies on the left of the line through `c_min` and `c_max`,
/// computed exactly.
pub fn is_left_of_line(c_min: Coords, c_max: Coords, c: Coords) -> (r: bool)
    ensures
        r == left_of_line(c_min, c_max, c),
{
    if c.y == c_max.y {
        c.x < c_max.x
    } else if c.y == c_min.y {
        c.x < c_min.x
    } else {
        let a = (c_min.x as i64 - c_max.x as i64) as i128;
        let b = (c.y as i64 - c_max.y as i64) as i128;
        let d = (c_min.y as i64 - c_max.y as i64) as i128;
        let e = (c.x as i64 - c_max.x as i64) as i128;
        assert(-0x1_0000_0000 < a < 0x1_0000_0000 && -0x1_0000_0000 < b < 0x1_0000_0000);
        assert(-0x1_0000_0000 < d < 0x1_0000_0000 && -0x1_0000_0000 < e < 0x1_0000_0000);
        assert(-0x1_0000_0000_0000_0000 < a * b < 0x1_0000_0000_0000_0000) by (nonlinear_arith)
            requires
                -0x1_0000_0000 < a < 0x1_0000_0000,
                -0x1_0000_0000 < b < 0x1_0000_0000,
        ;
        assert(-0x1_0000_0000_0000_0000 < d * e < 0x1_0000_0000_0000_0000) by (nonlinear_arith)
            requires
                -0x1_0000_0000 < d < 0x1_0000_0000,
                -0x1_0000_0000 < e < 0x1_0000_0000,
        ;
        a * b < d * e
    }
}

/// `floor(log2(n))` for `n >= 1`, and 0 for `n == 0`.
pub open spec fn log2_floor(n: nat) -> nat
    decreases n,
{
    if n <= 1 {
        0
    } else {
        1 + log2_floor(n / 2)
    }
}

/// [log2_floor] applied `h` times to `n`.
pub open spec fn log2_iter(n: nat, h: nat) -> nat
    decreases h,
{
    if h == 0 {
        n
    } else {
        log2_floor(log2_iter(n, (h - 1) as nat))
    }
}

/// `n` divided by the `h`-times iterated logarithm of `n`, rounded up;
/// the largest `usize` once that logarithm reaches 0.
pub open spec fn iterated_log_quotient(n: nat, h: nat) -> nat {
    let d = log2_iter(n, h);
    if d == 0 {
        usize::MAX as nat
    } else {
        n / d + if n % d == 0 { 0nat } else { 1nat }
    }
}

/// The integer logarithm never exceeds its argument.
pub proof fn lemma_log2_floor_le(n: nat)
    ensures
        log2_floor(n) <= n,
        n >= 1 ==> log2_floor(n) < n,
    decreases n,
{
    if n > 1 {
        lemma_log2_floor_le(n / 2);
    }
}

/// `floor(log2(n))`.
fn log2_floor_exec(n: usize) -> (r: usize)
    ensures
        r == log2_floor(n as nat),
{
    let mut x = n;
    let mut k: usize = 0;
    while x > 1
        invariant
            k + log2_floor(x as nat) == log2_floor(n as nat),
            k <= n,
            x <= n,
            x >= 1 ==> k + x <= n,
        decreases x,
    {
        x = x / 2;
        k = k + 1;
    }
    k
}

/// `n` divided by the `h`-times iterated base-2 logarithm of `n`, rounded
/// up (see [iterated_log_quotient]): the number of steps after which the
/// `h`-th refresh of point locations falls due. Each logarithm is rounded
/// down to an integer, so the schedule can run a step or so later than
/// with real logarithms (17 steps rather than 16 for `n = 100`, `h = 1`),
/// and once the rounded logarithm reaches 0 no further refresh falls due
/// (`usize::MAX`, as for `n = 3`, `h = 2`). The schedule only decides when
/// point locations are refreshed, never the result.
pub fn math_n(n: usize, h: usize) -> (r: usize)
    ensures
        r == iterated_log_quotient(n as nat, h as nat),
{
    let mut d = n;
    let mut i: usize = 0;
    while i < h
        invariant
            i <= h,
            d == log2_iter(n as nat, i as nat),
        decreases h - i,
    {
        proof {
            lemma_log2_floor_le(d as nat);
        }
        d = log2_floor_exec(d);
        i = i + 1;
    }
    if d == 0 {
        usize::MAX
    } else {
        proof {
            assert(n / d <= n) by (nonlinear_arith)
                requires
                    d >= 1,
            ;
            if n % d != 0 {
                assert(n / d < n) by (nonlinear_arith)
                    requires
                        d >= 1,
                        n % d != 0,
                ;
            }
        }
        n / d + if n % d == 0 { 0 } else { 1 }
    }
}

} // verus!
