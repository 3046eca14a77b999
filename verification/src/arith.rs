use vstd::prelude::*;

verus! {

/// Division rounded toward negative infinity, for a positive divisor.
pub fn floor_div(a: i64, b: i64) -> (q: i64)
    requires
        b > 0,
    ensures
        q == a as int / b as int,
{
    if a >= 0 {
        a / b
    } else {
        let n: i64 = -(a + 1);
        let p: i64 = n / b;
        let q: i64 = -p - 1;
        assert(q as int == a as int / b as int) by (nonlinear_arith)
            requires
                q == -p - 1,
                p == n as int / b as int,
                n == -(a + 1),
                a < 0,
                b > 0,
        ;
        q
    }
}

/// Whether `x` is representable as an `i32`.
pub open spec fn fits_i32(x: int) -> bool {
    i32::MIN <= x <= i32::MAX
}

} // verus!
