use vstd::prelude::*;

verus! {

/// `v` fits in an `i32`.
pub open spec fn in_i32(v: int) -> bool {
    i32::MIN <= v <= i32::MAX
}

/// The two's-complement value of the low 32 bits of `v`.
pub open spec fn wrap_i32(v: int) -> int {
    v as i32 as int
}

/// The remainder that Rust's `%` gives on signed integers: its magnitude is `|x| mod |d|`
/// and it takes the sign of `x` (`%` on `int` is Euclidean, so `a % d` is `a mod |d|`).
pub open spec fn trunc_rem(x: int, d: int) -> int {
    if x >= 0 {
        x % d
    } else {
        -((-x) % d)
    }
}

/// The remainder of `x` by `d`, moved up by `d` when it is negative.
pub open spec fn pos_mod(x: int, d: int) -> int {
    if trunc_rem(x, d) < 0 {
        trunc_rem(x, d) + d
    } else {
        trunc_rem(x, d)
    }
}

/// `%` does not panic on these operands.
pub open spec fn rem_defined(x: i32, d: i32) -> bool {
    d != 0 && !(x == i32::MIN && d == -1)
}

/// `pos_modulo` computes this component without overflow.
pub open spec fn pos_mod_defined(x: i32, d: i32) -> bool {
    rem_defined(x, d) && (trunc_rem(x as int, d as int) < 0 ==> in_i32(trunc_rem(x as int, d as int) + d))
}

/// The axis swap that `swap_axes` performs.
pub open spec fn swapped(v: (i32, i32, i32), axis: i32) -> (i32, i32, i32) {
    if axis == 0 {
        (v.0, v.2, v.1)
    } else if axis == 1 {
        (v.2, v.1, v.0)
    } else if axis == 2 {
        (v.1, v.0, v.2)
    } else {
        v
    }
}

/// Swapping the same pair of axes twice gives back the triple.
pub proof fn law_swap_axes_involution(v: (i32, i32, i32), axis: i32)
    ensures
        swapped(swapped(v, axis), axis) == v,
{
}

/// For a positive divider, `pos_modulo` gives the remainder of floor division: it lies in
/// `0 .. d` and differs from `x` by a multiple of `d`.
pub proof fn law_pos_mod_floor(x: int, d: int)
    requires
        d > 0,
    ensures
        pos_mod(x, d) == x % d,
        0 <= pos_mod(x, d) < d,
        (x - pos_mod(x, d)) % d == 0,
{
    if x < 0 {
        let r = (-x) % d;
        let q = (-x) / d;
        vstd::arithmetic::div_mod::lemma_fundamental_div_mod(-x, d);
        assert(-x == d * q + r);
        if r == 0 {
            assert(x == (-q) * d) by (nonlinear_arith)
                requires
                    -x == d * q + r,
                    r == 0,
            ;
            assert(x % d == 0) by {
                vstd::arithmetic::div_mod::lemma_mod_multiples_basic(-q, d);
            }
        } else {
            assert(x == (-q - 1) * d + (d - r)) by (nonlinear_arith)
                requires
                    -x == d * q + r,
            ;
            vstd::arithmetic::div_mod::lemma_fundamental_div_mod_converse(x, d, -q - 1, d - r);
        }
    }
    vstd::arithmetic::div_mod::lemma_mod_sub_multiples_vanish(x, d);
    assert((x - x % d) % d == 0) by {
        vstd::arithmetic::div_mod::lemma_fundamental_div_mod(x, d);
        vstd::arithmetic::div_mod::lemma_mod_multiples_basic(x / d, d);
    }
}

/// Componentwise arithmetic on integer triples.
pub trait I32x3Extension: Sized + View<V = (i32, i32, i32)> {
    fn add(self, other: (i32, i32, i32)) -> (r: (i32, i32, i32))
        requires
            in_i32(self@.0 + other.0),
            in_i32(self@.1 + other.1),
            in_i32(self@.2 + other.2),
        ensures
            r.0 == self@.0 + other.0,
            r.1 == self@.1 + other.1,
            r.2 == self@.2 + other.2,
    ;

    fn sub(self, other: (i32, i32, i32)) -> (r: (i32, i32, i32))
        requires
            in_i32(self@.0 - other.0),
            in_i32(self@.1 - other.1),
            in_i32(self@.2 - other.2),
        ensures
            r.0 == self@.0 - other.0,
            r.1 == self@.1 - other.1,
            r.2 == self@.2 - other.2,
    ;

    fn times(self, multiplier: i32) -> (r: (i32, i32, i32))
        requires
            in_i32(self@.0 * multiplier),
            in_i32(self@.1 * multiplier),
            in_i32(self@.2 * multiplier),
        ensures
            r.0 == self@.0 * multiplier,
            r.1 == self@.1 * multiplier,
            r.2 == self@.2 * multiplier,
    ;

    fn swap_axes(self, axis: i32) -> (r: (i32, i32, i32))
        ensures
            r == swapped(self@, axis),
    ;

    fn product(self, other: (i32, i32, i32)) -> (r: (i32, i32, i32))
        requires
            in_i32(self@.0 * other.0),
            in_i32(self@.1 * other.1),
            in_i32(self@.2 * other.2),
        ensures
            r.0 == self@.0 * other.0,
            r.1 == self@.1 * other.1,
            r.2 == self@.2 * other.2,
    ;

    fn pos_modulo(self, divider: i32) -> (r: (i32, i32, i32))
        requires
            pos_mod_defined(self@.0, divider),
            pos_mod_defined(self@.1, divider),
            pos_mod_defined(self@.2, divider),
        ensures
            r.0 == pos_mod(self@.0 as int, divider as int),
            r.1 == pos_mod(self@.1 as int, divider as int),
            r.2 == pos_mod(self@.2 as int, divider as int),
    ;
}

impl I32x3Extension for (i32, i32, i32) {
    fn add(self, other: (i32, i32, i32)) -> (r: (i32, i32, i32)) {
        (self.0 + other.0, self.1 + other.1, self.2 + other.2)
    }

    fn sub(self, other: (i32, i32, i32)) -> (r: (i32, i32, i32)) {
        (self.0 - other.0, self.1 - other.1, self.2 - other.2)
    }

    fn product(self, other: (i32, i32, i32)) -> (r: (i32, i32, i32)) {
        (self.0 * other.0, self.1 * other.1, self.2 * other.2)
    }

    fn times(self, multiplier: i32) -> (r: (i32, i32, i32)) {
        (self.0 * multiplier, self.1 * multiplier, self.2 * multiplier)
    }

    fn pos_modulo(self, divider: i32) -> (r: (i32, i32, i32)) {
        let mut ret = (self.0 % divider, self.1 % divider, self.2 % divider);
        assert(ret.0 == trunc_rem(self.0 as int, divider as int));
        assert(ret.1 == trunc_rem(self.1 as int, divider as int));
        assert(ret.2 == trunc_rem(self.2 as int, divider as int));
        if ret.0 < 0 {
            ret.0 = ret.0 + divider;
        }
        if ret.1 < 0 {
            ret.1 = ret.1 + divider;
        }
        if ret.2 < 0 {
            ret.2 = ret.2 + divider;
        }
        ret
    }

    fn swap_axes(self, axis: i32) -> (r: (i32, i32, i32)) {
        if axis == 0 {
            (self.0, self.2, self.1)
        } else if axis == 1 {
            (self.2, self.1, self.0)
        } else if axis == 2 {
            (self.1, self.0, self.2)
        } else {
            self
        }
    }
}

} // verus!
