//! Three-component vectors over fixed-point scalars.
//!
//! `Vec3` serves as position, direction and RGB colour alike.  Every method
//! is mirrored by a spec function over the ghost model `V3`, whose fields are
//! mathematical integers, so contracts state the exact raw values produced.

use vstd::prelude::*;
use vstd::arithmetic::div_mod::{lemma_div_is_ordered, lemma_div_by_multiple, lemma_fundamental_div_mod, lemma_div_pos_is_pos, lemma_div_of0};
use crate::fx::{SCALE, mag, fxm, fxd, isq, is_sqrt, lemma_sqrt_exists, lemma_sqrt_unique, lemma_fxm_bound, lemma_fxd_bound, lemma_fxm_sq_nonneg, fx_mul, fx_div, fx_sqrt};
use crate::rng::rand_sym;

verus! {

/// Operand bound accepted by products: 2^38 raw units.
pub const OPB: i64 = 0x40_0000_0000;

/// Operand bound accepted by sums: 2^61 - 1 raw units.
pub const ADDB: i64 = 0x1FFF_FFFF_FFFF_FFFF;

/// A vector of three fixed-point scalars; also used as a point in space and
/// as an RGB colour.
#[derive(Clone, Copy, Debug, PartialEq, Eq, Structural)]
pub struct Vec3 {
    pub x: i64,
    pub y: i64,
    pub z: i64,
}

/// The mathematical model of a `Vec3`: its raw components as integers.
pub ghost struct V3 {
    pub x: int,
    pub y: int,
    pub z: int,
}

/// The model of a concrete vector.
pub open spec fn v3(v: Vec3) -> V3 {
    V3 { x: v.x as int, y: v.y as int, z: v.z as int }
}

/// Every component has magnitude at most `b`.
pub open spec fn bounded_v(a: V3, b: int) -> bool {
    mag(a.x) <= b && mag(a.y) <= b && mag(a.z) <= b
}

pub open spec fn zero_v() -> V3 {
    V3 { x: 0, y: 0, z: 0 }
}

pub open spec fn add_v(a: V3, b: V3) -> V3 {
    V3 { x: a.x + b.x, y: a.y + b.y, z: a.z + b.z }
}

pub open spec fn sub_v(a: V3, b: V3) -> V3 {
    V3 { x: a.x - b.x, y: a.y - b.y, z: a.z - b.z }
}

pub open spec fn neg_v(a: V3) -> V3 {
    V3 { x: -a.x, y: -a.y, z: -a.z }
}

/// Scalar times vector, componentwise fixed-point product.
pub open spec fn scale_v(s: int, a: V3) -> V3 {
    V3 { x: fxm(s, a.x), y: fxm(s, a.y), z: fxm(s, a.z) }
}

/// Componentwise product, used for colour attenuation.
pub open spec fn mul_v(a: V3, b: V3) -> V3 {
    V3 { x: fxm(a.x, b.x), y: fxm(a.y, b.y), z: fxm(a.z, b.z) }
}

pub open spec fn dot_v(a: V3, b: V3) -> int {
    fxm(a.x, b.x) + fxm(a.y, b.y) + fxm(a.z, b.z)
}

pub open spec fn cross_v(a: V3, b: V3) -> V3 {
    V3 {
        x: fxm(a.y, b.z) - fxm(a.z, b.y),
        y: fxm(a.z, b.x) - fxm(a.x, b.z),
        z: fxm(a.x, b.y) - fxm(a.y, b.x),
    }
}

/// Magnitude of a vector as a raw scalar.
#[verifier::opaque]
pub open spec fn len_v(a: V3) -> int {
    isq(dot_v(a, a) * 65536)
}

/// Scaling to unit length; the zero vector (whose magnitude truncates to
/// zero) is left as the zero vector.
#[verifier::opaque]
pub open spec fn normalise_v(a: V3) -> V3 {
    let l = len_v(a);
    if l == 0 {
        zero_v()
    } else {
        V3 { x: fxd(a.x, l), y: fxd(a.y, l), z: fxd(a.z, l) }
    }
}

/// A squared magnitude is never negative.
pub proof fn lemma_dot_self_nonneg(a: V3)
    ensures
        0 <= fxm(a.x, a.x),
        0 <= fxm(a.y, a.y),
        0 <= fxm(a.z, a.z),
        0 <= dot_v(a, a),
{
    lemma_fxm_sq_nonneg(a.x);
    lemma_fxm_sq_nonneg(a.y);
    lemma_fxm_sq_nonneg(a.z);
}

/// Normalising cannot stretch a component beyond two units: the truncated
/// magnitude under-estimates the true one by less than a raw unit, which
/// costs at most a factor of two on any component.
pub proof fn lemma_normalise_bound(a: V3)
    requires
        bounded_v(a, 0x40_0000_0000),
        1 <= len_v(a),
    ensures
        bounded_v(normalise_v(a), 131072),
{
    reveal(normalise_v);
    lemma_normalise_comp(a, a.x);
    lemma_normalise_comp(a, a.y);
    lemma_normalise_comp(a, a.z);
}

proof fn lemma_normalise_comp(a: V3, c: int)
    requires
        bounded_v(a, 0x40_0000_0000),
        1 <= len_v(a),
        c == a.x || c == a.y || c == a.z,
    ensures
        mag(fxd(c, len_v(a))) <= 131072,
{
    reveal(len_v);
    let d = dot_v(a, a);
    let l = len_v(a);
    lemma_dot_self_nonneg(a);
    let n = d * 65536;
    assert(is_sqrt(n, l)) by {
        lemma_sqrt_exists(n);
    }
    assert(n >= l * l);
    assert(l * l >= 1) by (nonlinear_arith)
        requires
            l >= 1,
    ;
    assert(d >= 1) by {
        lemma_div_pos_is_pos(d * 65536, 65536);
        lemma_div_by_multiple(d, 65536);
        if d <= 0 {
            assert(d * 65536 <= 0) by (nonlinear_arith)
                requires
                    d <= 0,
            ;
        }
    }
    // dot_v(a, a) dominates the truncated square of any single component.
    assert(fxm(c, c) <= d);
    assert(fxm(c, c) == (mag(c) * mag(c)) / 65536);
    assert(mag(c) * mag(c) < (fxm(c, c) + 1) * 65536) by {
        lemma_fundamental_div_mod(mag(c) * mag(c), 65536);
    }
    if mag(c) <= 2 {
        assert(mag(c) <= 2 * l);
    } else if mag(c) <= 511 {
        // Any nonzero truncated magnitude is at least 256 raw units.
        assert(l >= 256) by (nonlinear_arith)
            requires
                (l + 1) * (l + 1) > 65536,
                l >= 1,
        ;
        assert(mag(c) <= 2 * l);
    } else {
        // For larger components the truncation loss is below a quarter of
        // the squared component, so the root keeps more than half of it.
        assert(mag(c) * mag(c) >= 512 * mag(c)) by (nonlinear_arith)
            requires
                mag(c) >= 512,
        ;
        assert(4 * (l + 1) * (l + 1) > 3 * (mag(c) * mag(c))) by (nonlinear_arith)
            requires
                (l + 1) * (l + 1) > d * 65536,
                (fxm(c, c) + 1) * 65536 > mag(c) * mag(c),
                fxm(c, c) <= d,
                65536 <= 128 * mag(c) * 4,
                mag(c) * mag(c) >= 512 * mag(c),
        ;
        assert(mag(c) <= 2 * l) by (nonlinear_arith)
            requires
                4 * (l + 1) * (l + 1) > 3 * (mag(c) * mag(c)),
                mag(c) >= 512,
                l >= 1,
        ;
    }
    assert(mag(fxd(c, l)) == (mag(c) * 65536) / mag(l)) by {
        lemma_fxd_bound(c, l, mag(c));
    }
    assert(mag(c) * 65536 <= 131072 * l);
    lemma_div_is_ordered(mag(c) * 65536, 131072 * l, l);
    lemma_div_by_multiple(131072, l);
    assert((131072 * l) / l == 131072);
}

impl Vec3 {
    /// Builds a vector from its three raw components.
    pub fn new(x: i64, y: i64, z: i64) -> (r: Vec3)
        ensures
            v3(r) == (V3 { x: x as int, y: y as int, z: z as int }),
    {
        Vec3 { x, y, z }
    }

    /// Componentwise sum.
    pub fn add(&self, o: &Vec3) -> (r: Vec3)
        requires
            bounded_v(v3(*self), ADDB as int),
            bounded_v(v3(*o), ADDB as int),
        ensures
            v3(r) == add_v(v3(*self), v3(*o)),
    {
        Vec3 { x: self.x + o.x, y: self.y + o.y, z: self.z + o.z }
    }

    /// Componentwise difference.
    pub fn sub(&self, o: &Vec3) -> (r: Vec3)
        requires
            bounded_v(v3(*self), ADDB as int),
            bounded_v(v3(*o), ADDB as int),
        ensures
            v3(r) == sub_v(v3(*self), v3(*o)),
    {
        Vec3 { x: self.x - o.x, y: self.y - o.y, z: self.z - o.z }
    }

    /// Componentwise negation.
    pub fn neg(&self) -> (r: Vec3)
        requires
            bounded_v(v3(*self), ADDB as int),
        ensures
            v3(r) == neg_v(v3(*self)),
    {
        Vec3 { x: -self.x, y: -self.y, z: -self.z }
    }

    /// Scalar multiple.
    pub fn scale(&self, s: i64) -> (r: Vec3)
        requires
            bounded_v(v3(*self), OPB as int),
            mag(s as int) <= OPB as int,
        ensures
            v3(r) == scale_v(s as int, v3(*self)),
    {
        proof {
            lemma_fxm_bound(s as int, self.x as int, OPB as int, OPB as int);
            lemma_fxm_bound(s as int, self.y as int, OPB as int, OPB as int);
            lemma_fxm_bound(s as int, self.z as int, OPB as int, OPB as int);
        }
        Vec3 { x: fx_mul(s, self.x), y: fx_mul(s, self.y), z: fx_mul(s, self.z) }
    }

    /// Componentwise scalar division.
    pub fn div_scalar(&self, s: i64) -> (r: Vec3)
        requires
            s != 0,
            bounded_v(v3(*self), OPB as int),
            mag(s as int) <= OPB as int,
        ensures
            v3(r) == (V3 {
                x: fxd(self.x as int, s as int),
                y: fxd(self.y as int, s as int),
                z: fxd(self.z as int, s as int),
            }),
    {
        proof {
            lemma_fxd_bound(self.x as int, s as int, OPB as int);
            lemma_fxd_bound(self.y as int, s as int, OPB as int);
            lemma_fxd_bound(self.z as int, s as int, OPB as int);
        }
        Vec3 { x: fx_div(self.x, s), y: fx_div(self.y, s), z: fx_div(self.z, s) }
    }

    /// Componentwise product, used to attenuate a colour.
    pub fn mul(&self, o: &Vec3) -> (r: Vec3)
        requires
            bounded_v(v3(*self), OPB as int),
            bounded_v(v3(*o), OPB as int),
        ensures
            v3(r) == mul_v(v3(*self), v3(*o)),
    {
        proof {
            lemma_fxm_bound(self.x as int, o.x as int, OPB as int, OPB as int);
            lemma_fxm_bound(self.y as int, o.y as int, OPB as int, OPB as int);
            lemma_fxm_bound(self.z as int, o.z as int, OPB as int, OPB as int);
        }
        Vec3 { x: fx_mul(self.x, o.x), y: fx_mul(self.y, o.y), z: fx_mul(self.z, o.z) }
    }

    /// Componentwise quotient.
    pub fn div(&self, o: &Vec3) -> (r: Vec3)
        requires
            o.x != 0 && o.y != 0 && o.z != 0,
            bounded_v(v3(*self), OPB as int),
            bounded_v(v3(*o), OPB as int),
        ensures
            v3(r) == (V3 {
                x: fxd(self.x as int, o.x as int),
                y: fxd(self.y as int, o.y as int),
                z: fxd(self.z as int, o.z as int),
            }),
    {
        proof {
            lemma_fxd_bound(self.x as int, o.x as int, OPB as int);
            lemma_fxd_bound(self.y as int, o.y as int, OPB as int);
            lemma_fxd_bound(self.z as int, o.z as int, OPB as int);
        }
        Vec3 { x: fx_div(self.x, o.x), y: fx_div(self.y, o.y), z: fx_div(self.z, o.z) }
    }

    /// Dot product.
    pub fn dot(&self, o: &Vec3) -> (r: i64)
        requires
            bounded_v(v3(*self), OPB as int),
            bounded_v(v3(*o), OPB as int),
        ensures
            r as int == dot_v(v3(*self), v3(*o)),
            mag(r as int) <= 0x3000_0000_0000_0000,
    {
        proof {
            lemma_fxm_bound(self.x as int, o.x as int, OPB as int, OPB as int);
            lemma_fxm_bound(self.y as int, o.y as int, OPB as int, OPB as int);
            lemma_fxm_bound(self.z as int, o.z as int, OPB as int, OPB as int);
        }
        fx_mul(self.x, o.x) + fx_mul(self.y, o.y) + fx_mul(self.z, o.z)
    }

    /// Magnitude.
    pub fn len(&self) -> (r: i64)
        requires
            bounded_v(v3(*self), OPB as int),
        ensures
            r as int == len_v(v3(*self)),
            0 <= r < 0x100_0000_0000,
    {
        proof {
            reveal(len_v);
            lemma_dot_self_nonneg(v3(*self));
        }
        let d = self.dot(self);
        fx_sqrt(d)
    }

    /// Cross product.
    pub fn cross(&self, o: &Vec3) -> (r: Vec3)
        requires
            bounded_v(v3(*self), OPB as int),
            bounded_v(v3(*o), OPB as int),
        ensures
            v3(r) == cross_v(v3(*self), v3(*o)),
    {
        proof {
            lemma_fxm_bound(self.y as int, o.z as int, OPB as int, OPB as int);
            lemma_fxm_bound(self.z as int, o.y as int, OPB as int, OPB as int);
            lemma_fxm_bound(self.z as int, o.x as int, OPB as int, OPB as int);
            lemma_fxm_bound(self.x as int, o.z as int, OPB as int, OPB as int);
            lemma_fxm_bound(self.x as int, o.y as int, OPB as int, OPB as int);
            lemma_fxm_bound(self.y as int, o.x as int, OPB as int, OPB as int);
        }
        Vec3 {
            x: fx_mul(self.y, o.z) - fx_mul(self.z, o.y),
            y: fx_mul(self.z, o.x) - fx_mul(self.x, o.z),
            z: fx_mul(self.x, o.y) - fx_mul(self.y, o.x),
        }
    }

    /// Applies a function to each component.
    pub fn map<F: Fn(i64) -> i64>(&self, f: F) -> (r: Vec3)
        requires
            f.requires((self.x,)),
            f.requires((self.y,)),
            f.requires((self.z,)),
        ensures
            f.ensures((self.x,), r.x),
            f.ensures((self.y,), r.y),
            f.ensures((self.z,), r.z),
    {
        Vec3 { x: f(self.x), y: f(self.y), z: f(self.z) }
    }

    /// Scales the vector to unit length; a vector whose magnitude truncates
    /// to zero comes back as the zero vector.
    pub fn normalise(&self) -> (r: Vec3)
        requires
            bounded_v(v3(*self), OPB as int),
        ensures
            v3(r) == normalise_v(v3(*self)),
            bounded_v(v3(r), 131072),
    {
        proof {
            reveal(normalise_v);
        }
        let l = self.len();
        if l == 0 {
            Vec3 { x: 0, y: 0, z: 0 }
        } else {
            proof {
                lemma_fxd_bound(self.x as int, l as int, OPB as int);
                lemma_fxd_bound(self.y as int, l as int, OPB as int);
                lemma_fxd_bound(self.z as int, l as int, OPB as int);
                lemma_normalise_bound(v3(*self));
            }
            Vec3 { x: fx_div(self.x, l), y: fx_div(self.y, l), z: fx_div(self.z, l) }
        }
    }

    /// Whether the vector is too short to give a scatter direction; at this
    /// resolution only the zero vector qualifies.
    pub fn near_zero(&self) -> (r: bool)
        ensures
            r == (v3(*self) == zero_v()),
    {
        self.x == 0 && self.y == 0 && self.z == 0
    }

    /// A random vector drawn from the unit ball and scaled to unit length:
    /// rejection sampling, with an axis vector as the (practically
    /// unreachable) fallback once the attempts run out.
    pub fn rand_unit() -> (r: Vec3)
        ensures
            bounded_v(v3(r), 131072),
            exists|v: V3|
                bounded_v(v, 65536) && v != zero_v() && len_v(v) <= 65536 && v3(r)
                    == normalise_v(v),
    {
        let mut i: u8 = 0;
        while i < 64
            decreases 64 - i,
        {
            let x = rand_sym();
            let y = rand_sym();
            let z = rand_sym();
            let v = Vec3 { x, y, z };
            let l = v.len();
            if l < SCALE && !(x == 0 && y == 0 && z == 0) {
                let n = v.normalise();
                proof {
                    let gv = v3(v);
                    if len_v(gv) >= 1 {
                        lemma_normalise_bound(gv);
                    }
                    assert(bounded_v(gv, 65536) && gv != zero_v() && len_v(gv) <= 65536
                        && v3(n) == normalise_v(gv));
                }
                return n;
            }
            i = i + 1;
        }
        let r = Vec3 { x: SCALE, y: 0, z: 0 };
        proof {
            lemma_unit_axis_normalised();
        }
        r
    }
}

/// The exact unit axis vector is its own normalisation.
pub proof fn lemma_unit_axis_normalised()
    ensures
        len_v(V3 { x: 65536, y: 0, z: 0 }) == 65536,
        normalise_v(V3 { x: 65536, y: 0, z: 0 }) == (V3 { x: 65536, y: 0, z: 0 }),
        bounded_v(V3 { x: 65536, y: 0, z: 0 }, 65536),
{
    reveal(len_v);
    reveal(normalise_v);
    let a = V3 { x: 65536, y: 0, z: 0 };
    lemma_div_by_multiple(65536, 65536);
    assert(fxm(65536, 65536) == 65536);
    assert(fxm(0, 0) == 0) by {
        assert(mag(0) * mag(0) == 0) by (nonlinear_arith);
        lemma_div_of0(65536);
    }
    assert(dot_v(a, a) == 65536);
    assert(is_sqrt((65536 * 65536) as int, 65536));
    lemma_sqrt_unique((65536 * 65536) as int, 65536);
    assert(fxd(65536, 65536) == 65536);
}

} // verus!
