//! Slab-method ray / axis-aligned-box intersection.
//!
//! Ray parameters are exact rationals `p / q` with `q > 0`. The test reports
//! a hit exactly when the ray meets the box at some nonnegative parameter
//! and at no negative parameter, which is the classic
//! `tmin <= tmax && 0 <= tmin` slab criterion.

use vstd::prelude::*;
use crate::vector::{Vector3, vec_bounded, lemma_abs_product_bound, VMAX, OMAX, DMAX};

verus! {

#[derive(Clone, Copy, PartialEq, Eq, Structural, Debug)]
pub struct Ray {
    pub origin: Vector3,
    pub direction: Vector3,
}

/// Rays the geometry kernel accepts: bounded coordinates, nonzero direction.
pub open spec fn ray_wf(r: Ray) -> bool {
    &&& vec_bounded(r.origin, OMAX as int)
    &&& vec_bounded(r.direction, DMAX as int)
    &&& !(r.direction.x == 0 && r.direction.y == 0 && r.direction.z == 0)
}

/// At parameter `p / q` (`q > 0`) the ray's coordinate on one axis stays
/// between the two slab planes `lb` and `rt`, after scaling through by `q`.
pub open spec fn in_slab(lb: int, rt: int, o: int, d: int, p: int, q: int) -> bool {
    lb * q <= o * q + p * d && o * q + p * d <= rt * q
}

/// The ray's point at parameter `p / q` (`q > 0`) lies inside the box.
pub open spec fn ray_in_box_at(lb: Vector3, rt: Vector3, r: Ray, p: int, q: int) -> bool {
    &&& q > 0
    &&& in_slab(lb.x as int, rt.x as int, r.origin.x as int, r.direction.x as int, p, q)
    &&& in_slab(lb.y as int, rt.y as int, r.origin.y as int, r.direction.y as int, p, q)
    &&& in_slab(lb.z as int, rt.z as int, r.origin.z as int, r.direction.z as int, p, q)
}

/// What the slab test decides: the ray reaches the box at some parameter
/// `>= 0`, and no part of the box lies at a negative parameter.
pub open spec fn slab_hit(lb: Vector3, rt: Vector3, r: Ray) -> bool {
    &&& exists |p: int, q: int| p >= 0 && #[trigger] ray_in_box_at(lb, rt, r, p, q)
    &&& forall |p: int, q: int| p < 0 ==> !#[trigger] ray_in_box_at(lb, rt, r, p, q)
}

/// Outcome of projecting the ray on one axis.
enum AxisSlab {
    /// The axis never constrains the parameter.
    Free,
    /// No parameter puts the ray between the two planes.
    Never,
    /// The parameter must lie in `[lo / den, hi / den]` with `den > 0`.
    Range { lo: i64, hi: i64, den: i64 },
}

/// The outcome `s` describes the axis `(lb, rt, o, d)` exactly.
spec fn axis_chr(s: AxisSlab, lb: int, rt: int, o: int, d: int) -> bool {
    match s {
        AxisSlab::Free => forall |p: int, q: int| q > 0 ==> #[trigger] in_slab(lb, rt, o, d, p, q),
        AxisSlab::Never => forall |p: int, q: int| q > 0 ==> !#[trigger] in_slab(lb, rt, o, d, p, q),
        AxisSlab::Range { lo, hi, den } => {
            &&& 0 < den <= DMAX
            &&& -(VMAX + OMAX) <= lo as int <= VMAX + OMAX
            &&& -(VMAX + OMAX) <= hi as int <= VMAX + OMAX
            &&& forall |p: int, q: int| q > 0 ==>
                (#[trigger] in_slab(lb, rt, o, d, p, q)
                    <==> lo as int * q <= p * den as int && p * den as int <= hi as int * q)
        },
    }
}

/// Project the ray on one axis.
fn axis_slab(lb: i64, rt: i64, o: i64, d: i64) -> (s: AxisSlab)
    requires
        -VMAX <= lb <= VMAX,
        -VMAX <= rt <= VMAX,
        -OMAX <= o <= OMAX,
        -DMAX <= d <= DMAX,
    ensures
        axis_chr(s, lb as int, rt as int, o as int, d as int),
        s is Free ==> d == 0,
{
    if d > 0 {
        let s = AxisSlab::Range { lo: lb - o, hi: rt - o, den: d };
        proof {
            assert forall |p: int, q: int| q > 0 implies
                (#[trigger] in_slab(lb as int, rt as int, o as int, d as int, p, q)
                    <==> (lb - o) as int * q <= p * d as int && p * d as int <= (rt - o) as int * q) by {
                assert((lb as int - o as int) * q == lb as int * q - o as int * q) by (nonlinear_arith);
                assert((rt as int - o as int) * q == rt as int * q - o as int * q) by (nonlinear_arith);
            }
        }
        s
    } else if d < 0 {
        let s = AxisSlab::Range { lo: o - rt, hi: o - lb, den: -d };
        proof {
            assert forall |p: int, q: int| q > 0 implies
                (#[trigger] in_slab(lb as int, rt as int, o as int, d as int, p, q)
                    <==> (o - rt) as int * q <= p * (-d) as int && p * (-d) as int <= (o - lb) as int * q) by {
                assert((o as int - rt as int) * q == o as int * q - rt as int * q) by (nonlinear_arith);
                assert((o as int - lb as int) * q == o as int * q - lb as int * q) by (nonlinear_arith);
                assert(p * (-(d as int)) == -(p * d as int)) by (nonlinear_arith);
            }
        }
        s
    } else if lb <= o && o <= rt {
        proof {
            assert forall |p: int, q: int| q > 0 implies
                #[trigger] in_slab(lb as int, rt as int, o as int, 0int, p, q) by {
                assert(lb as int * q <= o as int * q) by (nonlinear_arith)
                    requires lb as int <= o as int, q > 0;
                assert(o as int * q <= rt as int * q) by (nonlinear_arith)
                    requires o as int <= rt as int, q > 0;
                assert(p * 0int == 0) by (nonlinear_arith);
            }
        }
        AxisSlab::Free
    } else {
        proof {
            assert forall |p: int, q: int| q > 0 implies
                !#[trigger] in_slab(lb as int, rt as int, o as int, 0int, p, q) by {
                assert(p * 0int == 0) by (nonlinear_arith);
                if lb > o {
                    assert(lb as int * q > o as int * q) by (nonlinear_arith)
                        requires lb as int > o as int, q > 0;
                } else {
                    assert(o as int * q > rt as int * q) by (nonlinear_arith)
                        requires o as int > rt as int, q > 0;
                }
            }
        }
        AxisSlab::Never
    }
}

/// From `a/ad <= b/bd` and `b/bd <= c/cd` conclude `a/ad <= c/cd`
/// (all denominators positive), in cross-multiplied form.
pub proof fn lemma_frac_le_trans(an: int, ad: int, bn: int, bd: int, cn: int, cd: int)
    by (nonlinear_arith)
    requires
        ad > 0,
        bd > 0,
        cd > 0,
        an * bd <= bn * ad,
        bn * cd <= cn * bd,
    ensures
        an * cd <= cn * ad,
{
}

/// Running intersection of the axis ranges seen so far, as a pair of
/// fractions `tmin = min_n / min_d`, `tmax = max_n / max_d`.
struct Running {
    min_n: i64,
    min_d: i64,
    max_n: i64,
    max_d: i64,
}

/// Bound on running numerators (denominators stay below `DMAX`).
spec fn running_wf(t: Running) -> bool {
    &&& 0 < t.min_d <= DMAX
    &&& 0 < t.max_d <= DMAX
    &&& -(VMAX + OMAX) <= t.min_n as int <= VMAX + OMAX
    &&& -(VMAX + OMAX) <= t.max_n as int <= VMAX + OMAX
}

/// The parameter `p / q` lies in the running interval.
spec fn in_running(t: Running, p: int, q: int) -> bool {
    t.min_n as int * q <= p * t.min_d as int && p * t.max_d as int <= t.max_n as int * q
}

/// Narrow the running interval by one more axis range.
fn merge_axis(t: Running, lo: i64, hi: i64, den: i64) -> (r: Running)
    requires
        running_wf(t),
        0 < den <= DMAX,
        -(VMAX + OMAX) <= lo as int <= VMAX + OMAX,
        -(VMAX + OMAX) <= hi as int <= VMAX + OMAX,
    ensures
        running_wf(r),
        forall |p: int, q: int| q > 0 ==>
            (#[trigger] in_running(r, p, q)
                <==> in_running(t, p, q)
                    && lo as int * q <= p * den as int && p * den as int <= hi as int * q),
{
    proof {
        lemma_abs_product_bound(t.min_n as int, den as int, 196608);
        lemma_abs_product_bound(lo as int, t.min_d as int, 196608);
        lemma_abs_product_bound(hi as int, t.max_d as int, 196608);
        lemma_abs_product_bound(t.max_n as int, den as int, 196608);
    }
    let new_min_is_axis = t.min_n * den <= lo * t.min_d;
    let new_max_is_axis = hi * t.max_d <= t.max_n * den;
    let r = Running {
        min_n: if new_min_is_axis { lo } else { t.min_n },
        min_d: if new_min_is_axis { den } else { t.min_d },
        max_n: if new_max_is_axis { hi } else { t.max_n },
        max_d: if new_max_is_axis { den } else { t.max_d },
    };
    proof {
        assert forall |p: int, q: int| q > 0 implies
            (#[trigger] in_running(r, p, q)
                <==> in_running(t, p, q)
                    && lo as int * q <= p * den as int && p * den as int <= hi as int * q) by {
            if new_min_is_axis {
                if in_running(r, p, q) {
                    // lo/den <= p/q and the old minimum is below lo/den.
                    lemma_frac_le_trans(t.min_n as int, t.min_d as int, lo as int, den as int, p, q);
                }
            } else {
                if in_running(r, p, q) {
                    lemma_frac_le_trans(lo as int, den as int, t.min_n as int, t.min_d as int, p, q);
                }
            }
            if new_max_is_axis {
                if in_running(r, p, q) {
                    lemma_frac_le_trans(p, q, hi as int, den as int, t.max_n as int, t.max_d as int);
                }
            } else {
                if in_running(r, p, q) {
                    lemma_frac_le_trans(p, q, t.max_n as int, t.max_d as int, hi as int, den as int);
                }
            }
        }
    }
    r
}

/// Slab-method ray / box test over the box corners `left_bottom`,
/// `right_top`: reports exactly `slab_hit`.
pub fn intersect_aabb(left_bottom: &Vector3, right_top: &Vector3, ray: &Ray) -> (hit: bool)
    requires
        vec_bounded(*left_bottom, VMAX as int),
        vec_bounded(*right_top, VMAX as int),
        ray_wf(*ray),
    ensures
        hit == slab_hit(*left_bottom, *right_top, *ray),
{
    let lb = *left_bottom;
    let rt = *right_top;
    let o = ray.origin;
    let d = ray.direction;
    let sx = axis_slab(lb.x, rt.x, o.x, d.x);
    let sy = axis_slab(lb.y, rt.y, o.y, d.y);
    let sz = axis_slab(lb.z, rt.z, o.z, d.z);

    if matches!(sx, AxisSlab::Never) || matches!(sy, AxisSlab::Never) || matches!(sz, AxisSlab::Never) {
        proof {
            assert forall |p: int, q: int| p < 0 implies !#[trigger] ray_in_box_at(lb, rt, *ray, p, q) by {}
            assert(!(exists |p: int, q: int| p >= 0 && #[trigger] ray_in_box_at(lb, rt, *ray, p, q)));
        }
        return false;
    }

    // At least one axis constrains the parameter, because the direction is
    // not the zero vector.
    let mut have: bool = false;
    let mut t = Running { min_n: 0, min_d: 1, max_n: 0, max_d: 1 };

    if let AxisSlab::Range { lo, hi, den } = sx {
        t = Running { min_n: lo, min_d: den, max_n: hi, max_d: den };
        have = true;
    }
    if let AxisSlab::Range { lo, hi, den } = sy {
        if have {
            t = merge_axis(t, lo, hi, den);
        } else {
            t = Running { min_n: lo, min_d: den, max_n: hi, max_d: den };
            have = true;
        }
    }
    if let AxisSlab::Range { lo, hi, den } = sz {
        if have {
            t = merge_axis(t, lo, hi, den);
        } else {
            t = Running { min_n: lo, min_d: den, max_n: hi, max_d: den };
            have = true;
        }
    }

    proof {
        assert(have) by {
            if !have {
                assert(sx is Free && sy is Free && sz is Free);
            }
        }
        assert forall |p: int, q: int| q > 0 implies
            (#[trigger] ray_in_box_at(lb, rt, *ray, p, q) <==> in_running(t, p, q)) by {}
    }

    proof {
        lemma_abs_product_bound(t.min_n as int, t.max_d as int, 196608);
        lemma_abs_product_bound(t.max_n as int, t.min_d as int, 196608);
    }
    let nonempty = (t.min_n as i128) * (t.max_d as i128) <= (t.max_n as i128) * (t.min_d as i128);
    if nonempty && t.min_n >= 0 {
        proof {
            // The interval's lower end is itself a box point at a
            // nonnegative parameter.
            assert(in_running(t, t.min_n as int, t.min_d as int));
            assert(ray_in_box_at(lb, rt, *ray, t.min_n as int, t.min_d as int));
            assert forall |p: int, q: int| p < 0 implies
                !#[trigger] ray_in_box_at(lb, rt, *ray, p, q) by {
                if q > 0 && in_running(t, p, q) {
                    assert((t.min_n as int) * q >= 0) by (nonlinear_arith)
                        requires t.min_n as int >= 0, q > 0;
                    assert(p * (t.min_d as int) < 0) by (nonlinear_arith)
                        requires p < 0, t.min_d as int > 0;
                }
            }
        }
        true
    } else {
        proof {
            if nonempty {
                // The lower end is a box point at a negative parameter.
                assert(in_running(t, t.min_n as int, t.min_d as int));
                assert(ray_in_box_at(lb, rt, *ray, t.min_n as int, t.min_d as int));
                assert(!slab_hit(lb, rt, *ray));
            } else {
                // Empty interval: the ray never meets the box.
                assert forall |p: int, q: int| q > 0 implies !in_running(t, p, q) by {
                    if in_running(t, p, q) {
                        lemma_frac_le_trans(
                            t.min_n as int, t.min_d as int,
                            p, q,
                            t.max_n as int, t.max_d as int,
                        );
                    }
                }
                assert(!(exists |p: int, q: int| p >= 0
                    && #[trigger] ray_in_box_at(lb, rt, *ray, p, q)));
            }
        }
        false
    }
}

/// A ray that starts inside the box meets it at parameter zero: the slab
/// interval contains the origin, so such a ray reports a hit exactly when
/// no part of the box lies at a negative parameter.
pub proof fn lemma_origin_inside_box(lb: Vector3, rt: Vector3, r: Ray)
    requires
        lb.x <= r.origin.x <= rt.x,
        lb.y <= r.origin.y <= rt.y,
        lb.z <= r.origin.z <= rt.z,
    ensures
        ray_in_box_at(lb, rt, r, 0, 1),
{
    assert(lb.x as int * 1 == lb.x as int) by (nonlinear_arith);
    assert(rt.x as int * 1 == rt.x as int) by (nonlinear_arith);
    assert(lb.y as int * 1 == lb.y as int) by (nonlinear_arith);
    assert(rt.y as int * 1 == rt.y as int) by (nonlinear_arith);
    assert(lb.z as int * 1 == lb.z as int) by (nonlinear_arith);
    assert(rt.z as int * 1 == rt.z as int) by (nonlinear_arith);
    assert(r.origin.x as int * 1 == r.origin.x as int) by (nonlinear_arith);
    assert(r.origin.y as int * 1 == r.origin.y as int) by (nonlinear_arith);
    assert(r.origin.z as int * 1 == r.origin.z as int) by (nonlinear_arith);
    assert(0int * r.direction.x as int == 0) by (nonlinear_arith);
    assert(0int * r.direction.y as int == 0) by (nonlinear_arith);
    assert(0int * r.direction.z as int == 0) by (nonlinear_arith);
}

/// Separating axis: a ray running parallel to one axis, with its origin
/// outside that axis's slab, never meets the box and reports no hit.
pub proof fn lemma_parallel_axis_miss(lb: Vector3, rt: Vector3, r: Ray)
    requires
        r.direction.x == 0,
        r.origin.x < lb.x || r.origin.x > rt.x,
    ensures
        !slab_hit(lb, rt, r),
        forall |p: int, q: int| !#[trigger] ray_in_box_at(lb, rt, r, p, q),
{
    assert forall |p: int, q: int| !#[trigger] ray_in_box_at(lb, rt, r, p, q) by {
        if ray_in_box_at(lb, rt, r, p, q) {
            assert(p * (r.direction.x as int) == 0) by (nonlinear_arith)
                requires (r.direction.x as int) == 0;
            if r.origin.x < lb.x {
                assert((r.origin.x as int) * q < (lb.x as int) * q) by (nonlinear_arith)
                    requires (r.origin.x as int) < lb.x as int, q > 0;
            } else {
                assert((rt.x as int) * q < (r.origin.x as int) * q) by (nonlinear_arith)
                    requires (rt.x as int) < r.origin.x as int, q > 0;
            }
        }
    }
}

} // verus!
