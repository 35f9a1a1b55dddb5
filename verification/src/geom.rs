//! Integer voxel coordinates.
use vstd::prelude::*;

verus! {

/// A position (or offset) on the integer voxel lattice.
#[derive(Clone, Copy, Debug, PartialEq, Eq, Hash, Structural)]
pub struct IVec3 {
    pub x: i32,
    pub y: i32,
    pub z: i32,
}

impl IVec3 {
    pub fn new(x: i32, y: i32, z: i32) -> (r: IVec3)
        ensures
            r == (IVec3 { x, y, z }),
    {
        IVec3 { x, y, z }
    }

    pub fn splat(v: i32) -> (r: IVec3)
        ensures
            r == (IVec3 { x: v, y: v, z: v }),
    {
        IVec3 { x: v, y: v, z: v }
    }

    /// Whether the componentwise sum `self + other` fits in `i32`.
    pub open spec fn add_fits(self, other: IVec3) -> bool {
        &&& i32::MIN <= self.x + other.x <= i32::MAX
        &&& i32::MIN <= self.y + other.y <= i32::MAX
        &&& i32::MIN <= self.z + other.z <= i32::MAX
    }

    /// The componentwise sum, on mathematical integers.
    pub open spec fn spec_add(self, other: IVec3) -> IVec3 {
        IVec3 {
            x: (self.x + other.x) as i32,
            y: (self.y + other.y) as i32,
            z: (self.z + other.z) as i32,
        }
    }

    pub fn add(self, other: IVec3) -> (r: IVec3)
        requires
            self.add_fits(other),
        ensures
            r == self.spec_add(other),
    {
        IVec3 { x: self.x + other.x, y: self.y + other.y, z: self.z + other.z }
    }

    pub fn min(self, other: IVec3) -> (r: IVec3)
        ensures
            r.x == (if self.x <= other.x { self.x } else { other.x }),
            r.y == (if self.y <= other.y { self.y } else { other.y }),
            r.z == (if self.z <= other.z { self.z } else { other.z }),
    {
        IVec3 {
            x: if self.x <= other.x { self.x } else { other.x },
            y: if self.y <= other.y { self.y } else { other.y },
            z: if self.z <= other.z { self.z } else { other.z },
        }
    }

    pub fn max(self, other: IVec3) -> (r: IVec3)
        ensures
            r.x == (if self.x >= other.x { self.x } else { other.x }),
            r.y == (if self.y >= other.y { self.y } else { other.y }),
            r.z == (if self.z >= other.z { self.z } else { other.z }),
    {
        IVec3 {
            x: if self.x >= other.x { self.x } else { other.x },
            y: if self.y >= other.y { self.y } else { other.y },
            z: if self.z >= other.z { self.z } else { other.z },
        }
    }
}

/// Division rounding toward negative infinity (the quotient of `v.div_euclid(d)` for `d > 0`).
pub fn div_floor(v: i32, d: i32) -> (r: i32)
    requires
        d > 0,
    ensures
        r == v / d,
        v - r * d == v % d,
        0 <= v - r * d < d,
{
    let du = d as u32;
    if v >= 0 {
        let q = (v as u32) / du;
        proof {
            let vi = v as int;
            let di = d as int;
            assert(vi == di * (vi / di) + vi % di && 0 <= vi % di < di) by (nonlinear_arith)
                requires
                    di > 0,
            ;
            assert(q as int == vi / di);
            assert(0 <= q <= vi) by (nonlinear_arith)
                requires
                    q as int == vi / di,
                    vi >= 0,
                    di > 0,
            ;
            assert(vi - (q as int) * di == vi % di) by (nonlinear_arith)
                requires
                    vi == di * (vi / di) + vi % di,
                    q as int == vi / di,
            ;
        }
        q as i32
    } else {
        let w: u32 = (-(v + 1)) as u32;
        let q: u32 = w / du;
        proof {
            let vi = v as int;
            let wi = w as int;
            let di = d as int;
            assert(wi == -vi - 1);
            assert(wi == di * (wi / di) + wi % di && 0 <= wi % di < di) by (nonlinear_arith)
                requires
                    wi >= 0,
                    di > 0,
            ;
            assert(q as int == wi / di);
            assert(0 <= q <= wi) by (nonlinear_arith)
                requires
                    q as int == wi / di,
                    wi >= 0,
                    di > 0,
            ;
            let qq = -(wi / di) - 1;
            let rr = di - 1 - wi % di;
            assert(vi == di * qq + rr) by (nonlinear_arith)
                requires
                    wi == di * (wi / di) + wi % di,
                    wi == -vi - 1,
                    qq == -(wi / di) - 1,
                    rr == di - 1 - wi % di,
            ;
            assert(vi / di == qq && vi % di == rr) by (nonlinear_arith)
                requires
                    vi == di * qq + rr,
                    0 <= rr < di,
                    di > 0,
            ;
            assert(vi - qq * di == rr) by (nonlinear_arith)
                requires
                    vi == di * qq + rr,
            ;
            assert(qq * di >= vi - di + 1 && qq * di <= vi) by (nonlinear_arith)
                requires
                    vi == di * qq + rr,
                    0 <= rr < di,
            ;
        }
        -(q as i32) - 1
    }
}

/// Distinct integers in `0 .. m` are at most `m` many.
pub proof fn lemma_distinct_in_range(s: Seq<int>, m: int)
    requires
        0 <= m,
        s.no_duplicates(),
        forall|i: int| 0 <= i < s.len() ==> 0 <= #[trigger] s[i] < m,
    ensures
        s.len() <= m,
{
    {
        s.unique_seq_to_set();
        assert(s.to_set().subset_of(vstd::set_lib::set_int_range(0, m))) by {
            assert forall|x: int| s.to_set().contains(x) implies vstd::set_lib::set_int_range(
                0,
                m,
            ).contains(x) by {
                let i = choose|i: int| 0 <= i < s.len() && s[i] == x;
            }
        }
        vstd::set_lib::lemma_int_range(0, m);
        vstd::set_lib::lemma_len_subset(s.to_set(), vstd::set_lib::set_int_range(0, m));
    }
}

} // verus!
