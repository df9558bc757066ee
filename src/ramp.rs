//! Exact linear ramps: a quantity stepped linearly from one value to another.
use vstd::prelude::*;

verus! {

/// The linear function `t -> (slope_num * t + intercept_num) / den`.
#[derive(Clone, Copy, Debug, PartialEq, Eq, Structural)]
pub struct Ramp {
    pub slope_num: i128,
    pub intercept_num: i128,
    pub den: i128,
}

impl Ramp {
    /// The numerator of the ramp's value at `t`.
    pub open spec fn num_at(self, t: int) -> int {
        self.slope_num * t + self.intercept_num
    }

    /// Bounds that every ramp built by `slope_intercept` meets.
    pub open spec fn wf(self) -> bool {
        &&& 0 < self.den <= 0x1_0000_0000
        &&& -0x2_0000_0000 <= self.slope_num <= 0x2_0000_0000
        &&& -0x1_0000_0000_0000_0000 <= self.intercept_num <= 0x1_0000_0000_0000_0000
    }

    /// The ramp's value at `t` converted to a pixel coordinate: truncated
    /// toward zero, with negative values at 0 and large ones at `usize::MAX`.
    pub open spec fn pixel_at(self, t: int) -> int {
        let n = self.num_at(t);
        if n <= 0 {
            0
        } else if n / (self.den as int) > usize::MAX {
            usize::MAX as int
        } else {
            n / (self.den as int)
        }
    }

    /// The pixel coordinate of the ramp at `t`.
    pub fn pixel(&self, t: i32) -> (r: usize)
        requires
            self.wf(),
        ensures
            r == self.pixel_at(t as int),
    {
        assert(-0x2_0000_0000_0000_0000 <= self.slope_num * t <= 0x2_0000_0000_0000_0000)
            by (nonlinear_arith)
            requires
                -0x2_0000_0000 <= self.slope_num <= 0x2_0000_0000,
                -0x8000_0000 <= t <= 0x8000_0000,
        ;
        let n: i128 = self.slope_num * (t as i128) + self.intercept_num;
        if n <= 0 {
            0
        } else {
            let q: u128 = (n as u128) / (self.den as u128);
            if q > usize::MAX as u128 {
                usize::MAX
            } else {
                q as usize
            }
        }
    }
}

/// The ramp that `slope_intercept` builds.
pub open spec fn ramp_spec(from: int, to: int, steps: int, start: int) -> Ramp {
    if steps == 0 {
        Ramp { slope_num: 0, intercept_num: from as i128, den: 1 }
    } else if steps > 0 {
        Ramp {
            slope_num: (to - from) as i128,
            intercept_num: (from * steps - (to - from) * start) as i128,
            den: steps as i128,
        }
    } else {
        Ramp {
            slope_num: (from - to) as i128,
            intercept_num: ((to - from) * start - from * steps) as i128,
            den: -steps as i128,
        }
    }
}

/// The ramp that takes the value `from` at `start` and `to` at `start + steps`,
/// with slope `(to - from) / steps`. A ramp of no steps stays at `from`.
pub fn slope_intercept(from: i32, to: i32, steps: i32, start: i32) -> (r: Ramp)
    ensures
        r == ramp_spec(from as int, to as int, steps as int, start as int),
        r.wf(),
        r.num_at(start as int) == from * r.den,
        steps != 0 ==> r.num_at(start + steps) == to * r.den,
        steps != 0 ==> r.slope_num * steps == (to - from) * r.den,
        steps == 0 ==> r.slope_num == 0,
{
    let (f, t, s, b) = (from as i128, to as i128, steps as i128, start as i128);
    assert(-0x4000_0000_0000_0000 <= f * s <= 0x4000_0000_0000_0000) by (nonlinear_arith)
        requires
            -0x8000_0000 <= f <= 0x8000_0000,
            -0x8000_0000 <= s <= 0x8000_0000,
    ;
    assert(-0x8000_0000_0000_0000 <= (t - f) * b <= 0x8000_0000_0000_0000) by (nonlinear_arith)
        requires
            -0x1_0000_0000 <= t - f <= 0x1_0000_0000,
            -0x8000_0000 <= b <= 0x8000_0000,
    ;
    let r = if s == 0 {
        Ramp { slope_num: 0, intercept_num: f, den: 1 }
    } else if s > 0 {
        Ramp { slope_num: t - f, intercept_num: f * s - (t - f) * b, den: s }
    } else {
        Ramp { slope_num: f - t, intercept_num: (t - f) * b - f * s, den: -s }
    };
    assert(r.num_at(start as int) == from * r.den) by (nonlinear_arith)
        requires
            r == ramp_spec(from as int, to as int, steps as int, start as int),
    ;
    assert(steps != 0 ==> r.num_at(start + steps) == to * r.den) by (nonlinear_arith)
        requires
            r == ramp_spec(from as int, to as int, steps as int, start as int),
    ;
    assert(steps != 0 ==> r.slope_num * steps == (to - from) * r.den) by (nonlinear_arith)
        requires
            r == ramp_spec(from as int, to as int, steps as int, start as int),
    ;
    r
}

} // verus!
