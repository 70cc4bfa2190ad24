use vstd::prelude::*;

verus! {

/// The mean of the samples pushed since the last pop, in nanoseconds.
#[derive(Debug, Clone, Copy, PartialEq, Eq, Structural)]
pub struct RunningAverage {
    pub sum: u128,
    pub count: u32,
}

impl RunningAverage {
    /// The sum cannot exceed what `count` samples can add up to.
    pub open spec fn wf(&self) -> bool {
        self.sum <= self.count * 0xffff_ffff_ffff_ffffu128
    }

    pub fn new() -> (r: RunningAverage)
        ensures
            r.sum == 0 && r.count == 0,
            r.wf(),
    {
        RunningAverage { sum: 0, count: 0 }
    }

    /// Add a sample; once the count is full, samples are dropped.
    pub fn push(&mut self, sample_nanos: u64)
        requires
            old(self).wf(),
        ensures
            final(self).wf(),
            old(self).count < u32::MAX ==> final(self).count == old(self).count + 1 && final(self).sum
                == old(self).sum + sample_nanos,
            old(self).count == u32::MAX ==> *final(self) == *old(self),
    {
        if self.count < u32::MAX {
            let ghost s0 = self.sum;
            let ghost c0 = self.count;
            assert(self.sum + sample_nanos <= u128::MAX) by (nonlinear_arith)
                requires
                    self.sum <= self.count * 0xffff_ffff_ffff_ffffu128,
                    self.count < u32::MAX,
                    sample_nanos <= 0xffff_ffff_ffff_ffffu64,
            ;
            self.sum = self.sum + sample_nanos as u128;
            self.count = self.count + 1;
            assert(self.sum <= self.count * 0xffff_ffff_ffff_ffffu128) by (nonlinear_arith)
                requires
                    self.sum == s0 + sample_nanos,
                    s0 <= c0 * 0xffff_ffff_ffff_ffffu128,
                    self.count == c0 + 1,
                    sample_nanos <= 0xffff_ffff_ffff_ffffu64,
            ;
        }
    }

    /// The mean of the samples since the last pop (`None` without samples), and
    /// start over.
    pub fn pop(&mut self) -> (r: Option<u128>)
        ensures
            old(self).count == 0 ==> r is None,
            old(self).count > 0 ==> r == Some((old(self).sum / old(self).count as u128) as u128),
            final(self).sum == 0 && final(self).count == 0,
            final(self).wf(),
    {
        let r = if self.count > 0 {
            Some(self.sum / self.count as u128)
        } else {
            None
        };
        self.count = 0;
        self.sum = 0;
        r
    }
}

} // verus!
