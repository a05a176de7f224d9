use crate::rat::{rlt, srat_wf, Rat, SRat};
use vstd::prelude::*;

verus! {

/// Mathematical view of an admissible range of ray parameters.
pub ghost struct SInterval {
    pub min: SRat,
    pub max: SRat,
}

pub open spec fn sint_wf(i: SInterval) -> bool {
    srat_wf(i.min) && srat_wf(i.max)
}

/// A parameter is admissible when it lies strictly between the ends; an
/// interval whose ends meet or cross admits nothing.
pub open spec fn sint_contains(i: SInterval, t: SRat) -> bool {
    rlt(i.min, t) && rlt(t, i.max)
}

/// An open range of parametric ray distances. A nearest-hit search narrows
/// `max` to the best distance found so far.
#[derive(Clone, Copy, PartialEq, Eq, Structural, Debug)]
pub struct Interval {
    pub min: Rat,
    pub max: Rat,
}

impl View for Interval {
    type V = SInterval;

    open spec fn view(&self) -> SInterval {
        SInterval { min: self.min@, max: self.max@ }
    }
}

impl Interval {
    pub open spec fn wf(&self) -> bool {
        sint_wf(self@)
    }

    pub fn new(min: Rat, max: Rat) -> (r: Interval)
        requires
            min.wf(),
            max.wf(),
        ensures
            r@ == (SInterval { min: min@, max: max@ }),
            r.wf(),
    {
        Interval { min, max }
    }

    pub fn contains(&self, t: &Rat) -> (r: bool)
        requires
            self.wf(),
            t.wf(),
        ensures
            r == sint_contains(self@, t@),
    {
        self.min.lt(t) && t.lt(&self.max)
    }
}

/// Whatever an interval admits witnesses that its ends are ordered.
pub proof fn lemma_contains_implies_nonempty(i: SInterval, t: SRat)
    requires
        sint_wf(i),
        srat_wf(t),
        sint_contains(i, t),
    ensures
        rlt(i.min, i.max),
{
    crate::rat::lemma_rlt_trans(i.min, t, i.max);
}

} // verus!
