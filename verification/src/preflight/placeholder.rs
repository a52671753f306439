//! A check that always passes.

use super::{CheckContext, CheckOutcome, CheckScope, OutcomeModel, PreflightCheck, Status};
use crate::preflight;
use vstd::prelude::*;

verus! {

/// The check that always passes.
#[derive(Clone, Copy)]
pub struct AlwaysPass;

/// What the check always comes to.
pub open spec fn always_pass() -> OutcomeModel {
    preflight::bare(Status::Pass, Some("placeholder check; real preflights TBD"@))
}

impl PreflightCheck for AlwaysPass {
    fn name(&self) -> (r: &'static str)
        ensures
            r@ == "placeholder.always_pass"@,
    {
        "placeholder.always_pass"
    }

    fn scope(&self) -> (r: CheckScope)
        ensures
            r == CheckScope::SingleAccelerator,
    {
        CheckScope::SingleAccelerator
    }

    fn run(&self, ctx: &CheckContext) -> (r: CheckOutcome)
        ensures
            r@ == always_pass(),
    {
        let r = CheckOutcome {
            status: Status::Pass,
            message: Some("placeholder check; real preflights TBD".to_owned()),
            measurements: Vec::new(),
        };
        assert(r@.measurements =~= Seq::empty());
        r
    }
}

} // verus!
