//! What a guest needs after it was restored.
//!
//! All guests that were restored from one snapshot begin with the same random
//! state and with a clock that stood still. Both are set right before the guest is
//! used.

use crate::order::{comes_before, lemma_comes_before};
use vstd::prelude::*;

verus! {

/// How many bytes of randomness a restored guest gets.
pub const ENTROPY_BYTES: usize = 256;

/// A step of setting a restored guest right.
#[derive(Clone, Copy, Debug, PartialEq, Eq, Structural)]
pub enum InitStep {
    /// Give it randomness. That this fails changes nothing.
    InjectEntropy,
    /// Set its clock. This cannot fail.
    SyncClock,
}

/// The steps of setting a restored guest right, in order.
pub open spec fn init_plan() -> Seq<InitStep> {
    seq![InitStep::InjectEntropy, InitStep::SyncClock]
}

/// A restored guest gets both fresh randomness and the right time, the randomness first.
pub proof fn lemma_restored_guest_is_set_right()
    ensures
        ({
            let plan = init_plan();
            &&& plan.no_duplicates()
            &&& comes_before(plan, InitStep::InjectEntropy, InitStep::SyncClock)
        }),
{
    let plan = init_plan();
    assert(plan =~= seq![InitStep::InjectEntropy, InitStep::SyncClock]);
    lemma_comes_before(plan, 0, 1);
}

/// Sets a restored guest right.
pub struct PostRestoreInitializer {
    pub sandbox_id: String,
    /// Whether there is a connection to its agent.
    pub connected: bool,
}

impl PostRestoreInitializer {
    /// The steps of setting the guest right, in order. Without a connection there
    /// is only something to say.
    pub fn run(&self) -> (r: Result<Vec<InitStep>, String>)
        ensures
            match r {
                Ok(steps) => self.connected && steps@ == init_plan(),
                Err(message) => !self.connected && message@
                    == "post-restore: ttrpc client not initialised"@,
            },
    {
        if !self.connected {
            return Err("post-restore: ttrpc client not initialised".to_owned());
        }
        let mut steps: Vec<InitStep> = Vec::new();
        steps.push(InitStep::InjectEntropy);
        steps.push(InitStep::SyncClock);
        assert(steps@ =~= init_plan());
        Ok(steps)
    }
}

} // verus!
