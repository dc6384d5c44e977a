//! Pipelines of up to four stages.
use vstd::prelude::*;

verus! {

/// Maximum number of stages.
pub const MAX_STAGES: usize = 4;

/// One stage: a command and its arguments.
pub struct Stage {
    pub command: &'static str,
    pub args: &'static [&'static str],
}

/// A pipeline under construction.
pub struct Pipeline {
    stages: [Option<Stage>; 4],
    count: usize,
}

impl Pipeline {
    /// The stages added so far, in order.
    pub closed spec fn stages(&self) -> Seq<Option<Stage>> {
        self.stages@.take(self.count as int)
    }

    /// At most four stages are stored.
    pub closed spec fn wf(&self) -> bool {
        self.count <= MAX_STAGES && self.stages@.len() == MAX_STAGES
    }

    /// An empty pipeline.
    pub fn new() -> (r: Self)
        ensures
            r.wf(),
            r.stages() == Seq::<Option<Stage>>::empty(),
    {
        Pipeline { stages: [None, None, None, None], count: 0 }
    }

    /// Append `stage`; ignored once four stages are present.
    pub fn add(&mut self, stage: Stage)
        requires
            old(self).wf(),
        ensures
            final(self).wf(),
            old(self).stages().len() < MAX_STAGES ==> final(self).stages() == old(self).stages().push(Some(stage)),
            old(self).stages().len() >= MAX_STAGES ==> final(self).stages() == old(self).stages(),
    {
        if self.count < MAX_STAGES {
            self.stages[self.count] = Some(stage);
            self.count = self.count + 1;
            assert(self.stages@.take(self.count as int) =~= old(self).stages@.take(old(self).count as int).push(Some(stage)));
        }
    }

    /// Run the pipeline, returning its exit status.  Stage processes and
    /// the channels between them are not available yet, so it succeeds
    /// without effect.
    pub fn execute(&self) -> (r: i32)
        ensures
            r == 0,
    {
        0
    }
}

} // verus!
