//! The system sets of the animation plugin and the order in which the plugin
//! chains them.
use vstd::prelude::*;

verus! {

/// The system sets in which the plugin's systems run.
#[derive(Clone, Copy, Debug, PartialEq, Eq, Hash, Structural)]
pub enum AnimationGraphSet {
    /// This set runs in the same schedule as the physics update, before the physics update
    PrePhysics,
    /// This set runs in the same schedule as the physics update, after the physics update
    PostPhysics,
    /// This set runs at the end of the GPU frame (i.e. generally PostUpdate), it does not depend
    /// on physics update schedule.
    Final,
}

impl AnimationGraphSet {
    /// The place of a set in the plugin's chain.
    pub open spec fn rank(self) -> nat {
        match self {
            AnimationGraphSet::PrePhysics => 0,
            AnimationGraphSet::PostPhysics => 1,
            AnimationGraphSet::Final => 2,
        }
    }

    /// The sets in the order in which the plugin chains them in the physics
    /// schedule: each runs before the next.
    pub fn chain() -> (r: [AnimationGraphSet; 3])
        ensures
            r@ == seq![
                AnimationGraphSet::PrePhysics,
                AnimationGraphSet::PostPhysics,
                AnimationGraphSet::Final,
            ],
            forall|i: int| 0 <= i < 3 ==> #[trigger] r@[i].rank() == i,
    {
        let r = [AnimationGraphSet::PrePhysics, AnimationGraphSet::PostPhysics, AnimationGraphSet::Final];
        assert(r@ =~= seq![
            AnimationGraphSet::PrePhysics,
            AnimationGraphSet::PostPhysics,
            AnimationGraphSet::Final,
        ]);
        r
    }
}

} // verus!
