//! Which contexts of a puppet are initialized, in which order they may be, and what a
//! frame runs. The contexts themselves are held by the caller, which performs each step.

use vstd::prelude::*;

verus! {

/// The contexts of a puppet that have been initialized.
#[derive(Debug, Clone, Copy, PartialEq, Eq, Structural)]
pub struct PuppetStages {
    pub transforms: bool,
    pub rendering: bool,
    pub params: bool,
    pub physics: bool,
    pub animations: bool,
}

/// Each context depends on the one before it: physics on params, params on rendering,
/// rendering on transforms.
pub open spec fn stages_consistent(s: PuppetStages) -> bool {
    &&& s.physics ==> s.params
    &&& s.params ==> s.rendering
    &&& s.rendering ==> s.transforms
}

/// One step of a frame, performed by the context it names.
#[derive(Debug, Clone, Copy, PartialEq, Eq, Structural)]
pub enum FrameStep {
    /// Reset the deformation stacks and blending of the render context.
    RenderReset,
    /// Reset the node transforms.
    TransformReset,
    /// Reset the parameter values.
    ParamReset,
    /// Advance the playing animations by the elapsed time.
    AnimationUpdate,
    /// Write the animations into the parameters.
    AnimationApply,
    /// Apply the parameters to the node components.
    ParamApply,
    /// Recompute the node transforms.
    TransformUpdate,
    /// Step the physics simulation by the elapsed time.
    PhysicsStep,
    /// Set the parameter values that the physics step returned.
    ParamSetFromPhysics,
    /// Update the z order and deformation buffers of the render context.
    RenderUpdate,
}

/// The steps of preparing a frame, in order.
pub open spec fn begin_frame_steps(s: PuppetStages) -> Seq<FrameStep> {
    (if s.rendering { seq![FrameStep::RenderReset] } else { Seq::empty() }) + (if s.transforms {
        seq![FrameStep::TransformReset]
    } else {
        Seq::empty()
    }) + (if s.params { seq![FrameStep::ParamReset] } else { Seq::empty() })
}

/// The steps of finishing a frame, in order.
pub open spec fn end_frame_steps(s: PuppetStages) -> Seq<FrameStep> {
    let animation = if s.animations {
        seq![FrameStep::AnimationUpdate] + (if s.params {
            seq![FrameStep::AnimationApply]
        } else {
            Seq::empty()
        })
    } else {
        Seq::empty()
    };
    let params = if s.params { seq![FrameStep::ParamApply] } else { Seq::empty() };
    let transforms = if s.transforms { seq![FrameStep::TransformUpdate] } else { Seq::empty() };
    let physics = if s.physics {
        seq![
            FrameStep::PhysicsStep,
            FrameStep::RenderReset,
            FrameStep::TransformReset,
            FrameStep::ParamSetFromPhysics,
            FrameStep::ParamApply,
            FrameStep::TransformUpdate,
        ]
    } else {
        Seq::empty()
    };
    let render = if s.rendering { seq![FrameStep::RenderUpdate] } else { Seq::empty() };
    animation + params + transforms + physics + render
}

/// Whether a step can be performed: the context that performs it is initialized.
pub open spec fn step_available(s: PuppetStages, step: FrameStep) -> bool {
    match step {
        FrameStep::RenderReset | FrameStep::RenderUpdate => s.rendering,
        FrameStep::TransformReset | FrameStep::TransformUpdate => s.transforms,
        FrameStep::ParamReset | FrameStep::ParamApply | FrameStep::ParamSetFromPhysics => s.params,
        FrameStep::AnimationUpdate | FrameStep::AnimationApply => s.animations,
        FrameStep::PhysicsStep => s.physics,
    }
}

fn push_if(steps: &mut Vec<FrameStep>, cond: bool, step: FrameStep)
    ensures
        final(steps)@ == old(steps)@ + (if cond { seq![step] } else { Seq::empty() }),
{
    if cond {
        steps.push(step);
    }
    assert(final(steps)@ =~= old(steps)@ + (if cond { seq![step] } else { Seq::empty() }));
}

impl PuppetStages {
    /// A freshly loaded puppet: nothing initialized.
    pub fn new() -> (r: Self)
        ensures
            r == (PuppetStages {
                transforms: false,
                rendering: false,
                params: false,
                physics: false,
                animations: false,
            }),
            stages_consistent(r),
    {
        PuppetStages { transforms: false, rendering: false, params: false, physics: false, animations: false }
    }

    /// Marks animations initialized; they must not be already.
    pub fn init_animations(&mut self)
        requires
            !old(self).animations,
        ensures
            *final(self) == (PuppetStages { animations: true, ..*old(self) }),
            stages_consistent(*old(self)) ==> stages_consistent(*final(self)),
    {
        self.animations = true;
    }

    /// Marks transforms initialized; they must not be already.
    pub fn init_transforms(&mut self)
        requires
            !old(self).transforms,
        ensures
            *final(self) == (PuppetStages { transforms: true, ..*old(self) }),
            stages_consistent(*old(self)) ==> stages_consistent(*final(self)),
    {
        self.transforms = true;
    }

    /// Marks rendering initialized; transforms must be, and rendering not yet.
    pub fn init_rendering(&mut self)
        requires
            old(self).transforms,
            !old(self).rendering,
        ensures
            *final(self) == (PuppetStages { rendering: true, ..*old(self) }),
            stages_consistent(*old(self)) ==> stages_consistent(*final(self)),
    {
        self.rendering = true;
    }

    /// Marks params initialized; rendering must be, and params not yet.
    pub fn init_params(&mut self)
        requires
            old(self).rendering,
            !old(self).params,
        ensures
            *final(self) == (PuppetStages { params: true, ..*old(self) }),
            stages_consistent(*old(self)) ==> stages_consistent(*final(self)),
    {
        self.params = true;
    }

    /// Marks physics initialized; params must be, and physics not yet.
    pub fn init_physics(&mut self)
        requires
            old(self).params,
            !old(self).physics,
        ensures
            *final(self) == (PuppetStages { physics: true, ..*old(self) }),
            stages_consistent(*old(self)) ==> stages_consistent(*final(self)),
    {
        self.physics = true;
    }

    /// The steps that prepare a new frame: reset what is initialized.
    pub fn begin_frame(&self) -> (r: Vec<FrameStep>)
        ensures
            r@ == begin_frame_steps(*self),
            forall|i: int| 0 <= i < r@.len() ==> step_available(*self, #[trigger] r@[i]),
    {
        let mut steps: Vec<FrameStep> = Vec::new();
        push_if(&mut steps, self.rendering, FrameStep::RenderReset);
        push_if(&mut steps, self.transforms, FrameStep::TransformReset);
        push_if(&mut steps, self.params, FrameStep::ParamReset);
        assert(steps@ =~= begin_frame_steps(*self));
        steps
    }

    /// The steps that finish a frame: animations, parameters, transforms, then physics
    /// with everything it affects run again, and last the render context. On a puppet
    /// whose contexts were initialized in order, every step is available.
    pub fn end_frame(&self) -> (r: Vec<FrameStep>)
        ensures
            r@ == end_frame_steps(*self),
            stages_consistent(*self) ==> forall|i: int|
                0 <= i < r@.len() ==> step_available(*self, #[trigger] r@[i]),
    {
        let mut steps: Vec<FrameStep> = Vec::new();
        if self.animations {
            steps.push(FrameStep::AnimationUpdate);
            push_if(&mut steps, self.params, FrameStep::AnimationApply);
        }
        push_if(&mut steps, self.params, FrameStep::ParamApply);
        push_if(&mut steps, self.transforms, FrameStep::TransformUpdate);
        if self.physics {
            steps.push(FrameStep::PhysicsStep);
            steps.push(FrameStep::RenderReset);
            steps.push(FrameStep::TransformReset);
            steps.push(FrameStep::ParamSetFromPhysics);
            steps.push(FrameStep::ParamApply);
            steps.push(FrameStep::TransformUpdate);
        }
        push_if(&mut steps, self.rendering, FrameStep::RenderUpdate);
        assert(steps@ =~= end_frame_steps(*self));
        steps
    }
}

} // verus!
