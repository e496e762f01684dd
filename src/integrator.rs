//! The decisions of the recursive path-tracing integrator: for a ray with a
//! given bounce budget, what the estimate is made of at this bounce.

use vstd::prelude::*;

verus! {

/// What the integrator does with a ray at one bounce.
#[derive(Debug, Clone, Copy, PartialEq, Eq, Structural)]
pub enum BounceStep {
    /// The bounce budget is spent: the ray carries no light at all.
    Black,
    /// The ray leaves the scene: it carries the background color.
    Background,
    /// The surface does not scatter: the ray carries its emission alone.
    EmissionOnly,
    /// A specular surface: the estimate is its attenuation times the light
    /// along its own scattered ray, which has `next_depth` bounces left.
    FollowSpecular { next_depth: u32 },
    /// A diffuse surface: emission plus one bounce drawn from the mixture of
    /// light sampling and the material's density, with `next_depth` left.
    SampleMixture { next_depth: u32 },
}

/// The step for a ray with `depth` bounces left: `hit` tells whether it
/// meets the scene, `scatters` whether the surface it meets scatters, and
/// `specular` whether that scattering is specular.
pub open spec fn step_of(depth: u32, hit: bool, scatters: bool, specular: bool) -> BounceStep {
    if depth == 0 {
        BounceStep::Black
    } else if !hit {
        BounceStep::Background
    } else if !scatters {
        BounceStep::EmissionOnly
    } else if specular {
        BounceStep::FollowSpecular { next_depth: (depth - 1) as u32 }
    } else {
        BounceStep::SampleMixture { next_depth: (depth - 1) as u32 }
    }
}

/// Decides the step for a ray with `depth` bounces left.
pub fn next_step(depth: u32, hit: bool, scatters: bool, specular: bool) -> (r: BounceStep)
    ensures
        r == step_of(depth, hit, scatters, specular),
        depth == 0 ==> r == BounceStep::Black,
{
    if depth == 0 {
        BounceStep::Black
    } else if !hit {
        BounceStep::Background
    } else if !scatters {
        BounceStep::EmissionOnly
    } else if specular {
        BounceStep::FollowSpecular { next_depth: depth - 1 }
    } else {
        BounceStep::SampleMixture { next_depth: depth - 1 }
    }
}

/// A ray whose bounce budget is spent carries no light, whatever the scene
/// holds and whatever its surfaces do.
pub proof fn lemma_spent_budget_is_black(hit: bool, scatters: bool, specular: bool)
    ensures
        step_of(0, hit, scatters, specular) == BounceStep::Black,
{
}

/// Every step that traces a further ray hands it one bounce fewer, so the
/// recursion ends after at most `depth` bounces.
pub proof fn lemma_budget_decreases(depth: u32, hit: bool, scatters: bool, specular: bool)
    ensures
        match step_of(depth, hit, scatters, specular) {
            BounceStep::FollowSpecular { next_depth } => next_depth + 1 == depth,
            BounceStep::SampleMixture { next_depth } => next_depth + 1 == depth,
            _ => true,
        },
{
}

} // verus!
