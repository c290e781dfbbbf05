use vstd::prelude::*;

verus! {

/// What the scene and the hit material did with a traced ray.
#[derive(Clone, Copy, Debug, PartialEq, Eq, Structural)]
pub enum TraceOutcome {
    /// The ray hit nothing and reached the sky.
    Escaped,
    /// The ray hit a surface whose material sent out a new ray.
    Scattered,
    /// The ray hit a surface whose material absorbed it.
    Absorbed,
}

/// What a light path does next.
#[derive(Clone, Copy, Debug, PartialEq, Eq, Structural)]
pub enum PathStep {
    /// Trace the current ray through the scene, with `remaining` bounces left
    /// in the budget, this one included.
    Trace { remaining: i32 },
    /// The path ends in the sky: its colour is the sky's, times the
    /// attenuations met so far.
    Sky,
    /// The path ends without light: its colour is black.
    Black,
}

pub open spec fn spec_start_path(depth: i32) -> PathStep {
    if depth > 0 {
        PathStep::Trace { remaining: depth }
    } else {
        PathStep::Black
    }
}

pub open spec fn spec_after_trace(remaining: i32, outcome: TraceOutcome) -> PathStep {
    match outcome {
        TraceOutcome::Escaped => PathStep::Sky,
        TraceOutcome::Absorbed => PathStep::Black,
        TraceOutcome::Scattered => spec_start_path((remaining - 1) as i32),
    }
}

/// The first step of a path with a bounce budget of `depth`: a path with no
/// budget left is black whatever the scene holds.
pub fn start_path(depth: i32) -> (r: PathStep)
    ensures
        r == spec_start_path(depth),
        depth <= 0 ==> r == PathStep::Black,
{
    if depth > 0 {
        PathStep::Trace { remaining: depth }
    } else {
        PathStep::Black
    }
}

/// The step after tracing a ray with `remaining` bounces left: an escaped ray
/// ends in the sky, an absorbed one in black, and a scattered one goes on
/// with one bounce less.
pub fn after_trace(remaining: i32, outcome: TraceOutcome) -> (r: PathStep)
    requires
        remaining > 0,
    ensures
        r == spec_after_trace(remaining, outcome),
{
    match outcome {
        TraceOutcome::Escaped => PathStep::Sky,
        TraceOutcome::Absorbed => PathStep::Black,
        TraceOutcome::Scattered => start_path(remaining - 1),
    }
}

/// How many rays a path traces from `step` on when the scene answers its
/// traces with `outcomes` in turn (it stops when they run out).
pub open spec fn traces_made(step: PathStep, outcomes: Seq<TraceOutcome>) -> nat
    decreases outcomes.len(),
{
    match step {
        PathStep::Trace { remaining } => {
            if outcomes.len() == 0 || remaining <= 0 {
                0
            } else {
                1 + traces_made(spec_after_trace(remaining, outcomes[0]), outcomes.drop_first())
            }
        },
        _ => 0,
    }
}

/// A path never traces more rays than its bounce budget, whatever the scene
/// does with them.
pub proof fn lemma_path_within_budget(depth: i32, outcomes: Seq<TraceOutcome>)
    ensures
        traces_made(spec_start_path(depth), outcomes) <= if depth > 0 {
            depth as int
        } else {
            0
        },
    decreases outcomes.len(),
{
    if depth > 0 && outcomes.len() > 0 {
        let rest = outcomes.drop_first();
        let next = spec_after_trace(depth, outcomes[0]);
        assert(traces_made(spec_start_path(depth), outcomes) == 1 + traces_made(next, rest));
        lemma_path_within_budget((depth - 1) as i32, rest);
        assert(traces_made(PathStep::Sky, rest) == 0);
        assert(traces_made(PathStep::Black, rest) == 0);
    }
}

} // verus!
