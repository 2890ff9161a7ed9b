use vstd::prelude::*;

verus! {

/// The cycle length of cosine annealing at `superbatch`: one `step_size` for the first two
/// cycles, then doubling to two, four and at most eight step sizes.
pub open spec fn sdg_step_spec(superbatch: nat, step_size: nat) -> nat {
    if superbatch < step_size * 2 {
        step_size
    } else if superbatch < step_size * 4 {
        step_size * 2
    } else if superbatch < step_size * 8 {
        step_size * 4
    } else {
        step_size * 8
    }
}

pub fn sdg_step(superbatch: usize, step_size: usize) -> (r: usize)
    requires
        step_size * 8 <= usize::MAX,
    ensures
        r == sdg_step_spec(superbatch as nat, step_size as nat),
{
    if superbatch < step_size * 2 {
        step_size
    } else if superbatch < step_size * 4 {
        step_size * 2
    } else if superbatch < step_size * 8 {
        step_size * 4
    } else {
        step_size * 8
    }
}

/// How many drops of a step schedule have happened by `superbatch`: one every `step`
/// superbatches, counting from superbatch 1.
pub open spec fn drops_spec(superbatch: nat, step: nat) -> nat {
    if superbatch == 0 {
        0
    } else {
        ((superbatch - 1) as nat) / step
    }
}

pub fn drops(superbatch: usize, step: usize) -> (r: usize)
    requires
        step > 0,
    ensures
        r == drops_spec(superbatch as nat, step as nat),
{
    superbatch.saturating_sub(1) / step
}

/// Where a step schedule with warm-up stands: whether `superbatch` is still in the warm-up
/// phase, and the drops counted within its phase.
pub open spec fn warmup_drops_spec(superbatch: nat, step: nat, warmup_batches: nat) -> (bool, nat) {
    if superbatch <= warmup_batches {
        (true, drops_spec(superbatch, step))
    } else {
        (false, drops_spec((superbatch - warmup_batches) as nat, step))
    }
}

pub fn warmup_drops(superbatch: usize, step: usize, warmup_batches: usize) -> (r: (bool, usize))
    requires
        step > 0,
    ensures
        r.0 == warmup_drops_spec(superbatch as nat, step as nat, warmup_batches as nat).0,
        r.1 == warmup_drops_spec(superbatch as nat, step as nat, warmup_batches as nat).1,
{
    if superbatch <= warmup_batches {
        (true, drops(superbatch, step))
    } else {
        (false, drops(superbatch - warmup_batches, step))
    }
}

/// A checkpoint is due every `save_rate` superbatches and at the last one.
pub open spec fn save_due_spec(superbatch: nat, save_rate: nat, end_superbatch: nat) -> bool {
    superbatch % save_rate == 0 || superbatch == end_superbatch
}

pub fn save_due(superbatch: usize, save_rate: usize, end_superbatch: usize) -> (r: bool)
    requires
        save_rate > 0,
    ensures
        r == save_due_spec(superbatch as nat, save_rate as nat, end_superbatch as nat),
{
    superbatch % save_rate == 0 || superbatch == end_superbatch
}

} // verus!
