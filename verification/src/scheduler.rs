//! The per-frame phase decision: given the time elapsed since the cycle
//! started, keep growing, transition to the frozen phase, or ask the caller
//! to reset the world.

use vstd::prelude::*;

use crate::config::Configuration;
use crate::world::World;

verus! {

/// Drives the phase state of one cycle. While the growth window is open the
/// world is untouched. Once it closes, the growth phase is marked complete
/// and every pipe is force-killed, so later frames render a static image.
/// After the freeze window has also passed, the caller is told to reset.
pub fn check_time_step(elapsed_secs: u64, cfg: &Configuration, world: &mut World) -> (reset: bool)
    requires
        old(world).wf(),
    ensures
        final(world).wf(),
        elapsed_secs < cfg.world.max_gen_time ==> !reset && *final(world) == *old(world),
        cfg.world.max_gen_time <= elapsed_secs && elapsed_secs < cfg.world.max_gen_time
            + cfg.world.max_freeze_time ==> {
            &&& !reset
            &&& final(world).gen_complete
            &&& forall|k: int| 0 <= k < final(world).pipes@.len() ==> !final(world).pipes@[k].alive
            &&& final(world).pipes@.len() == old(world).pipes@.len()
            &&& forall|k: int|
                0 <= k < old(world).pipes@.len() ==> final(world).pipes@[k].nodes == old(
                    world,
                ).pipes@[k].nodes
            &&& final(world).occupied_nodes == old(world).occupied_nodes
            &&& final(world).pipe_colors == old(world).pipe_colors
            &&& final(world).space_bounds == old(world).space_bounds
        },
        elapsed_secs >= cfg.world.max_gen_time + cfg.world.max_freeze_time ==> reset
            && *final(world) == *old(world),
{
    let max_gen = cfg.world.max_gen_time as u64;
    let max_freeze = cfg.world.max_freeze_time as u64;
    if elapsed_secs < max_gen {
        false
    } else if elapsed_secs < max_gen + max_freeze {
        world.set_gen_complete();
        world.force_kill_all();
        false
    } else {
        true
    }
}

} // verus!
