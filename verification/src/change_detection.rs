//! Telling whether something has changed since a system last ran.

use bevy::ecs::change_detection::Tick;
use vstd::prelude::*;

verus! {

/// The age beyond which changes are not told apart.
pub const MAX_CHANGE_AGE: u32 = 3_258_167_296;

/// The number of ticks from `tick` to `this_run`, where ticks wrap around, up to
/// [`MAX_CHANGE_AGE`].
pub open spec fn tick_age(tick: u32, this_run: u32) -> int {
    let age = (this_run - tick) % 0x1_0000_0000;
    if age < MAX_CHANGE_AGE {
        age
    } else {
        MAX_CHANGE_AGE as int
    }
}

/// Whether `changed` is a tick after `last_run`, as seen from `this_run`.
pub open spec fn newer_than(changed: u32, last_run: u32, this_run: u32) -> bool {
    tick_age(changed, this_run) < tick_age(last_run, this_run)
}

/// `Tick::is_newer_than` compares how long ago two ticks were, where ticks wrap around and
/// ages are limited to `MAX_CHANGE_AGE`.
#[verifier::external_body]
pub(crate) fn is_newer_than(changed: u32, last_run: u32, this_run: u32) -> (res: bool)
    ensures
        res == newer_than(changed, last_run, this_run),
{
    Tick::new(changed).is_newer_than(Tick::new(last_run), Tick::new(this_run))
}

/// What has changed in this run is newer than the last run, unless that was in the same tick.
pub proof fn change_in_this_run_is_newer(last_run: u32, this_run: u32)
    requires
        last_run != this_run,
    ensures
        newer_than(this_run, last_run, this_run),
{
}

/// What has not changed since the last run is not newer.
pub proof fn change_in_last_run_is_not_newer(last_run: u32, this_run: u32)
    ensures
        !newer_than(last_run, last_run, this_run),
{
}

/// Among ticks that are not too long ago, what has changed is newer than the last run exactly if
/// its tick is later.
pub proof fn newer_means_later(changed: u32, last_run: u32, this_run: u32)
    requires
        changed <= this_run,
        last_run <= this_run,
        this_run - changed < MAX_CHANGE_AGE,
        this_run - last_run < MAX_CHANGE_AGE,
    ensures
        newer_than(changed, last_run, this_run) <==> changed > last_run,
{
}

} // verus!
