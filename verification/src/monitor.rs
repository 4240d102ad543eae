//! The decisions of the polling loop.
//!
//! The loop itself lives with the program around the library: once a tick
//! it samples the power source, and on a transition re-reads the
//! configuration and runs the matching command list.  What to remember and
//! whether to dispatch are decided here, over plain values, so the policy
//! is verified: a failed sample keeps the stored state and never counts as
//! a transition; a successful sample is always committed, even when the
//! reload that follows it fails, so a broken configuration is not retried
//! every tick; commands run only when the reload succeeded.

use vstd::prelude::*;

use crate::config::Config;
use crate::shell_command::ShellCommand;

verus! {

/// The sampled power source.
#[derive(Debug, Clone, Copy, PartialEq, Eq, Structural)]
pub enum PowerState {
    OnAC,
    OnBattery,
}

/// One tick's observation: fold a sample (`None` when the query failed)
/// into the stored state.  Returns the state to store and whether a
/// transition was detected.  A failed query changes nothing; the very
/// first successful sample is always a transition.
pub fn observe_power(stored: Option<PowerState>, sample: Option<PowerState>) -> (r: (
    Option<PowerState>,
    bool,
))
    ensures
        sample is None ==> r == (stored, false),
        sample matches Some(now) ==> r == (Some(now), stored != Some(now)),
{
    match sample {
        None => (stored, false),
        Some(now) => {
            let changed = match stored {
                None => true,
                Some(prev) => !(prev == now),
            };
            (Some(now), changed)
        },
    }
}

/// The command list a newly observed power state selects.
pub fn power_status_changed<'a>(config: &'a Config, is_on_ac: bool) -> (cmds: &'a Vec<
    ShellCommand,
>)
    ensures
        is_on_ac ==> cmds == &config.on_ac_cmds,
        !is_on_ac ==> cmds == &config.on_bat_cmds,
{
    if is_on_ac {
        &config.on_ac_cmds
    } else {
        &config.on_bat_cmds
    }
}

/// What a detected transition dispatches: the matching command list of the
/// freshly loaded configuration, or nothing at all when the reload failed.
pub fn transition_dispatch<'a>(loaded: Option<&'a Config>, is_on_ac: bool) -> (r: Option<&'a Vec<
    ShellCommand,
>>)
    ensures
        loaded is None ==> r is None,
        loaded matches Some(config) ==> r == Some(
            if is_on_ac {
                &config.on_ac_cmds
            } else {
                &config.on_bat_cmds
            },
        ),
{
    match loaded {
        None => None,
        Some(config) => Some(power_status_changed(config, is_on_ac)),
    }
}

} // verus!
