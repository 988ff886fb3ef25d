use vstd::prelude::*;

verus! {

/// The external program that applies a wallpaper under Wayland.
#[allow(non_camel_case_types)]
#[derive(Debug, PartialEq, Eq, Clone, Copy, Structural)]
pub enum WallSetterProgram {
    SWWW,
    PLASMA,
}

/// One action of applying a wallpaper, carried out by the caller.
#[derive(Debug, PartialEq, Eq, Clone, Copy, Structural)]
pub enum SetterStep {
    /// Hand the image to `swww img`.
    SwwwImage,
    /// Hand the image to `plasma-apply-wallpaperimage`.
    PlasmaImage,
    /// Hand the image to `feh --bg-fill` (X11).
    FehImage,
    /// Wait this many seconds.
    Pause(u64),
    /// Stop the swww daemon.
    StopSwwwDaemon,
    /// Start the swww daemon again.
    StartSwwwDaemon,
}

/// Seconds to wait before restarting the swww daemon after an image.
pub const SWWW_SETTLE_SECS: u64 = 10;

/// The actions that apply one wallpaper: under X11 feh sets it; under
/// Wayland the chosen program does, and with swww the daemon may then be
/// restarted after a pause.
pub open spec fn apply_steps(program: WallSetterProgram, wayland: bool, restart_swww: bool) -> Seq<
    SetterStep,
> {
    if !wayland {
        seq![SetterStep::FehImage]
    } else {
        match program {
            WallSetterProgram::SWWW => if restart_swww {
                seq![
                    SetterStep::SwwwImage,
                    SetterStep::Pause(SWWW_SETTLE_SECS),
                    SetterStep::StopSwwwDaemon,
                    SetterStep::StartSwwwDaemon,
                ]
            } else {
                seq![SetterStep::SwwwImage]
            },
            WallSetterProgram::PLASMA => seq![SetterStep::PlasmaImage],
        }
    }
}

/// The actions that apply one wallpaper, in order.
pub fn apply_plan(program: WallSetterProgram, wayland: bool, restart_swww: bool) -> (r: Vec<
    SetterStep,
>)
    ensures
        r@ == apply_steps(program, wayland, restart_swww),
{
    let mut steps: Vec<SetterStep> = Vec::new();
    if !wayland {
        steps.push(SetterStep::FehImage);
    } else {
        match program {
            WallSetterProgram::SWWW => {
                steps.push(SetterStep::SwwwImage);
                if restart_swww {
                    steps.push(SetterStep::Pause(SWWW_SETTLE_SECS));
                    steps.push(SetterStep::StopSwwwDaemon);
                    steps.push(SetterStep::StartSwwwDaemon);
                }
            },
            WallSetterProgram::PLASMA => {
                steps.push(SetterStep::PlasmaImage);
            },
        }
    }
    assert(steps@ =~= apply_steps(program, wayland, restart_swww));
    steps
}

} // verus!
