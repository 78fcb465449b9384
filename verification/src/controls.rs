use vstd::prelude::*;

verus! {

/// How the camera follows the player.
#[derive(Clone, Copy, Debug, PartialEq, Eq, Structural)]
pub enum CameraMode {
    FirstPerson,
    Spectator,
    ThirdPerson,
}

impl Default for CameraMode {
    fn default() -> (m: Self)
        ensures
            m == CameraMode::Spectator,
    {
        CameraMode::Spectator
    }
}

/// The part of the game's settings that input switches: whether the game is paused and
/// the camera mode.
#[derive(Clone, Copy, Debug)]
pub struct Controls {
    pub paused: bool,
    pub camera_mode: CameraMode,
}

/// The keys of one frame that switch the controls: Escape just pressed, and F, E and H
/// held.
#[derive(Clone, Copy, Debug)]
pub struct ControlKeys {
    pub pause_toggled: bool,
    pub first_person: bool,
    pub spectator: bool,
    pub third_person: bool,
}

/// The camera mode after one frame: F picks first person, else E spectator, else H third
/// person, each only when the mode is another one; otherwise the mode stays.
pub open spec fn next_mode(mode: CameraMode, keys: ControlKeys) -> CameraMode {
    if keys.first_person && mode != CameraMode::FirstPerson {
        CameraMode::FirstPerson
    } else if keys.spectator && mode != CameraMode::Spectator {
        CameraMode::Spectator
    } else if keys.third_person && mode != CameraMode::ThirdPerson {
        CameraMode::ThirdPerson
    } else {
        mode
    }
}

/// The controls at the start of the game: paused, with the spectator camera.
pub fn initial_controls() -> (c: Controls)
    ensures
        c.paused,
        c.camera_mode == CameraMode::Spectator,
{
    Controls { paused: true, camera_mode: CameraMode::default() }
}

/// One frame of input: Escape toggles the pause; while paused nothing else changes,
/// otherwise the camera mode switches as `next_mode` says. Returns the new controls and
/// whether the mode changed (which the game announces).
pub fn update_controls(c: Controls, keys: ControlKeys) -> (r: (Controls, bool))
    ensures
        r.0.paused == (c.paused != keys.pause_toggled),
        r.0.paused ==> r.0.camera_mode == c.camera_mode,
        !r.0.paused ==> r.0.camera_mode == next_mode(c.camera_mode, keys),
        r.1 == (r.0.camera_mode != c.camera_mode),
{
    let mut paused = c.paused;
    if keys.pause_toggled {
        paused = !paused;
    }
    if paused {
        return (Controls { paused, camera_mode: c.camera_mode }, false);
    }
    let mode = c.camera_mode;
    let next = if keys.first_person && mode != CameraMode::FirstPerson {
        CameraMode::FirstPerson
    } else if keys.spectator && mode != CameraMode::Spectator {
        CameraMode::Spectator
    } else if keys.third_person && mode != CameraMode::ThirdPerson {
        CameraMode::ThirdPerson
    } else {
        mode
    };
    (Controls { paused, camera_mode: next }, next != mode)
}

} // verus!
