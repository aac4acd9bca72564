//! Host-facing control state: the game-state machine, debug-overlay flags,
//! pause and sound toggles, and the transient resources the tick recomputes.

use vstd::prelude::*;

verus! {

/// Spawn regions generated at startup: `(center-x, center-y, radius)` discs
/// that bias initial agent placement.
pub struct GenerableRegions(pub Vec<(i64, i64, i64)>);

impl Default for GenerableRegions {
    /// Starts with no regions.
    fn default() -> (r: GenerableRegions)
        ensures
            r.0@.len() == 0,
    {
        GenerableRegions(Vec::new())
    }
}

/// Agent pairs in contact this tick, by agent index; recomputed every tick
/// and never persisted.
pub struct CollidablePairs(pub Vec<(usize, usize)>);

impl Default for CollidablePairs {
    /// Starts with no pairs.
    fn default() -> (r: CollidablePairs)
        ensures
            r.0@.len() == 0,
    {
        CollidablePairs(Vec::new())
    }
}

/// A predator entered an agent's outer sensor: `actor` detected `target`
/// and reacts by fleeing.
pub struct DangerEvent {
    pub actor: usize,
    pub target: usize,
}

/// The coarse state the host drives the simulation through.
#[derive(Default, Debug, Clone, Copy, PartialEq, Eq, Structural, Hash)]
pub enum GameState {
    #[default]
    LoadingRes,
    InGame,
    Paused,
}

/// Which debug overlays and kinds are currently shown. The toggles flip
/// their flag whenever the key was pressed; applying the resulting
/// visibility to on-screen entities is the host's concern.
pub struct DebugState {
    pub points: bool,
    pub rocks: bool,
    pub papers: bool,
    pub scissors: bool,
    pub radius_rocks: bool,
    pub radius_papers: bool,
    pub radius_scissors: bool,
}

impl Default for DebugState {
    /// Agents of every kind start visible; region points and sensor-radius
    /// overlays start hidden.
    fn default() -> (r: DebugState)
        ensures
            r.points == false,
            r.rocks == true,
            r.papers == true,
            r.scissors == true,
            r.radius_rocks == false,
            r.radius_papers == false,
            r.radius_scissors == false,
    {
        DebugState {
            points: false,
            rocks: true,
            papers: true,
            scissors: true,
            radius_rocks: false,
            radius_papers: false,
            radius_scissors: false,
        }
    }
}

impl DebugState {
    /// Flips region-point visibility when its key was pressed.
    pub fn toggle_view_regions(&mut self, pressed: bool)
        ensures
            final(self).points == (if pressed {
                !old(self).points
            } else {
                old(self).points
            }),
            final(self).rocks == old(self).rocks,
            final(self).papers == old(self).papers,
            final(self).scissors == old(self).scissors,
            final(self).radius_rocks == old(self).radius_rocks,
            final(self).radius_papers == old(self).radius_papers,
            final(self).radius_scissors == old(self).radius_scissors,
    {
        if pressed {
            self.points = !self.points;
        }
    }

    /// Flips rock visibility when its key was pressed.
    pub fn toggle_rock(&mut self, pressed: bool)
        ensures
            final(self).rocks == (if pressed {
                !old(self).rocks
            } else {
                old(self).rocks
            }),
            final(self).points == old(self).points,
            final(self).papers == old(self).papers,
            final(self).scissors == old(self).scissors,
            final(self).radius_rocks == old(self).radius_rocks,
            final(self).radius_papers == old(self).radius_papers,
            final(self).radius_scissors == old(self).radius_scissors,
    {
        if pressed {
            self.rocks = !self.rocks;
        }
    }

    /// Flips paper visibility when its key was pressed.
    pub fn toggle_paper(&mut self, pressed: bool)
        ensures
            final(self).papers == (if pressed {
                !old(self).papers
            } else {
                old(self).papers
            }),
            final(self).points == old(self).points,
            final(self).rocks == old(self).rocks,
            final(self).scissors == old(self).scissors,
            final(self).radius_rocks == old(self).radius_rocks,
            final(self).radius_papers == old(self).radius_papers,
            final(self).radius_scissors == old(self).radius_scissors,
    {
        if pressed {
            self.papers = !self.papers;
        }
    }

    /// Flips scissors visibility when its key was pressed.
    pub fn toggle_scissors(&mut self, pressed: bool)
        ensures
            final(self).scissors == (if pressed {
                !old(self).scissors
            } else {
                old(self).scissors
            }),
            final(self).points == old(self).points,
            final(self).rocks == old(self).rocks,
            final(self).papers == old(self).papers,
            final(self).radius_rocks == old(self).radius_rocks,
            final(self).radius_papers == old(self).radius_papers,
            final(self).radius_scissors == old(self).radius_scissors,
    {
        if pressed {
            self.scissors = !self.scissors;
        }
    }

    /// Flips the rock sensor-radius overlay when its key chord was pressed.
    pub fn toggle_rock_radius(&mut self, pressed: bool)
        ensures
            final(self).radius_rocks == (if pressed {
                !old(self).radius_rocks
            } else {
                old(self).radius_rocks
            }),
            final(self).points == old(self).points,
            final(self).rocks == old(self).rocks,
            final(self).papers == old(self).papers,
            final(self).scissors == old(self).scissors,
            final(self).radius_papers == old(self).radius_papers,
            final(self).radius_scissors == old(self).radius_scissors,
    {
        if pressed {
            self.radius_rocks = !self.radius_rocks;
        }
    }

    /// Flips the paper sensor-radius overlay when its key chord was pressed.
    pub fn toggle_paper_radius(&mut self, pressed: bool)
        ensures
            final(self).radius_papers == (if pressed {
                !old(self).radius_papers
            } else {
                old(self).radius_papers
            }),
            final(self).points == old(self).points,
            final(self).rocks == old(self).rocks,
            final(self).papers == old(self).papers,
            final(self).scissors == old(self).scissors,
            final(self).radius_rocks == old(self).radius_rocks,
            final(self).radius_scissors == old(self).radius_scissors,
    {
        if pressed {
            self.radius_papers = !self.radius_papers;
        }
    }

    /// Flips the scissors sensor-radius overlay when its key chord was
    /// pressed.
    pub fn toggle_scissors_radius(&mut self, pressed: bool)
        ensures
            final(self).radius_scissors == (if pressed {
                !old(self).radius_scissors
            } else {
                old(self).radius_scissors
            }),
            final(self).points == old(self).points,
            final(self).rocks == old(self).rocks,
            final(self).papers == old(self).papers,
            final(self).scissors == old(self).scissors,
            final(self).radius_rocks == old(self).radius_rocks,
            final(self).radius_papers == old(self).radius_papers,
    {
        if pressed {
            self.radius_scissors = !self.radius_scissors;
        }
    }
}

/// Pause and sound switches the host's input layer drives.
pub struct GameControl {
    pub stop: bool,
    pub sound: bool,
}

impl Default for GameControl {
    /// The simulation starts stopped, with sound on.
    fn default() -> (r: GameControl)
        ensures
            r.stop == true,
            r.sound == true,
    {
        GameControl { stop: true, sound: true }
    }
}

impl GameControl {
    /// Flips the sound switch when its key was pressed.
    pub fn control_sound(&mut self, pressed: bool)
        ensures
            final(self).sound == (if pressed {
                !old(self).sound
            } else {
                old(self).sound
            }),
            final(self).stop == old(self).stop,
    {
        if pressed {
            self.sound = !self.sound;
        }
    }

    /// Flips the pause switch when its key was pressed and returns the game
    /// state the simulation must move to: `Paused` while stopped, `InGame`
    /// while running.
    pub fn control_time(&mut self, pressed: bool) -> (next: GameState)
        ensures
            final(self).stop == (if pressed {
                !old(self).stop
            } else {
                old(self).stop
            }),
            final(self).sound == old(self).sound,
            next == (if final(self).stop {
                GameState::Paused
            } else {
                GameState::InGame
            }),
    {
        if pressed {
            self.stop = !self.stop;
        }
        if self.stop {
            GameState::Paused
        } else {
            GameState::InGame
        }
    }
}

} // verus!
