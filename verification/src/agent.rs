//! The per-agent record: kind, position, velocity, and perception radius.

use crate::geom::Vec2;
use crate::kind::Mock;
use vstd::prelude::*;

verus! {

/// One simulated agent. Identity is the agent's index in the simulation's
/// agent table; agents are never destroyed, conversion mutates `kind` in
/// place.
#[derive(Clone, Copy, Debug, PartialEq, Eq, Structural)]
pub struct Agent {
    pub kind: Mock,
    pub pos: Vec2,
    pub vel: Vec2,
    /// Radius of the outer "danger" sensor within which predators trigger
    /// the flee reaction.
    pub vision: i64,
}

impl Agent {
    /// Creates an agent of `kind` at `pos`, looking `vision` far, moving
    /// with the initial diagonal velocity `(speed, speed)`.
    pub fn new(kind: Mock, pos: Vec2, vision: i64, speed: i64) -> (a: Agent)
        ensures
            a.kind == kind,
            a.pos == pos,
            a.vision == vision,
            a.vel == (Vec2 { x: speed, y: speed }),
    {
        Agent { kind, pos, vel: Vec2 { x: speed, y: speed }, vision }
    }

    /// Converts this agent to kind `k`, keeping position, velocity and
    /// vision. Converting an agent already of kind `k` changes nothing at
    /// all: conversion is idempotent in kind-space.
    pub fn convert_to(&mut self, k: Mock)
        ensures
            final(self).kind == k,
            final(self).pos == old(self).pos,
            final(self).vel == old(self).vel,
            final(self).vision == old(self).vision,
            old(self).kind == k ==> *final(self) == *old(self),
    {
        self.kind = k;
    }
}

} // verus!
