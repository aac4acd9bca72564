//! The three agent kinds and their cyclic dominance relation.
//!
//! Rock beats Scissors, Paper beats Rock, Scissors beats Paper: every kind
//! has exactly one prey and one predator, and following the prey relation
//! three times leads back to the starting kind.

use vstd::prelude::*;
use vstd::string::StringExecFns;

verus! {

/// An agent's kind. Every agent belongs to exactly one kind at all times.
#[derive(Clone, Copy, Debug, PartialEq, Eq, Structural)]
pub enum Mock {
    Rock,
    Paper,
    Scissors,
}

impl Mock {
    /// The kind this kind beats and converts on contact.
    pub open spec fn spec_prey(self) -> Mock {
        match self {
            Mock::Rock => Mock::Scissors,
            Mock::Paper => Mock::Rock,
            Mock::Scissors => Mock::Paper,
        }
    }

    /// The kind this kind is beaten and converted by.
    pub open spec fn spec_predator(self) -> Mock {
        match self {
            Mock::Rock => Mock::Paper,
            Mock::Paper => Mock::Scissors,
            Mock::Scissors => Mock::Rock,
        }
    }

    #[verifier::when_used_as_spec(spec_prey)]
    pub fn prey(self) -> (r: Mock)
        ensures
            r == self.spec_prey(),
    {
        match self {
            Mock::Rock => Mock::Scissors,
            Mock::Paper => Mock::Rock,
            Mock::Scissors => Mock::Paper,
        }
    }

    #[verifier::when_used_as_spec(spec_predator)]
    pub fn predator(self) -> (r: Mock)
        ensures
            r == self.spec_predator(),
    {
        match self {
            Mock::Rock => Mock::Paper,
            Mock::Paper => Mock::Scissors,
            Mock::Scissors => Mock::Rock,
        }
    }
}

/// The prey relation is a 3-cycle: following it three times from any kind
/// returns to that kind, and it never maps a kind to itself.
pub proof fn lemma_prey_cycle(k: Mock)
    ensures
        k.spec_prey().spec_prey().spec_prey() == k,
        k.spec_prey() != k,
{
}

/// The predator of a kind is the unique kind whose prey is that kind:
/// `j` preys on `k` exactly when `j` is `k`'s predator.
pub proof fn lemma_predator_unique(k: Mock, j: Mock)
    ensures
        (j.spec_prey() == k) <==> (j == k.spec_predator()),
{
}

/// Marker for agents of the Rock kind.
#[derive(Clone, Copy, Debug, PartialEq, Eq, Structural)]
pub struct Rock;

/// Marker for agents of the Paper kind.
#[derive(Clone, Copy, Debug, PartialEq, Eq, Structural)]
pub struct Paper;

/// Marker for agents of the Scissors kind.
#[derive(Clone, Copy, Debug, PartialEq, Eq, Structural)]
pub struct Scissors;

/// Names the image and sound assets that present an agent of a kind.
/// The host's asset service resolves the returned names.
pub trait HasSprite {
    fn img(&self) -> String;

    fn sound(&self) -> String;
}

impl HasSprite for Rock {
    fn img(&self) -> (r: String)
        ensures
            r@ == "sprites//rock.png"@,
    {
        String::from_str("sprites//rock.png")
    }

    fn sound(&self) -> (r: String)
        ensures
            r@ == "sounds/rock.ogg"@,
    {
        String::from_str("sounds/rock.ogg")
    }
}

impl HasSprite for Paper {
    fn img(&self) -> (r: String)
        ensures
            r@ == "sprites//paper.png"@,
    {
        String::from_str("sprites//paper.png")
    }

    fn sound(&self) -> (r: String)
        ensures
            r@ == "sounds/paper.ogg"@,
    {
        String::from_str("sounds/paper.ogg")
    }
}

impl HasSprite for Scissors {
    fn img(&self) -> (r: String)
        ensures
            r@ == "sprites//scissors.png"@,
    {
        String::from_str("sprites//scissors.png")
    }

    fn sound(&self) -> (r: String)
        ensures
            r@ == "sounds/scissors.ogg"@,
    {
        String::from_str("sounds/scissors.ogg")
    }
}

} // verus!
