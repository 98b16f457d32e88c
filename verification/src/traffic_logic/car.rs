//! Cars and the turns they intend to make.

use vstd::prelude::*;
use rand::rngs::StdRng;
use crate::traffic_logic::intersection::TrafficLight;
use crate::traffic_logic::random::draw_up_to;

verus! {

/// The manoeuvre a driver intends to make at the next intersection.
#[derive(Clone, Copy, PartialEq, Eq, Debug, Structural)]
pub enum Direction {
    Left,
    Right,
    Straight,
    UTurn,
}

impl Direction {
    /// By how many quarter turns the manoeuvre moves a car on from the
    /// approach it sits at: one for a left turn, three for a right turn, two
    /// for going straight, none for turning around.
    pub open spec fn quarter_turns(self) -> int {
        match self {
            Direction::Left => 1,
            Direction::Right => 3,
            Direction::Straight => 2,
            Direction::UTurn => 0,
        }
    }

    /// The cardinal direction (0 north, 1 east, 2 south, 3 west) a car leaves
    /// in, given the approach it sits at and its intent.
    pub open spec fn spec_next_direction(source: u8, intent: Direction) -> u8 {
        ((source as int + intent.quarter_turns()) % 4) as u8
    }

    /// The direction a car leaves in. Sources above 3 count as the
    /// direction they are a whole number of turns away from.
    pub fn get_next_direction(source: u8, intent: Self) -> (next: u8)
        ensures
            next == Self::spec_next_direction(source, intent),
            next < 4,
    {
        let base: u8 = source % 4;
        match intent {
            Self::Left => (base + 1) % 4,
            Self::Right => (base + 3) % 4,
            Self::Straight => (base + 2) % 4,
            Self::UTurn => if source < 4 {
                source
            } else {
                base
            },
        }
    }

    /// The intent that a drawn number stands for.
    pub open spec fn spec_from_index(n: u8) -> Direction {
        if n == 0 {
            Direction::Left
        } else if n == 1 {
            Direction::Right
        } else if n == 2 {
            Direction::UTurn
        } else {
            Direction::Straight
        }
    }

    /// Turns a drawn number into an intent: 0 left, 1 right, 2 around,
    /// anything else straight.
    pub fn from_index(n: u8) -> (intent: Direction)
        ensures
            intent == Self::spec_from_index(n),
    {
        match n {
            0 => Direction::Left,
            1 => Direction::Right,
            2 => Direction::UTurn,
            _ => Direction::Straight,
        }
    }
}

/// One vehicle: who it is, how long it has waited at red lights, what it
/// intends to do next, and whether it is still waiting for a green.
#[derive(Clone, Copy, Debug)]
pub struct Car {
    pub id: u8,
    pub wait_time: usize,
    pub intention: Direction,
    /// True while the car waits in a queue; false once a light has let it go.
    pub at_intersection: bool,
}

/// Two cars are the same car if they have the same id.
impl PartialEq for Car {
    fn eq(&self, other: &Self) -> (same: bool) {
        self.id == other.id
    }
}

impl Eq for Car {

}

impl vstd::std_specs::cmp::PartialEqSpecImpl for Car {
    open spec fn obeys_eq_spec() -> bool {
        true
    }

    open spec fn eq_spec(&self, other: &Self) -> bool {
        self.id == other.id
    }
}

impl Car {
    /// A new car waits, has not waited yet, and intends to go straight.
    pub fn new(id: u8) -> (car: Car)
        ensures
            car == (Car { id, wait_time: 0, intention: Direction::Straight, at_intersection: true }),
    {
        Car { id, wait_time: 0, intention: Direction::Straight, at_intersection: true }
    }

    /// Replaces the intent by one drawn from the generator. Any of the four
    /// intents can come out; the rest of the car is untouched.
    pub fn randomize_intent(&mut self, rng: &mut StdRng)
        ensures
            *final(self) == (Car { intention: final(self).intention, ..*old(self) }),
    {
        self.intention = Direction::from_index(draw_up_to(rng, 3));
    }

    /// Whether a light lets a car with the given intent go: a left turn needs
    /// the protected-left signal green, every other manoeuvre the main one.
    pub open spec fn permits(light: TrafficLight, intent: Direction) -> bool {
        match intent {
            Direction::Left => light.left_turn_status.is_green(),
            _ => light.main_status.is_green(),
        }
    }

    /// Whether the car may go under `lights`, sitting at approach
    /// `main_light_index`.
    pub open spec fn spec_can_go(&self, lights: &[TrafficLight; 4], main_light_index: usize) -> bool {
        Self::permits(lights@[main_light_index as int], self.intention)
    }

    /// Whether the light at approach `main_light_index` lets the car go.
    #[verifier::when_used_as_spec(spec_can_go)]
    pub fn can_go(&self, lights: &[TrafficLight; 4], main_light_index: usize) -> (go: bool)
        requires
            main_light_index < 4,
        ensures
            go == self.spec_can_go(lights, main_light_index),
    {
        let forward_light = &lights[main_light_index];
        match self.intention {
            Direction::Left => forward_light.left_turn_status.is_green(),
            _ => forward_light.main_status.is_green(),
        }
    }

    /// The car as it is after having been let go.
    pub open spec fn released(self) -> Car {
        Car { at_intersection: false, ..self }
    }

    /// The car as it is after having been held back for one tick.
    pub open spec fn delayed(self) -> Car {
        Car { wait_time: (self.wait_time + 1) as usize, ..self }
    }

    /// Shows the car the lights of its intersection. If they let it go, the
    /// car stops waiting; if not, it has waited one tick more.
    pub fn notify(&mut self, main_light_index: usize, lights: &[TrafficLight; 4]) -> (go: bool)
        requires
            main_light_index < 4,
            old(self).wait_time < usize::MAX,
        ensures
            go == old(self).spec_can_go(lights, main_light_index),
            go ==> *final(self) == old(self).released(),
            !go ==> *final(self) == old(self).delayed(),
    {
        if self.can_go(lights, main_light_index) {
            self.at_intersection = false;
            true
        } else {
            self.wait_time += 1;
            false
        }
    }
}

} // verus!
