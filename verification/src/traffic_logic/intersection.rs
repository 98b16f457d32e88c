//! Traffic lights, the named light patterns, and one intersection with its
//! four lights and four queues of waiting cars.

use vstd::prelude::*;
use std::collections::VecDeque;
use rand::rngs::StdRng;
use crate::traffic_logic::car::Car;
use crate::traffic_logic::random::draw_up_to;

verus! {

/// The colour one signal shows.
#[derive(Clone, Copy, PartialEq, Eq, Debug, Structural)]
pub enum LightStatus {
    Green,
    Yellow,
    Red,
}

impl LightStatus {
    /// The status that a drawn number stands for: 0 is green, 1 is yellow,
    /// anything else is red.
    pub open spec fn spec_from_index(n: u8) -> LightStatus {
        if n == 0 {
            LightStatus::Green
        } else if n == 1 {
            LightStatus::Yellow
        } else {
            LightStatus::Red
        }
    }

    /// Turns a drawn number into a status.
    pub fn from_index(n: u8) -> (s: LightStatus)
        ensures
            s == Self::spec_from_index(n),
    {
        match n {
            0 => LightStatus::Green,
            1 => LightStatus::Yellow,
            _ => LightStatus::Red,
        }
    }

    /// The name of the colour, as it is written out.
    pub open spec fn spec_as_str(self) -> Seq<char> {
        match self {
            LightStatus::Green => "Green"@,
            LightStatus::Yellow => "Yellow"@,
            LightStatus::Red => "Red"@,
        }
    }

    /// The colour as text: "Green", "Yellow" or "Red".
    pub fn as_str(&self) -> (name: &'static str)
        ensures
            name@ == self.spec_as_str(),
    {
        match self {
            LightStatus::Green => "Green",
            LightStatus::Yellow => "Yellow",
            LightStatus::Red => "Red",
        }
    }

    /// Whether the signal lets traffic through.
    pub open spec fn spec_is_green(self) -> bool {
        self == LightStatus::Green
    }

    /// Whether the signal is green.
    #[verifier::when_used_as_spec(spec_is_green)]
    pub fn is_green(self) -> (g: bool)
        ensures
            g == self.spec_is_green(),
    {
        match self {
            LightStatus::Green => true,
            _ => false,
        }
    }
}

/// The pair of signals that faces one approach of an intersection: the main
/// signal, for going straight, right or around, and the protected left turn.
#[derive(Clone, Copy, PartialEq, Eq, Debug, Structural)]
pub struct TrafficLight {
    pub main_status: LightStatus,
    pub left_turn_status: LightStatus,
}

impl TrafficLight {
    /// A light whose two signals are drawn independently. Any pair of
    /// statuses can come back.
    pub fn rand(rng: &mut StdRng) -> (light: TrafficLight) {
        let main_status = LightStatus::from_index(draw_up_to(rng, 2));
        let left_turn_status = LightStatus::from_index(draw_up_to(rng, 2));
        TrafficLight { main_status, left_turn_status }
    }
}

/// The eight patterns an intersection can show. Each fixes all four lights.
#[derive(Clone, Copy, PartialEq, Eq, Debug, Structural)]
pub enum LightConfig {
    NorthSouth,
    EastWest,
    NorthSouthTurns,
    EastWestTurns,
    NorthLeft,
    SouthLeft,
    EastLeft,
    WestLeft,
}

impl LightConfig {
    /// Whether the pattern shows a green main signal to approach `d`.
    pub open spec fn main_green(self, d: int) -> bool {
        match self {
            LightConfig::NorthSouth => d == 0 || d == 2,
            LightConfig::EastWest => d == 1 || d == 3,
            LightConfig::NorthSouthTurns => false,
            LightConfig::EastWestTurns => false,
            LightConfig::NorthLeft => d == 0,
            LightConfig::EastLeft => d == 1,
            LightConfig::SouthLeft => d == 2,
            LightConfig::WestLeft => d == 3,
        }
    }

    /// Whether the pattern shows a green protected left turn to approach `d`.
    pub open spec fn left_green(self, d: int) -> bool {
        match self {
            LightConfig::NorthSouth => false,
            LightConfig::EastWest => false,
            LightConfig::NorthSouthTurns => d == 0 || d == 2,
            LightConfig::EastWestTurns => d == 1 || d == 3,
            LightConfig::NorthLeft => d == 0,
            LightConfig::EastLeft => d == 1,
            LightConfig::SouthLeft => d == 2,
            LightConfig::WestLeft => d == 3,
        }
    }

    /// The light that the pattern shows to approach `d`: a signal is green
    /// where the pattern says so and red everywhere else.
    pub open spec fn spec_light(self, d: int) -> TrafficLight {
        TrafficLight {
            main_status: if self.main_green(d) {
                LightStatus::Green
            } else {
                LightStatus::Red
            },
            left_turn_status: if self.left_green(d) {
                LightStatus::Green
            } else {
                LightStatus::Red
            },
        }
    }

    fn light_at(&self, d: u8) -> (light: TrafficLight)
        requires
            d < 4,
        ensures
            light == self.spec_light(d as int),
    {
        let (pair, single): (bool, u8) = match self {
            LightConfig::NorthSouth => (true, 0),
            LightConfig::EastWest => (true, 1),
            LightConfig::NorthSouthTurns => (true, 0),
            LightConfig::EastWestTurns => (true, 1),
            LightConfig::NorthLeft => (false, 0),
            LightConfig::EastLeft => (false, 1),
            LightConfig::SouthLeft => (false, 2),
            LightConfig::WestLeft => (false, 3),
        };
        let turns_only: bool = match self {
            LightConfig::NorthSouthTurns => true,
            LightConfig::EastWestTurns => true,
            _ => false,
        };
        let lit: bool = if pair {
            d % 2 == single
        } else {
            d == single
        };
        let main_on: bool = lit && !turns_only;
        let left_on: bool = lit && (turns_only || !pair);
        TrafficLight {
            main_status: if main_on {
                LightStatus::Green
            } else {
                LightStatus::Red
            },
            left_turn_status: if left_on {
                LightStatus::Green
            } else {
                LightStatus::Red
            },
        }
    }

    /// All four lights of the pattern, north first.
    pub fn get_lights(&self) -> (lights: [TrafficLight; 4])
        ensures
            forall|d: int|
                #![trigger lights@[d]]
                #![trigger self.spec_light(d)]
                0 <= d < 4 ==> lights@[d] == self.spec_light(d),
    {
        [self.light_at(0), self.light_at(1), self.light_at(2), self.light_at(3)]
    }

    /// The pattern that a drawn number stands for.
    pub open spec fn spec_from_index(n: u8) -> LightConfig {
        if n == 0 {
            LightConfig::NorthSouth
        } else if n == 1 {
            LightConfig::EastWest
        } else if n == 2 {
            LightConfig::EastWestTurns
        } else if n == 3 {
            LightConfig::NorthSouthTurns
        } else if n == 4 {
            LightConfig::EastLeft
        } else if n == 5 {
            LightConfig::WestLeft
        } else if n == 6 {
            LightConfig::NorthLeft
        } else {
            LightConfig::SouthLeft
        }
    }

    /// Turns a drawn number into a pattern; numbers above 7 count as 7.
    pub fn from_index(n: u8) -> (config: LightConfig)
        ensures
            config == Self::spec_from_index(n),
    {
        match n {
            0 => LightConfig::NorthSouth,
            1 => LightConfig::EastWest,
            2 => LightConfig::EastWestTurns,
            3 => LightConfig::NorthSouthTurns,
            4 => LightConfig::EastLeft,
            5 => LightConfig::WestLeft,
            6 => LightConfig::NorthLeft,
            _ => LightConfig::SouthLeft,
        }
    }

    /// One of the eight patterns, drawn from the generator.
    pub fn random(rng: &mut StdRng) -> (config: LightConfig) {
        LightConfig::from_index(draw_up_to(rng, 7))
    }
}

/// One signal-controlled intersection: a light for each of the four
/// approaches, and for each approach the cars waiting there, first come
/// first.
#[derive(Debug)]
pub struct Intersection {
    pub id: u8,
    pub lights: [TrafficLight; 4],
    pub light_queues: [VecDeque<u8>; 4],
}

/// Two intersections are the same intersection if they have the same id.
impl PartialEq for Intersection {
    fn eq(&self, other: &Self) -> (same: bool) {
        self.id == other.id
    }
}

impl Eq for Intersection {

}

impl vstd::std_specs::cmp::PartialEqSpecImpl for Intersection {
    open spec fn obeys_eq_spec() -> bool {
        true
    }

    open spec fn eq_spec(&self, other: &Self) -> bool {
        self.id == other.id
    }
}

impl Intersection {
    /// The cars waiting at approach `d`, head first.
    pub open spec fn queue(self, d: int) -> Seq<u8> {
        self.light_queues@[d]@
    }

    /// An intersection with empty queues. Its four lights start out alike,
    /// as one light drawn from the generator.
    pub fn new(id: u8, rng: &mut StdRng) -> (s: Intersection)
        ensures
            s.id == id,
            forall|d: int| 0 <= d < 4 ==> #[trigger] s.queue(d) == Seq::<u8>::empty(),
            forall|d: int| 0 <= d < 4 ==> #[trigger] s.lights@[d] == s.lights@[0],
    {
        let light = TrafficLight::rand(rng);
        Intersection {
            id,
            lights: [light, light, light, light],
            light_queues: [VecDeque::new(), VecDeque::new(), VecDeque::new(), VecDeque::new()],
        }
    }

    /// Puts a car at the tail of the queue of approach `dir`.
    pub fn add_car_to_queue(&mut self, car_id: u8, dir: u8)
        requires
            dir < 4,
        ensures
            final(self).queue(dir as int) == old(self).queue(dir as int).push(car_id),
            forall|d: int| 0 <= d < 4 && d != dir ==> #[trigger] final(self).queue(d) == old(self).queue(d),
            final(self).id == old(self).id,
            final(self).lights == old(self).lights,
    {
        let d: usize = dir as usize;
        self.light_queues[d].push_back(car_id);
    }

    /// The light that faces approach `direction`.
    pub fn get_lights(&self, direction: u8) -> (light: TrafficLight)
        requires
            direction < 4,
        ensures
            light == self.lights@[direction as int],
    {
        let d: usize = direction as usize;
        self.lights[d]
    }

    /// Switches all four lights to a pattern. The queues stay as they are.
    pub fn apply_light_config(&mut self, config: LightConfig)
        ensures
            forall|d: int|
                #![trigger final(self).lights@[d]]
                #![trigger config.spec_light(d)]
                0 <= d < 4 ==> final(self).lights@[d] == config.spec_light(d),
            final(self).id == old(self).id,
            final(self).light_queues == old(self).light_queues,
    {
        self.lights = config.get_lights();
    }

    /// Takes the head of the queue of approach `direction`, if there is one.
    pub fn release_head(&mut self, direction: u8) -> (head: Option<u8>)
        requires
            direction < 4,
        ensures
            old(self).queue(direction as int).len() == 0 ==> head.is_none() && final(self).queue(
                direction as int,
            ) == old(self).queue(direction as int),
            old(self).queue(direction as int).len() > 0 ==> head == Some(
                old(self).queue(direction as int)[0],
            ) && final(self).queue(direction as int) == old(self).queue(
                direction as int,
            ).drop_first(),
            forall|d: int|
                0 <= d < 4 && d != direction ==> #[trigger] final(self).queue(d) == old(self).queue(
                    d,
                ),
            final(self).id == old(self).id,
            final(self).lights == old(self).lights,
    {
        let d: usize = direction as usize;
        let head = self.light_queues[d].pop_front();
        proof {
            if old(self).queue(direction as int).len() > 0 {
                assert(self.queue(direction as int) =~= old(self).queue(
                    direction as int,
                ).drop_first());
            }
        }
        head
    }

    /// Puts a car back at the head of the queue of approach `dir`, in front
    /// of everyone waiting there.
    pub fn return_to_front(&mut self, car_id: u8, dir: u8)
        requires
            dir < 4,
        ensures
            final(self).queue(dir as int) == seq![car_id] + old(self).queue(dir as int),
            forall|d: int| 0 <= d < 4 && d != dir ==> #[trigger] final(self).queue(d) == old(self).queue(d),
            final(self).id == old(self).id,
            final(self).lights == old(self).lights,
    {
        let d: usize = dir as usize;
        self.light_queues[d].push_front(car_id);
    }

    /// Car `c` is the first in the queue of approach `d`.
    pub open spec fn heads(self, c: int, d: int) -> bool {
        self.queue(d).len() > 0 && self.queue(d)[0] == c
    }

    /// A car after it has been shown a light: let go if the light permits
    /// its intent, held back for a tick if not.
    pub open spec fn verdict(light: TrafficLight, car: Car) -> Car {
        if Car::permits(light, car.intention) {
            car.released()
        } else {
            car.delayed()
        }
    }

    /// Car `c` of `cars` after the first cars of the approaches below `n`
    /// have been shown their lights: a car that is first at one of these
    /// approaches has its verdict, every other car is as before.
    pub open spec fn car_after_publish_upto(self, cars: Seq<Car>, c: int, n: int) -> Car {
        if n > 0 && self.heads(c, 0) {
            Self::verdict(self.lights@[0], cars[c])
        } else if n > 1 && self.heads(c, 1) {
            Self::verdict(self.lights@[1], cars[c])
        } else if n > 2 && self.heads(c, 2) {
            Self::verdict(self.lights@[2], cars[c])
        } else if n > 3 && self.heads(c, 3) {
            Self::verdict(self.lights@[3], cars[c])
        } else {
            cars[c]
        }
    }

    /// Car `c` of `cars` after the intersection has shown its lights.
    pub open spec fn car_after_publish(self, cars: Seq<Car>, c: int) -> Car {
        self.car_after_publish_upto(cars, c, 4)
    }

    /// The queue of approach `d` after the intersection has shown its
    /// lights: without its first car if the light permits that car's
    /// intent, and as before if not.
    pub open spec fn queue_after_publish(self, cars: Seq<Car>, d: int) -> Seq<u8> {
        let q = self.queue(d);
        if q.len() > 0 && Car::permits(self.lights@[d], cars[q[0] as int].intention) {
            q.drop_first()
        } else {
            q
        }
    }

    /// The first car of every queue is one of `cars` and can still count
    /// another tick of waiting, and no car is first in two queues.
    pub open spec fn can_publish(self, cars: Seq<Car>) -> bool {
        &&& forall|d: int|
            0 <= d < 4 && (#[trigger] self.queue(d)).len() > 0 ==> self.queue(d)[0] < cars.len()
                && cars[self.queue(d)[0] as int].wait_time < usize::MAX
        &&& forall|d: int, e: int|
            0 <= d < e < 4 && (#[trigger] self.queue(d)).len() > 0 && (#[trigger] self.queue(
                e,
            )).len() > 0 ==> self.queue(d)[0] != self.queue(e)[0]
    }

    /// Shows the intersection's lights to the cars that wait at it. At each
    /// approach only the first car of the queue is asked: if the light
    /// there permits its intent it leaves the queue, let go; if not it
    /// stays first in the queue and has waited one tick more. The cars
    /// behind it keep their order.
    pub fn publish(&mut self, cars: &mut Vec<Car>)
        requires
            old(self).can_publish(old(cars)@),
        ensures
            final(self).id == old(self).id,
            final(self).lights == old(self).lights,
            final(cars)@.len() == old(cars)@.len(),
            forall|d: int|
                0 <= d < 4 ==> #[trigger] final(self).queue(d) == old(self).queue_after_publish(
                    old(cars)@,
                    d,
                ),
            forall|c: int|
                0 <= c < old(cars)@.len() ==> #[trigger] final(cars)@[c] == old(
                    self,
                ).car_after_publish(old(cars)@, c),
    {
        let mut d: u8 = 0;
        while d < 4
            invariant
                d <= 4,
                old(self).can_publish(old(cars)@),
                self.id == old(self).id,
                self.lights == old(self).lights,
                cars@.len() == old(cars)@.len(),
                forall|e: int|
                    0 <= e < 4 ==> #[trigger] self.queue(e) == if e < d {
                        old(self).queue_after_publish(old(cars)@, e)
                    } else {
                        old(self).queue(e)
                    },
                forall|c: int|
                    0 <= c < cars@.len() ==> #[trigger] cars@[c] == old(self).car_after_publish_upto(
                        old(cars)@,
                        c,
                        d as int,
                    ),
            decreases 4 - d,
        {
            let ghost before = *self;
            let ghost cars_before = cars@;
            proof {
                assert(self.queue(d as int) == old(self).queue(d as int));
                let q = old(self).queue(d as int);
                if q.len() > 0 {
                    assert(q[0] < cars@.len());
                    assert forall|e: int| 0 <= e < d implies !old(self).heads(q[0] as int, e) by {
                        if old(self).queue(e).len() > 0 {
                            assert(old(self).queue(e)[0] != q[0]);
                        }
                    }
                    assert(cars@[q[0] as int] == old(cars)@[q[0] as int]);
                }
            }
            match self.release_head(d) {
                Some(h) => {
                    let go = cars[h as usize].notify(d as usize, &self.lights);
                    if !go {
                        self.return_to_front(h, d);
                        proof {
                            let q = old(self).queue(d as int);
                            assert(seq![h] + q.drop_first() =~= q);
                        }
                    }
                },
                None => {},
            }
            proof {
                assert forall|e: int| 0 <= e < 4 implies #[trigger] self.queue(e) == if e < d + 1 {
                    old(self).queue_after_publish(old(cars)@, e)
                } else {
                    old(self).queue(e)
                } by {
                    if e != d {
                        assert(self.queue(e) == before.queue(e));
                    }
                }
                assert forall|c: int| 0 <= c < cars@.len() implies #[trigger] cars@[c] == old(
                    self,
                ).car_after_publish_upto(old(cars)@, c, d + 1) by {
                    assert(cars_before[c] == old(self).car_after_publish_upto(
                        old(cars)@,
                        c,
                        d as int,
                    ));
                    if !old(self).heads(c, d as int) {
                        assert(cars@[c] == cars_before[c]);
                    }
                }
            }
            d += 1;
        }
    }
}

} // verus!
