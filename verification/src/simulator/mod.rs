//! The simulator: it owns the road graph, the intersections, the cars and
//! where each car is, and advances all of them one tick at a time.

pub mod signals;
pub mod movement;
pub mod clock;
pub mod laws;

use vstd::prelude::*;
use rand::rngs::StdRng;
use crate::error::ConfigError;
use crate::traffic_logic::car::{Car, Direction};
use crate::traffic_logic::intersection::{Intersection, TrafficLight};
use crate::traffic_logic::random::{seeded_generator, seeded_rng};
use crate::traffic_logic::road::{opposite, Node, Road};

verus! {

/// A car on the road between two intersections.
#[derive(Clone, Copy, PartialEq, Eq, Debug)]
pub struct Between {
    /// The intersection the car has left.
    pub int_1_id: u8,
    /// The intersection the car is heading for.
    pub int_2_id: u8,
    /// How many ticks the car still needs to get there; never zero.
    pub distance_to_target: u8,
    /// The direction the car travels in, at which it will arrive.
    pub from: u8,
}

/// A car standing at an intersection.
#[derive(Clone, Copy, PartialEq, Eq, Debug)]
pub struct Current {
    pub int_id: u8,
    /// The approach the car sits at: 0 north, 1 east, 2 south, 3 west.
    pub direction: u8,
}

/// Where a car is: at an intersection or between two. In a simulator that
/// is well formed exactly one of the two fields is set.
#[derive(Clone, Copy, PartialEq, Eq, Debug)]
pub struct Position {
    pub current_intersection: Option<Current>,
    pub in_between: Option<Between>,
}

impl Position {
    /// A position from its two fields, taken as they are.
    pub fn new(current_intersection: Option<Current>, in_between: Option<Between>) -> (pos: Position)
        ensures
            pos == (Position { current_intersection, in_between }),
    {
        Position { current_intersection, in_between }
    }

    /// The car stands at an intersection and is not on the road.
    pub open spec fn is_at_intersection(self) -> bool {
        self.current_intersection.is_some() && self.in_between.is_none()
    }

    /// The car is on the road and stands at no intersection.
    pub open spec fn is_in_transit(self) -> bool {
        self.current_intersection.is_none() && self.in_between.is_some()
    }
}

/// A whole simulation: the network, the cars on it, and the generator that
/// its random draws come from.
///
/// Intersections and cars are held in vectors and named by their place in
/// them: intersection `id` is at index `id - 1`, car `c` at index `c`, and
/// so is its position. Everything else refers to them by these numbers.
pub struct Simulator {
    /// What lies in each direction of each intersection.
    pub road: Road,
    /// The position of each car, by car id.
    pub car_positions: Vec<Position>,
    /// The cars; car `c` has id `c`.
    pub cars: Vec<Car>,
    /// The intersections; the one at index `i` has id `i + 1`.
    pub intersections: Vec<Intersection>,
    /// How many light phases have been played.
    pub timestep: usize,
    /// Where the lights of each tick and the new intents of cars come from.
    pub rng: StdRng,
}

impl Simulator {
    /// The cars waiting at approach `d` of the intersection at index `i`.
    pub open spec fn queue(self, i: int, d: int) -> Seq<u8> {
        self.intersections@[i].queue(d)
    }

    /// Car `c` is recorded as waiting at approach `d` of the intersection at
    /// index `i`.
    pub open spec fn waits_here(self, c: u8, i: int, d: int) -> bool {
        &&& c < self.cars@.len()
        &&& self.cars@[c as int].at_intersection
        &&& self.car_positions@[c as int].current_intersection == Some(
            Current { int_id: (i + 1) as u8, direction: d as u8 },
        )
    }

    /// A queue holds no car twice, and only cars that wait at its approach.
    pub open spec fn queue_ok(self, i: int, d: int) -> bool {
        &&& self.queue(i, d).no_duplicates()
        &&& forall|k: int|
            0 <= k < self.queue(i, d).len() ==> #[trigger] self.waits_here(self.queue(i, d)[k], i, d)
    }

    /// A position between two intersections lies on a road of the graph.
    pub open spec fn on_road(self, b: Between) -> bool {
        &&& b.distance_to_target > 0
        &&& b.from < 4
        &&& self.road.slot(b.int_1_id, b.from as int).is_some()
        &&& self.road.slot(b.int_1_id, b.from as int).unwrap().dest_int_id == b.int_2_id
    }

    /// Car `c` is in one of its three states: waiting in the queue of the
    /// approach it stands at; let go, and standing there still; or on a road.
    pub open spec fn car_ok(self, c: int) -> bool {
        let car = self.cars@[c];
        let pos = self.car_positions@[c];
        &&& car.id == c
        &&& car.wait_time <= self.timestep
        &&& pos.is_at_intersection() || pos.is_in_transit()
        &&& pos.is_at_intersection() ==> {
            let cur = pos.current_intersection.unwrap();
            &&& 1 <= cur.int_id <= self.intersections@.len()
            &&& cur.direction < 4
            &&& car.at_intersection ==> self.queue(cur.int_id - 1, cur.direction as int).contains(
                c as u8,
            )
        }
        &&& pos.is_in_transit() ==> !car.at_intersection && self.on_road(pos.in_between.unwrap())
    }

    /// The simulator's invariant.
    pub open spec fn wf(self) -> bool {
        &&& self.road.wf()
        &&& self.road.road@.len() == self.intersections@.len()
        &&& self.cars@.len() == self.car_positions@.len()
        &&& self.cars@.len() <= 255
        &&& forall|i: int|
            0 <= i < self.intersections@.len() ==> (#[trigger] self.intersections@[i]).id == i + 1
        &&& forall|c: int| 0 <= c < self.cars@.len() ==> #[trigger] self.car_ok(c)
        &&& forall|i: int, d: int|
            0 <= i < self.intersections@.len() && 0 <= d < 4 ==> #[trigger] self.queue_ok(i, d)
    }

    /// The lights and ids of all intersections are those of `other`.
    pub open spec fn same_signals(self, other: Simulator) -> bool {
        &&& self.intersections@.len() == other.intersections@.len()
        &&& forall|i: int|
            0 <= i < self.intersections@.len() ==> (#[trigger] self.intersections@[i]).lights
                == other.intersections@[i].lights && self.intersections@[i].id
                == other.intersections@[i].id
    }

    /// Well-formedness is a matter of the roads, the intersections, the cars
    /// and the clock; the state of the generator has no part in it.
    pub proof fn lemma_wf_ignores_rng(self, post: Simulator)
        requires
            self.wf(),
            post.road == self.road,
            post.timestep == self.timestep,
            post.intersections@ == self.intersections@,
            post.cars@ == self.cars@,
            post.car_positions@ == self.car_positions@,
        ensures
            post.wf(),
    {
        assert forall|i: int, d: int|
            0 <= i < post.intersections@.len() && 0 <= d < 4 implies #[trigger] post.queue_ok(
            i,
            d,
        ) by {
            assert(self.queue_ok(i, d));
            assert forall|k: int| 0 <= k < post.queue(i, d).len() implies #[trigger] post.waits_here(
                post.queue(i, d)[k],
                i,
                d,
            ) by {
                assert(self.waits_here(self.queue(i, d)[k], i, d));
            }
        }
        assert forall|c: int| 0 <= c < post.cars@.len() implies #[trigger] post.car_ok(c) by {
            assert(self.car_ok(c));
        }
    }

    /// An empty simulation that takes its random draws from `rng`.
    pub fn with_generator(rng: StdRng) -> (s: Simulator)
        ensures
            s.wf(),
            s.intersections@.len() == 0,
            s.road.road@.len() == 0,
            s.cars@.len() == 0,
            s.car_positions@.len() == 0,
            s.timestep == 0,
            s.rng == rng,
    {
        Simulator {
            road: Road::new(),
            car_positions: Vec::new(),
            cars: Vec::new(),
            intersections: Vec::new(),
            timestep: 0,
            rng,
        }
    }

    /// An empty simulation whose random draws are fixed by `seed`: its
    /// generator is the one that belongs to the seed.
    pub fn new(seed: u64) -> (s: Simulator)
        ensures
            s.wf(),
            s.intersections@.len() == 0,
            s.road.road@.len() == 0,
            s.cars@.len() == 0,
            s.car_positions@.len() == 0,
            s.timestep == 0,
            s.rng == seeded_generator(seed),
    {
        Simulator::with_generator(seeded_rng(seed))
    }

    /// Adds an intersection without roads or cars. Its id is the number of
    /// intersections there are then.
    pub fn add_intersection(&mut self) -> (res: Result<(), ConfigError>)
        requires
            old(self).wf(),
        ensures
            final(self).wf(),
            res == if old(self).intersections@.len() < 255 {
                Ok::<(), ConfigError>(())
            } else {
                Err(ConfigError::TooManyIntersections)
            },
            res.is_err() ==> final(self).intersections@ == old(self).intersections@,
            res.is_ok() ==> {
                &&& final(self).intersections@.len() == old(self).intersections@.len() + 1
                &&& final(self).intersections@.subrange(0, old(self).intersections@.len() as int)
                    == old(self).intersections@
                &&& final(self).intersections@.last().id == old(self).intersections@.len() + 1
                &&& forall|d: int| 0 <= d < 4 ==> #[trigger] final(self).intersections@.last().queue(d).len() == 0
                &&& forall|d: int|
                    (#[trigger] final(self).road.slot(
                        (old(self).intersections@.len() + 1) as u8,
                        d,
                    )).is_none()
            },
            final(self).cars@ == old(self).cars@,
            final(self).car_positions@ == old(self).car_positions@,
            final(self).timestep == old(self).timestep,
            forall|a: u8, d: int| old(self).road.has(a) ==> #[trigger] final(self).road.slot(a, d) == old(self).road.slot(a, d),
    {
        let n: usize = self.intersections.len();
        if n >= 255 {
            return Err(ConfigError::TooManyIntersections);
        }
        let id: u8 = (n + 1) as u8;
        let intersection = Intersection::new(id, &mut self.rng);
        self.intersections.push(intersection);
        let _ = self.road.add_intersection();
        proof {
            assert(self.intersections@.subrange(0, n as int) =~= old(self).intersections@);
            assert forall|i: int, d: int|
                0 <= i < self.intersections@.len() && 0 <= d < 4 implies #[trigger] self.queue_ok(
                i,
                d,
            ) by {
                if i < n {
                    assert(old(self).queue_ok(i, d));
                    assert(self.intersections@[i] == old(self).intersections@[i]);
                    assert(self.queue(i, d) == old(self).queue(i, d));
                    assert forall|k: int| 0 <= k < self.queue(i, d).len() implies #[trigger] self.waits_here(self.queue(i, d)[k], i, d) by {
                        assert(old(self).waits_here(old(self).queue(i, d)[k], i, d));
                    }
                } else {
                    assert(self.intersections@[i].queue(d) == Seq::<u8>::empty());
                    assert(self.queue(i, d).len() == 0);
                }
            }
            assert forall|c: int| 0 <= c < self.cars@.len() implies #[trigger] self.car_ok(c) by {
                assert(old(self).car_ok(c));
                let pos = self.car_positions@[c];
                if pos.is_at_intersection() {
                    let cur = pos.current_intersection.unwrap();
                    assert(self.queue(cur.int_id - 1, cur.direction as int) == old(self).queue(
                        cur.int_id - 1,
                        cur.direction as int,
                    ));
                }
            }
        }
        Ok(())
    }

    /// Adds `num` intersections, or none where that would make more than 255.
    pub fn add_intersections(&mut self, num: u8) -> (res: Result<(), ConfigError>)
        requires
            old(self).wf(),
        ensures
            final(self).wf(),
            res == if old(self).intersections@.len() + num <= 255 {
                Ok::<(), ConfigError>(())
            } else {
                Err(ConfigError::TooManyIntersections)
            },
            res.is_err() ==> final(self).intersections@ == old(self).intersections@,
            res.is_ok() ==> {
                &&& final(self).intersections@.len() == old(self).intersections@.len() + num
                &&& final(self).intersections@.subrange(0, old(self).intersections@.len() as int)
                    == old(self).intersections@
                &&& forall|i: int, d: int|
                    old(self).intersections@.len() <= i < final(self).intersections@.len() && 0 <= d
                        < 4 ==> (#[trigger] final(self).intersections@[i].queue(d)).len() == 0
                &&& forall|a: u8, d: int|
                    old(self).intersections@.len() < a <= final(self).intersections@.len()
                        ==> (#[trigger] final(self).road.slot(a, d)).is_none()
            },
            final(self).cars@ == old(self).cars@,
            final(self).car_positions@ == old(self).car_positions@,
            final(self).timestep == old(self).timestep,
            forall|a: u8, d: int| old(self).road.has(a) ==> #[trigger] final(self).road.slot(a, d) == old(self).road.slot(a, d),
    {
        let n: usize = self.intersections.len();
        if n + num as usize > 255 {
            return Err(ConfigError::TooManyIntersections);
        }
        let mut added: u8 = 0;
        while added < num
            invariant
                self.wf(),
                added <= num,
                n == old(self).intersections@.len(),
                n + num <= 255,
                self.intersections@.len() == n + added,
                self.intersections@.subrange(0, n as int) == old(self).intersections@,
                forall|i: int, d: int|
                    n <= i < self.intersections@.len() && 0 <= d < 4
                        ==> (#[trigger] self.intersections@[i].queue(d)).len() == 0,
                forall|a: u8, d: int|
                    n < a <= self.intersections@.len() ==> (#[trigger] self.road.slot(
                        a,
                        d,
                    )).is_none(),
                self.cars@ == old(self).cars@,
                self.car_positions@ == old(self).car_positions@,
                self.timestep == old(self).timestep,
                forall|a: u8, d: int| old(self).road.has(a) ==> #[trigger] self.road.slot(a, d) == old(self).road.slot(a, d),
            decreases num - added,
        {
            let ghost before = *self;
            let _ = self.add_intersection();
            added += 1;
            proof {
                assert(self.intersections@.subrange(0, n as int) =~= before.intersections@.subrange(
                    0,
                    before.intersections@.len() as int,
                ).subrange(0, n as int));
                assert forall|i: int, d: int|
                    n <= i < self.intersections@.len() && 0 <= d < 4 implies (
                #[trigger] self.intersections@[i].queue(d)).len() == 0 by {
                    if i < before.intersections@.len() {
                        assert(self.intersections@[i] == self.intersections@.subrange(
                            0,
                            before.intersections@.len() as int,
                        )[i]);
                        assert(before.intersections@[i].queue(d).len() == 0);
                    } else {
                        assert(self.intersections@[i] == self.intersections@.last());
                    }
                }
                assert forall|a: u8, d: int|
                    n < a <= self.intersections@.len() implies (#[trigger] self.road.slot(
                    a,
                    d,
                )).is_none() by {
                    if a <= before.intersections@.len() {
                        assert(before.road.slot(a, d).is_none());
                        assert(before.road.has(a));
                    }
                }
            }
        }
        Ok(())
    }

    /// Builds a road between two intersections, to be travelled both ways:
    /// from `int_1` in `direction`, from `int_2` in the opposite direction.
    pub fn add_road(&mut self, int_1: u8, direction: u8, int_2: u8, distance: u8) -> (res: Result<
        (),
        ConfigError,
    >)
        requires
            old(self).wf(),
        ensures
            final(self).wf(),
            res == old(self).road.edge_outcome(int_1, direction, int_2, distance),
            res.is_err() ==> final(self).road.road@ == old(self).road.road@,
            res.is_ok() ==> {
                &&& final(self).road.slot(int_1, direction as int) == Some(
                    Node { dest_int_id: int_2, dist_from_source: distance, direction },
                )
                &&& final(self).road.slot(int_2, opposite(direction as int)) == Some(
                    Node {
                        dest_int_id: int_1,
                        dist_from_source: distance,
                        direction: opposite(direction as int) as u8,
                    },
                )
                &&& forall|x: u8, d: int|
                    !(x == int_1 && d == direction) && !(x == int_2 && d == opposite(
                        direction as int,
                    )) ==> #[trigger] final(self).road.slot(x, d) == old(self).road.slot(x, d)
            },
            final(self).cars@ == old(self).cars@,
            final(self).car_positions@ == old(self).car_positions@,
            final(self).intersections@ == old(self).intersections@,
            final(self).timestep == old(self).timestep,
    {
        let res = self.road.add_edge(int_1, direction, int_2, distance);
        proof {
            assert forall|i: int, d: int|
                0 <= i < self.intersections@.len() && 0 <= d < 4 implies #[trigger] self.queue_ok(
                i,
                d,
            ) by {
                assert(old(self).queue_ok(i, d));
                assert forall|k: int| 0 <= k < self.queue(i, d).len() implies #[trigger] self.waits_here(self.queue(i, d)[k], i, d) by {
                    assert(old(self).waits_here(old(self).queue(i, d)[k], i, d));
                }
            }
            assert forall|c: int| 0 <= c < self.cars@.len() implies #[trigger] self.car_ok(c) by {
                assert(old(self).car_ok(c));
                let pos = self.car_positions@[c];
                if pos.is_in_transit() && res.is_ok() {
                    let b = pos.in_between.unwrap();
                    assert(self.road.slot(b.int_1_id, b.from as int) == old(self).road.slot(
                        b.int_1_id,
                        b.from as int,
                    ));
                }
            }
        }
        res
    }

    /// What adding a car at `pos` comes to: the first objection that
    /// applies, or none.
    pub open spec fn car_outcome(self, pos: Position) -> Result<(), ConfigError> {
        if !pos.is_at_intersection() {
            Err(ConfigError::InvalidPosition)
        } else if !(1 <= pos.current_intersection.unwrap().int_id <= self.intersections@.len()) {
            Err(ConfigError::UnknownIntersection)
        } else if pos.current_intersection.unwrap().direction >= 4 {
            Err(ConfigError::InvalidDirection)
        } else if self.cars@.len() >= 255 {
            Err(ConfigError::TooManyCars)
        } else {
            Ok(())
        }
    }

    /// Adds a car at an approach of an intersection, last in the queue
    /// there. Its id is the number of cars there were before.
    pub fn add_car(&mut self, pos: Position) -> (res: Result<(), ConfigError>)
        requires
            old(self).wf(),
        ensures
            final(self).wf(),
            res == old(self).car_outcome(pos),
            res.is_err() ==> *final(self) == *old(self),
            res.is_ok() ==> {
                let cur = pos.current_intersection.unwrap();
                let id = old(self).cars@.len() as u8;
                &&& final(self).cars@ == old(self).cars@.push(
                    Car { id, wait_time: 0, intention: Direction::Straight, at_intersection: true },
                )
                &&& final(self).car_positions@ == old(self).car_positions@.push(pos)
                &&& final(self).queue(cur.int_id - 1, cur.direction as int) == old(self).queue(
                    cur.int_id - 1,
                    cur.direction as int,
                ).push(id)
                &&& forall|i: int, d: int|
                    0 <= i < old(self).intersections@.len() && 0 <= d < 4 && !(i == cur.int_id - 1
                        && d == cur.direction) ==> #[trigger] final(self).queue(i, d) == old(
                        self,
                    ).queue(i, d)
            },
            final(self).same_signals(*old(self)),
            final(self).road == old(self).road,
            final(self).timestep == old(self).timestep,
    {
        let cur = match (pos.current_intersection, pos.in_between) {
            (Some(cur), None) => cur,
            _ => {
                return Err(ConfigError::InvalidPosition);
            },
        };
        if cur.int_id == 0 || cur.int_id as usize > self.intersections.len() {
            return Err(ConfigError::UnknownIntersection);
        }
        if cur.direction >= 4 {
            return Err(ConfigError::InvalidDirection);
        }
        if self.cars.len() >= 255 {
            return Err(ConfigError::TooManyCars);
        }
        let id: u8 = self.cars.len() as u8;
        let at: usize = (cur.int_id - 1) as usize;
        self.cars.push(Car::new(id));
        self.car_positions.push(pos);
        self.intersections[at].add_car_to_queue(id, cur.direction);
        proof {
            assert forall|i: int, d: int|
                0 <= i < self.intersections@.len() && 0 <= d < 4 implies #[trigger] self.queue_ok(
                i,
                d,
            ) by {
                assert(old(self).queue_ok(i, d));
                let q = old(self).queue(i, d);
                if i == at && d == cur.direction {
                    assert forall|k: int| 0 <= k < q.len() implies q[k] != id by {
                        assert(old(self).waits_here(q[k], i, d));
                    }
                    assert(self.queue(i, d) == q.push(id));
                    assert(self.queue(i, d).no_duplicates());
                    assert forall|k: int| 0 <= k < self.queue(i, d).len() implies #[trigger] self.waits_here(self.queue(i, d)[k], i, d) by {
                        if k < q.len() {
                            assert(old(self).waits_here(q[k], i, d));
                        } else {
                            assert(self.queue(i, d)[k] == id);
                        }
                    }
                } else {
                    if i != at {
                        assert(self.intersections@[i] == old(self).intersections@[i]);
                    }
                    assert(self.queue(i, d) == q);
                    assert forall|k: int| 0 <= k < self.queue(i, d).len() implies #[trigger] self.waits_here(self.queue(i, d)[k], i, d) by {
                        assert(old(self).waits_here(q[k], i, d));
                    }
                }
            }
            assert forall|c: int| 0 <= c < self.cars@.len() implies #[trigger] self.car_ok(c) by {
                if c < id {
                    assert(old(self).car_ok(c));
                    let p = self.car_positions@[c];
                    if p.is_at_intersection() && self.cars@[c].at_intersection {
                        let pc = p.current_intersection.unwrap();
                        let q = old(self).queue(pc.int_id - 1, pc.direction as int);
                        let k = choose|k: int| 0 <= k < q.len() && q[k] == c as u8;
                        assert(self.queue(pc.int_id - 1, pc.direction as int)[k] == c as u8);
                    }
                } else {
                    let q = self.queue(at as int, cur.direction as int);
                    assert(q[q.len() - 1] == id);
                }
            }
        }
        Ok(())
    }

    /// The car with the given id, if there is one.
    pub fn get_car(&self, id: u8) -> (car: Option<&Car>)
        ensures
            car == if id < self.cars@.len() {
                Some(&self.cars@[id as int])
            } else {
                None
            },
    {
        if (id as usize) < self.cars.len() {
            Some(&self.cars[id as usize])
        } else {
            None
        }
    }

    /// The intersection with the given id, if there is one.
    pub fn get_intersection(&self, id: u8) -> (intersection: Option<&Intersection>)
        ensures
            intersection == if 1 <= id <= self.intersections@.len() {
                Some(&self.intersections@[id - 1])
            } else {
                None
            },
    {
        if id >= 1 && (id as usize) <= self.intersections.len() {
            Some(&self.intersections[(id - 1) as usize])
        } else {
            None
        }
    }

    /// Where the car with the given id is, if there is such a car.
    pub fn get_pos(&self, car_id: u8) -> (pos: Option<Position>)
        ensures
            pos == if car_id < self.car_positions@.len() {
                Some(self.car_positions@[car_id as int])
            } else {
                None
            },
    {
        if (car_id as usize) < self.car_positions.len() {
            Some(self.car_positions[car_id as usize])
        } else {
            None
        }
    }

    /// The light that approach `direction` of intersection `int_id` shows.
    /// Looking changes nothing: as long as no tick is played, the answer is
    /// the same.
    pub open spec fn spec_lights_at(self, int_id: u8, direction: u8) -> Option<TrafficLight> {
        if 1 <= int_id <= self.intersections@.len() && direction < 4 {
            Some(self.intersections@[int_id - 1].lights@[direction as int])
        } else {
            None
        }
    }

    pub fn lights_at(&self, int_id: u8, direction: u8) -> (light: Option<TrafficLight>)
        ensures
            light == self.spec_lights_at(int_id, direction),
    {
        if int_id >= 1 && (int_id as usize) <= self.intersections.len() && direction < 4 {
            Some(self.intersections[(int_id - 1) as usize].get_lights(direction))
        } else {
            None
        }
    }
}

} // verus!
