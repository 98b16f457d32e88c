//! The movement phase of a tick: every car, in the order of the car ids,
//! drives on by one tick.

use vstd::prelude::*;
use vstd::pervasive::unreached;
use crate::error::Fault;
use crate::simulator::{Between, Current, Position, Simulator};
use crate::traffic_logic::car::{Car, Direction};
use crate::traffic_logic::road::opposite;

verus! {

/// How far from its destination a car is once it has set out on a road of
/// length `dist`: one tick closer, but never there already. On a road of
/// length one the car arrives with the next tick.
pub open spec fn remaining_after_departure(dist: u8) -> u8 {
    if dist > 1 {
        (dist - 1) as u8
    } else {
        1
    }
}

impl Simulator {
    /// Where a car is that has just left approach `dir` of intersection `x`
    /// with intent `t`: on the road that the intent points at.
    pub open spec fn departure(self, x: u8, dir: u8, t: Direction) -> Position {
        let n = self.road.slot(x, Direction::spec_next_direction(dir, t) as int).unwrap();
        Position {
            current_intersection: None,
            in_between: Some(
                Between {
                    int_1_id: x,
                    int_2_id: n.dest_int_id,
                    distance_to_target: remaining_after_departure(n.dist_from_source),
                    from: n.direction,
                },
            ),
        }
    }

    /// `car2` at `pos2` is `car` after leaving approach `dir` of
    /// intersection `x`. The car keeps its intent if that leads somewhere;
    /// if not, it has a new one that does. Nothing else about it changes.
    pub open spec fn departs(self, car: Car, x: u8, dir: u8, car2: Car, pos2: Position) -> bool {
        &&& self.road.live(x, dir, car2.intention)
        &&& self.road.live(x, dir, car.intention) ==> car2.intention == car.intention
        &&& car2 == Car { intention: car2.intention, ..car }
        &&& pos2 == self.departure(x, dir, car2.intention)
    }

    /// Car `c` has been let go at an intersection that no road leaves.
    pub open spec fn stranded(self, c: int) -> bool {
        let pos = self.car_positions@[c];
        &&& pos.is_at_intersection()
        &&& !self.cars@[c].at_intersection
        &&& self.road.dead_end(pos.current_intersection.unwrap().int_id)
    }

    /// Car `c` of `post` is car `c` of `self` one movement later.
    ///
    /// A car that waits in a queue stays as it is. A car that has been let
    /// go departs. A car on the road with more than one tick to go is one
    /// tick closer. A car one tick from its destination arrives: if the
    /// light at its approach permits its intent, it departs from there at
    /// once; if not, it stands at that approach and waits, with an intent
    /// drawn anew.
    pub open spec fn car_moved(self, post: Simulator, c: int) -> bool {
        let car = self.cars@[c];
        let pos = self.car_positions@[c];
        let car2 = post.cars@[c];
        let pos2 = post.car_positions@[c];
        if pos.is_at_intersection() {
            let cur = pos.current_intersection.unwrap();
            if car.at_intersection {
                car2 == car && pos2 == pos
            } else {
                self.departs(car, cur.int_id, cur.direction, car2, pos2)
            }
        } else {
            let b = pos.in_between.unwrap();
            if b.distance_to_target > 1 {
                &&& car2 == car
                &&& pos2 == Position {
                    current_intersection: None,
                    in_between: Some(
                        Between { distance_to_target: (b.distance_to_target - 1) as u8, ..b },
                    ),
                }
            } else if Car::permits(
                self.intersections@[b.int_2_id - 1].lights@[b.from as int],
                car.intention,
            ) {
                self.departs(car, b.int_2_id, b.from, car2, pos2)
            } else {
                &&& car2 == Car { at_intersection: true, intention: car2.intention, ..car }
                &&& pos2 == Position {
                    current_intersection: Some(Current { int_id: b.int_2_id, direction: b.from }),
                    in_between: None,
                }
            }
        }
    }

    /// Car `c` is one tick away from approach `d` of the intersection at
    /// index `i`, and the light there does not permit its intent: with the
    /// next movement it joins the queue of that approach.
    pub open spec fn joins_queue(self, c: int, i: int, d: int) -> bool {
        let pos = self.car_positions@[c];
        let b = pos.in_between.unwrap();
        &&& pos.is_in_transit()
        &&& b.distance_to_target <= 1
        &&& b.int_2_id - 1 == i
        &&& b.from == d
        &&& !Car::permits(self.intersections@[i].lights@[d], self.cars@[c].intention)
    }

    /// What car `c` adds to the queue of approach `d` of the intersection at
    /// index `i` when it moves: itself, if it joins that queue.
    pub open spec fn arrival(self, c: int, i: int, d: int) -> Seq<u8> {
        if self.joins_queue(c, i, d) {
            seq![c as u8]
        } else {
            Seq::empty()
        }
    }

    /// The cars below `n` that join the queue of approach `d` of the
    /// intersection at index `i`, in the order of their ids.
    pub open spec fn arrivals(self, i: int, d: int, n: int) -> Seq<u8>
        decreases n,
    {
        if n <= 0 {
            Seq::empty()
        } else {
            self.arrivals(i, d, n - 1) + self.arrival(n - 1, i, d)
        }
    }

    /// What one step of the movement phase leaves alone: the roads, the
    /// lights, the clock, and the cars already waiting in each queue, in
    /// their order.
    pub open spec fn movement_frame(self, post: Simulator) -> bool {
        &&& post.road == self.road
        &&& post.timestep == self.timestep
        &&& post.cars@.len() == self.cars@.len()
        &&& post.car_positions@.len() == self.car_positions@.len()
        &&& post.same_signals(self)
        &&& forall|i: int, d: int|
            0 <= i < self.intersections@.len() && 0 <= d < 4 ==> self.queue(i, d).is_prefix_of(
                #[trigger] post.queue(i, d),
            )
    }

    /// The movement phase has dealt with the cars below `n`, none of which
    /// was stranded, and has not touched the others. Those that had to wait
    /// on arrival have joined their queues behind the cars already there,
    /// in the order of their ids.
    pub open spec fn moved_up_to(self, post: Simulator, n: int) -> bool {
        &&& forall|c: int| 0 <= c < n && c < self.cars@.len() ==> !#[trigger] self.stranded(c)
        &&& forall|c: int|
            0 <= c < n && c < self.cars@.len() ==> #[trigger] self.car_moved(post, c)
        &&& forall|c: int| n <= c < self.cars@.len() ==> #[trigger] post.cars@[c] == self.cars@[c]
        &&& forall|c: int|
            n <= c < self.cars@.len() ==> #[trigger] post.car_positions@[c]
                == self.car_positions@[c]
        &&& forall|i: int, d: int|
            0 <= i < self.intersections@.len() && 0 <= d < 4 ==> #[trigger] post.queue(i, d)
                == self.queue(i, d) + self.arrivals(i, d, n)
    }

    /// `post` is what a movement phase that ended with `res` makes of
    /// `self`. A phase that ends well has moved every car, and no car was
    /// stranded. A phase that fails names the first stranded car and the
    /// intersection it stands at, and has moved the cars before that one.
    pub open spec fn movement_done(self, post: Simulator, res: Result<(), Fault>) -> bool {
        &&& self.movement_frame(post)
        &&& match res {
            Ok(_) => self.moved_up_to(post, self.cars@.len() as int),
            Err(Fault::NoOutboundEdge { car, intersection }) => {
                &&& car < self.cars@.len()
                &&& self.stranded(car as int)
                &&& self.car_positions@[car as int].current_intersection.unwrap().int_id
                    == intersection
                &&& self.moved_up_to(post, car as int)
            },
            Err(_) => false,
        }
    }

    /// Sends car `c`, which no longer waits, off from approach `dir` of
    /// intersection `x`.
    fn depart(&mut self, c: usize, x: u8, dir: u8) -> (res: Result<(), Fault>)
        requires
            old(self).wf(),
            c < old(self).cars@.len(),
            !old(self).cars@[c as int].at_intersection,
            old(self).road.has(x),
            dir < 4,
        ensures
            final(self).wf(),
            final(self).road == old(self).road,
            final(self).timestep == old(self).timestep,
            final(self).intersections@ == old(self).intersections@,
            final(self).cars@.len() == old(self).cars@.len(),
            final(self).car_positions@.len() == old(self).car_positions@.len(),
            forall|e: int|
                0 <= e < old(self).cars@.len() && e != c ==> #[trigger] final(self).cars@[e] == old(
                    self,
                ).cars@[e],
            forall|e: int|
                0 <= e < old(self).cars@.len() && e != c ==> #[trigger] final(self).car_positions@[e]
                    == old(self).car_positions@[e],
            res.is_err() <==> old(self).road.dead_end(x),
            res.is_err() ==> res == Err::<(), Fault>(
                Fault::NoOutboundEdge { car: c as u8, intersection: x },
            ) && final(self).cars@ == old(self).cars@ && final(self).car_positions@ == old(
                self,
            ).car_positions@,
            res.is_ok() ==> old(self).departs(
                old(self).cars@[c as int],
                x,
                dir,
                final(self).cars@[c as int],
                final(self).car_positions@[c as int],
            ),
    {
        let current = self.cars[c].intention;
        let found = self.road.reroute(x, dir, current, &mut self.rng);
        proof {
            old(self).lemma_wf_ignores_rng(*self);
        }
        let intent = match found {
            Some(t) => t,
            None => {
                return Err(Fault::NoOutboundEdge { car: c as u8, intersection: x });
            },
        };
        let out: u8 = Direction::get_next_direction(dir, intent);
        let node = match self.road.edge(x, out) {
            Some(node) => node,
            None => unreached(),
        };
        let remaining: u8 = if node.dist_from_source > 1 {
            node.dist_from_source - 1
        } else {
            1
        };
        self.cars[c].intention = intent;
        self.car_positions[c] = Position {
            current_intersection: None,
            in_between: Some(
                Between {
                    int_1_id: x,
                    int_2_id: node.dest_int_id,
                    distance_to_target: remaining,
                    from: node.direction,
                },
            ),
        };
        proof {
            assert(old(self).road.edge_ok(x - 1, out as int));
            assert forall|i: int, d: int|
                0 <= i < self.intersections@.len() && 0 <= d < 4 implies #[trigger] self.queue_ok(
                i,
                d,
            ) by {
                assert(old(self).queue_ok(i, d));
                assert forall|k: int| 0 <= k < self.queue(i, d).len() implies #[trigger] self.waits_here(
                    self.queue(i, d)[k],
                    i,
                    d,
                ) by {
                    assert(old(self).waits_here(old(self).queue(i, d)[k], i, d));
                }
            }
            assert forall|e: int| 0 <= e < self.cars@.len() implies #[trigger] self.car_ok(e) by {
                assert(old(self).car_ok(e));
            }
        }
        Ok(())
    }

    /// Moves car `c` on by one tick.
    fn advance_car(&mut self, c: usize) -> (res: Result<(), Fault>)
        requires
            old(self).wf(),
            c < old(self).cars@.len(),
        ensures
            final(self).wf(),
            old(self).movement_frame(*final(self)),
            forall|e: int|
                0 <= e < old(self).cars@.len() && e != c ==> #[trigger] final(self).cars@[e] == old(
                    self,
                ).cars@[e],
            forall|e: int|
                0 <= e < old(self).cars@.len() && e != c ==> #[trigger] final(self).car_positions@[e]
                    == old(self).car_positions@[e],
            forall|i: int, d: int|
                0 <= i < old(self).intersections@.len() && 0 <= d < 4
                    ==> #[trigger] final(self).queue(i, d) == old(self).queue(i, d) + old(
                    self,
                ).arrival(c as int, i, d),
            res.is_err() <==> old(self).stranded(c as int),
            res.is_err() ==> res == Err::<(), Fault>(
                Fault::NoOutboundEdge {
                    car: c as u8,
                    intersection: old(self).car_positions@[c as int].current_intersection.unwrap().int_id,
                },
            ) && final(self).cars@ == old(self).cars@ && final(self).car_positions@ == old(
                self,
            ).car_positions@,
            res.is_ok() ==> old(self).car_moved(*final(self), c as int),
    {
        let pos = self.car_positions[c];
        let car = self.cars[c];
        proof {
            assert(self.car_ok(c as int));
            assert forall|i: int, d: int|
                0 <= i < self.intersections@.len() && 0 <= d < 4 implies self.queue(
                i,
                d,
            ).is_prefix_of(#[trigger] self.queue(i, d)) by {}
        }
        let res = match pos.current_intersection {
            Some(cur) => {
                if car.at_intersection {
                    Ok(())
                } else {
                    self.depart(c, cur.int_id, cur.direction)
                }
            },
            None => {
                let b = match pos.in_between {
                    Some(b) => b,
                    None => unreached(),
                };
                if b.distance_to_target > 1 {
                    self.car_positions[c] = Position {
                        current_intersection: None,
                        in_between: Some(
                            Between {
                                int_1_id: b.int_1_id,
                                int_2_id: b.int_2_id,
                                distance_to_target: b.distance_to_target - 1,
                                from: b.from,
                            },
                        ),
                    };
                    proof {
                        old(self).lemma_same_queues_keep_wf(*self, c as int);
                    }
                    Ok(())
                } else {
                    proof {
                        assert(self.road.edge_ok(b.int_1_id - 1, b.from as int));
                        assert(self.road.slot(b.int_2_id, opposite(b.from as int)).is_some());
                    }
                    let at: usize = (b.int_2_id - 1) as usize;
                    if car.can_go(&self.intersections[at].lights, b.from as usize) {
                        self.depart(c, b.int_2_id, b.from)
                    } else {
                        self.car_positions[c] = Position {
                            current_intersection: Some(
                                Current { int_id: b.int_2_id, direction: b.from },
                            ),
                            in_between: None,
                        };
                        self.intersections[at].add_car_to_queue(c as u8, b.from);
                        let mut waiting = car;
                        waiting.randomize_intent(&mut self.rng);
                        waiting.at_intersection = true;
                        self.cars[c] = waiting;
                        proof {
                            old(self).lemma_arrival_keeps_wf(*self, c as int);
                        }
                        Ok(())
                    }
                }
            },
        };
        proof {
            assert forall|i: int, d: int|
                0 <= i < old(self).intersections@.len() && 0 <= d < 4 implies #[trigger] self.queue(
                i,
                d,
            ) =~= old(self).queue(i, d) + old(self).arrival(c as int, i, d) by {
                if !old(self).joins_queue(c as int, i, d) {
                    assert(self.queue(i, d) == old(self).queue(i, d));
                }
            }
        }
        res
    }

    /// A step that changes nothing but where on its road car `c` is keeps
    /// the simulator well formed.
    proof fn lemma_same_queues_keep_wf(self, post: Simulator, c: int)
        requires
            self.wf(),
            0 <= c < self.cars@.len(),
            post.road == self.road,
            post.timestep == self.timestep,
            post.intersections@ == self.intersections@,
            post.cars@ == self.cars@,
            post.car_positions@.len() == self.car_positions@.len(),
            forall|e: int|
                0 <= e < self.cars@.len() && e != c ==> #[trigger] post.car_positions@[e]
                    == self.car_positions@[e],
            !self.cars@[c].at_intersection,
            post.car_ok(c),
        ensures
            post.wf(),
    {
        assert forall|i: int, d: int|
            0 <= i < post.intersections@.len() && 0 <= d < 4 implies #[trigger] post.queue_ok(
            i,
            d,
        ) by {
            assert(self.queue_ok(i, d));
            assert forall|k: int| 0 <= k < post.queue(i, d).len() implies #[trigger] post.waits_here(
                post.queue(i, d)[k],
                i,
                d,
            ) by {
                assert(self.waits_here(self.queue(i, d)[k], i, d));
            }
        }
        assert forall|e: int| 0 <= e < post.cars@.len() implies #[trigger] post.car_ok(e) by {
            assert(self.car_ok(e));
        }
    }

    /// A car that arrives and has to wait joins the queue of its approach as
    /// the last car, and the simulator stays well formed.
    proof fn lemma_arrival_keeps_wf(self, post: Simulator, c: int)
        requires
            self.wf(),
            0 <= c < self.cars@.len(),
            self.car_positions@[c].is_in_transit(),
            post.road == self.road,
            post.timestep == self.timestep,
            post.cars@.len() == self.cars@.len(),
            post.car_positions@.len() == self.car_positions@.len(),
            post.same_signals(self),
            forall|e: int|
                0 <= e < self.cars@.len() && e != c ==> #[trigger] post.cars@[e] == self.cars@[e],
            forall|e: int|
                0 <= e < self.cars@.len() && e != c ==> #[trigger] post.car_positions@[e]
                    == self.car_positions@[e],
            post.cars@[c] == (Car {
                at_intersection: true,
                intention: post.cars@[c].intention,
                ..self.cars@[c]
            }),
            ({
                let b = self.car_positions@[c].in_between.unwrap();
                &&& self.road.has(b.int_2_id)
                &&& post.car_positions@[c] == Position {
                    current_intersection: Some(Current { int_id: b.int_2_id, direction: b.from }),
                    in_between: None,
                }
                &&& post.queue(b.int_2_id - 1, b.from as int) == self.queue(
                    b.int_2_id - 1,
                    b.from as int,
                ).push(c as u8)
                &&& forall|i: int, d: int|
                    0 <= i < self.intersections@.len() && 0 <= d < 4 && !(i == b.int_2_id - 1 && d
                        == b.from) ==> #[trigger] post.queue(i, d) == self.queue(i, d)
            }),
        ensures
            post.wf(),
            self.movement_frame(post),
    {
        let b = self.car_positions@[c].in_between.unwrap();
        let at = b.int_2_id - 1;
        assert(self.car_ok(c));
        assert forall|i: int, d: int|
            0 <= i < post.intersections@.len() && 0 <= d < 4 implies #[trigger] post.queue_ok(
            i,
            d,
        ) && self.queue(i, d).is_prefix_of(post.queue(i, d)) by {
            assert(self.queue_ok(i, d));
            let q = self.queue(i, d);
            assert forall|k: int| 0 <= k < q.len() implies q[k] != c as u8 && post.waits_here(
                q[k],
                i,
                d,
            ) by {
                assert(self.waits_here(q[k], i, d));
            }
            if i == at && d == b.from {
                assert(post.queue(i, d) == q.push(c as u8));
                assert(post.queue(i, d).no_duplicates());
                assert forall|k: int| 0 <= k < post.queue(i, d).len() implies #[trigger] post.waits_here(
                    post.queue(i, d)[k],
                    i,
                    d,
                ) by {
                    if k < q.len() {
                        assert(post.queue(i, d)[k] == q[k]);
                    }
                }
            } else {
                assert(post.queue(i, d) == q);
                assert forall|k: int| 0 <= k < post.queue(i, d).len() implies #[trigger] post.waits_here(
                    post.queue(i, d)[k],
                    i,
                    d,
                ) by {
                    assert(post.queue(i, d)[k] == q[k]);
                }
            }
        }
        assert forall|e: int| 0 <= e < post.cars@.len() implies #[trigger] post.car_ok(e) by {
            assert(self.car_ok(e));
            if e == c {
                let q = post.queue(at, b.from as int);
                assert(q[q.len() - 1] == c as u8);
            } else {
                let p = self.car_positions@[e];
                if p.is_at_intersection() && self.cars@[e].at_intersection {
                    let pc = p.current_intersection.unwrap();
                    let q = self.queue(pc.int_id - 1, pc.direction as int);
                    let k = choose|k: int| 0 <= k < q.len() && q[k] == e as u8;
                    assert(self.queue_ok(pc.int_id - 1, pc.direction as int));
                    assert(post.queue(pc.int_id - 1, pc.direction as int)[k] == e as u8);
                }
            }
        }
    }

    /// The movement phase of a tick: every car, in the order of the car
    /// ids, moves on as `car_moved` says. The phase stops at the first car
    /// that is stranded, and leaves that car and those after it untouched.
    /// Cars that arrive and have to wait line up behind those already
    /// waiting.
    pub fn tick_cars(&mut self) -> (res: Result<(), Fault>)
        requires
            old(self).wf(),
        ensures
            final(self).wf(),
            old(self).movement_done(*final(self), res),
    {
        let ghost pre = *self;
        let n: usize = self.cars.len();
        let mut c: usize = 0;
        proof {
            assert forall|i: int, d: int|
                0 <= i < self.intersections@.len() && 0 <= d < 4 implies pre.queue(
                i,
                d,
            ).is_prefix_of(#[trigger] self.queue(i, d)) by {}
            assert forall|i: int, d: int|
                0 <= i < self.intersections@.len() && 0 <= d < 4 implies #[trigger] self.queue(i, d)
                =~= pre.queue(i, d) + pre.arrivals(i, d, 0) by {}
        }
        while c < n
            invariant
                c <= n,
                pre == *old(self),
                n == pre.cars@.len(),
                n <= 255,
                pre.wf(),
                self.wf(),
                pre.movement_frame(*self),
                pre.moved_up_to(*self, c as int),
            decreases n - c,
        {
            let ghost before = *self;
            let res = self.advance_car(c);
            proof {
                pre.lemma_step_composes(before, *self, c as int);
            }
            if res.is_err() {
                return res;
            }
            c += 1;
        }
        Ok(())
    }

    /// One more car moved: what holds of the step from `before` to `after`
    /// holds of the whole phase so far.
    proof fn lemma_step_composes(self, before: Simulator, after: Simulator, c: int)
        requires
            self.wf(),
            0 <= c < self.cars@.len(),
            self.movement_frame(before),
            self.moved_up_to(before, c),
            before.movement_frame(after),
            forall|e: int|
                0 <= e < before.cars@.len() && e != c ==> #[trigger] after.cars@[e]
                    == before.cars@[e],
            forall|e: int|
                0 <= e < before.cars@.len() && e != c ==> #[trigger] after.car_positions@[e]
                    == before.car_positions@[e],
            forall|i: int, d: int|
                0 <= i < before.intersections@.len() && 0 <= d < 4 ==> #[trigger] after.queue(i, d)
                    == before.queue(i, d) + before.arrival(c, i, d),
            before.stranded(c) ==> after.cars@ == before.cars@ && after.car_positions@
                == before.car_positions@,
            !before.stranded(c) ==> before.car_moved(after, c),
        ensures
            self.movement_frame(after),
            before.stranded(c) == self.stranded(c),
            before.car_positions@[c] == self.car_positions@[c],
            self.stranded(c) ==> self.moved_up_to(after, c),
            !self.stranded(c) ==> self.moved_up_to(after, c + 1),
    {
        assert(before.cars@[c] == self.cars@[c] && before.car_positions@[c]
            == self.car_positions@[c]);
        assert forall|i: int, d: int|
            0 <= i < self.intersections@.len() && 0 <= d < 4 implies self.queue(i, d).is_prefix_of(
            #[trigger] after.queue(i, d),
        ) by {
            assert(self.queue(i, d).is_prefix_of(before.queue(i, d)));
            assert(before.queue(i, d).is_prefix_of(after.queue(i, d)));
        }
        assert forall|j: int|
            0 <= j < after.intersections@.len() implies (#[trigger] after.intersections@[j]).lights
            == self.intersections@[j].lights && after.intersections@[j].id
            == self.intersections@[j].id by {
            assert(before.intersections@[j].lights == self.intersections@[j].lights);
        }
        assert forall|e: int| 0 <= e < c implies #[trigger] self.car_moved(after, e) by {
            assert(self.car_moved(before, e));
            assert(after.cars@[e] == before.cars@[e]);
            assert(after.car_positions@[e] == before.car_positions@[e]);
        }
        assert forall|e: int| c < e < self.cars@.len() implies #[trigger] after.cars@[e]
            == self.cars@[e] by {
            assert(before.cars@[e] == self.cars@[e]);
        }
        assert forall|e: int| c < e < self.cars@.len() implies #[trigger] after.car_positions@[e]
            == self.car_positions@[e] by {
            assert(before.car_positions@[e] == self.car_positions@[e]);
        }
        assert(before.stranded(c) == self.stranded(c));
        assert(self.car_ok(c));
        assert forall|i: int, d: int|
            0 <= i < self.intersections@.len() && 0 <= d < 4 implies before.arrival(c, i, d)
            == self.arrival(c, i, d) by {
            assert(before.intersections@[i].lights == self.intersections@[i].lights);
        }
        if self.stranded(c) {
            assert forall|i: int, d: int|
                0 <= i < self.intersections@.len() && 0 <= d < 4 implies #[trigger] after.queue(i, d)
                =~= self.queue(i, d) + self.arrivals(i, d, c) by {
                assert(before.queue(i, d) == self.queue(i, d) + self.arrivals(i, d, c));
                assert(after.queue(i, d) == before.queue(i, d) + before.arrival(c, i, d));
                assert(!self.joins_queue(c, i, d));
            }
        } else {
            assert forall|i: int, d: int|
                0 <= i < self.intersections@.len() && 0 <= d < 4 implies #[trigger] after.queue(i, d)
                =~= self.queue(i, d) + self.arrivals(i, d, c + 1) by {
                assert(before.queue(i, d) == self.queue(i, d) + self.arrivals(i, d, c));
                assert(after.queue(i, d) == before.queue(i, d) + before.arrival(c, i, d));
                assert(self.arrivals(i, d, c + 1) == self.arrivals(i, d, c) + self.arrival(c, i, d));
            }
        }
        if !self.stranded(c) {
            let pos = self.car_positions@[c];
            if pos.is_in_transit() {
                let b = pos.in_between.unwrap();
                assert(self.road.edge_ok(b.int_1_id - 1, b.from as int));
                assert(before.intersections@[b.int_2_id - 1].lights == self.intersections@[b.int_2_id
                    - 1].lights);
            }
            assert(self.car_moved(after, c));
        }
    }
}

} // verus!
