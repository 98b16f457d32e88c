//! The light phase of a tick: every intersection switches to a new set of
//! lights, and the first car of every queue is shown them.

use vstd::prelude::*;
use crate::simulator::Simulator;
use crate::traffic_logic::car::Car;
use crate::traffic_logic::intersection::{Intersection, LightConfig, TrafficLight};

verus! {

/// The four lights are those of pattern `config`.
pub open spec fn shows(lights: [TrafficLight; 4], config: LightConfig) -> bool {
    forall|d: int|
        #![trigger lights@[d]]
        #![trigger config.spec_light(d)]
        0 <= d < 4 ==> lights@[d] == config.spec_light(d)
}

impl Simulator {
    /// Car `c` waits and is the first in the queue of its approach.
    pub open spec fn heads_queue(self, c: int) -> bool {
        let pos = self.car_positions@[c];
        let cur = pos.current_intersection.unwrap();
        &&& self.cars@[c].at_intersection
        &&& pos.is_at_intersection()
        &&& self.queue(cur.int_id - 1, cur.direction as int).len() > 0
        &&& self.queue(cur.int_id - 1, cur.direction as int)[0] == c
    }

    /// Car `c` after a light phase with the patterns `new_lights` (one per
    /// intersection): the first car of a queue is let go if the new light at
    /// its approach permits its intent, and has waited a tick more if not.
    /// All other cars are as before.
    pub open spec fn car_after_lights(self, new_lights: Seq<LightConfig>, c: int) -> Car {
        let car = self.cars@[c];
        let cur = self.car_positions@[c].current_intersection.unwrap();
        if self.heads_queue(c) {
            if Car::permits(new_lights[cur.int_id - 1].spec_light(cur.direction as int), car.intention) {
                car.released()
            } else {
                car.delayed()
            }
        } else {
            car
        }
    }

    /// A queue after a light phase: its first car has left it if the new
    /// light permits that car's intent. Otherwise the queue is as before,
    /// with the same car in front.
    pub open spec fn queue_after_lights(self, new_lights: Seq<LightConfig>, i: int, d: int) -> Seq<
        u8,
    > {
        let q = self.queue(i, d);
        if q.len() > 0 && Car::permits(new_lights[i].spec_light(d), self.cars@[q[0] as int].intention) {
            q.drop_first()
        } else {
            q
        }
    }

    /// `post` is what a light phase with the patterns `new_lights` makes of
    /// `self`.
    pub open spec fn lights_applied(self, post: Simulator, new_lights: Seq<LightConfig>) -> bool {
        &&& post.road == self.road
        &&& post.car_positions@ == self.car_positions@
        &&& post.timestep == self.timestep + 1
        &&& post.cars@.len() == self.cars@.len()
        &&& post.intersections@.len() == self.intersections@.len()
        &&& forall|j: int|
            0 <= j < self.intersections@.len() ==> (#[trigger] post.intersections@[j]).id
                == self.intersections@[j].id && shows(post.intersections@[j].lights, new_lights[j])
        &&& forall|c: int|
            0 <= c < self.cars@.len() ==> #[trigger] post.cars@[c] == self.car_after_lights(
                new_lights,
                c,
            )
        &&& forall|j: int, e: int|
            0 <= j < self.intersections@.len() && 0 <= e < 4 ==> #[trigger] post.queue(j, e)
                == self.queue_after_lights(new_lights, j, e)
    }

    /// Car `c` stands at one of the first `i` intersections.
    pub open spec fn car_served(self, c: int, i: int) -> bool {
        let pos = self.car_positions@[c];
        pos.is_at_intersection() && pos.current_intersection.unwrap().int_id - 1 < i
    }

    /// `now` is `self` in the middle of a light phase that has dealt with
    /// the first `i` intersections.
    pub open spec fn lights_progress(self, now: Simulator, new_lights: Seq<LightConfig>, i: int) -> bool {
        &&& now.road == self.road
        &&& now.car_positions@ == self.car_positions@
        &&& now.timestep == self.timestep + 1
        &&& now.cars@.len() == self.cars@.len()
        &&& now.intersections@.len() == self.intersections@.len()
        &&& forall|j: int|
            0 <= j < self.intersections@.len() ==> (#[trigger] now.intersections@[j]).id
                == self.intersections@[j].id && (j < i ==> shows(
                now.intersections@[j].lights,
                new_lights[j],
            ))
        &&& forall|c: int|
            0 <= c < self.cars@.len() ==> #[trigger] now.cars@[c] == if self.car_served(c, i) {
                self.car_after_lights(new_lights, c)
            } else {
                self.cars@[c]
            }
        &&& forall|j: int, e: int|
            0 <= j < self.intersections@.len() && 0 <= e < 4 ==> #[trigger] now.queue(j, e) == if j
                < i {
                self.queue_after_lights(new_lights, j, e)
            } else {
                self.queue(j, e)
            }
    }

    /// A light phase keeps the simulator well formed.
    pub proof fn lemma_lights_keep_wf(self, post: Simulator, new_lights: Seq<LightConfig>)
        requires
            self.wf(),
            self.timestep < usize::MAX,
            new_lights.len() == self.intersections@.len(),
            self.lights_applied(post, new_lights),
        ensures
            post.wf(),
    {
        assert forall|i: int, d: int|
            0 <= i < post.intersections@.len() && 0 <= d < 4 implies #[trigger] post.queue_ok(
            i,
            d,
        ) by {
            assert(self.queue_ok(i, d));
            let q = self.queue(i, d);
            let q2 = post.queue(i, d);
            assert(q2 == self.queue_after_lights(new_lights, i, d));
            let off: int = if q2.len() == q.len() { 0 } else { 1 };
            assert forall|k: int| 0 <= k < q2.len() implies q2[k] == q[k + off] by {}
            assert forall|k: int| 0 <= k < q2.len() implies #[trigger] post.waits_here(
                q2[k],
                i,
                d,
            ) by {
                let c = q[k + off];
                assert(self.waits_here(c, i, d));
                assert(post.cars@[c as int] == self.car_after_lights(new_lights, c as int));
                if self.heads_queue(c as int) {
                    assert(q[0] == c);
                    assert(k + off == 0);
                }
            }
        }
        assert forall|c: int| 0 <= c < post.cars@.len() implies #[trigger] post.car_ok(c) by {
            assert(self.car_ok(c));
            assert(post.cars@[c] == self.car_after_lights(new_lights, c));
            let pos = self.car_positions@[c];
            if pos.is_at_intersection() && post.cars@[c].at_intersection {
                let cur = pos.current_intersection.unwrap();
                let i = cur.int_id - 1;
                let d = cur.direction as int;
                let q = self.queue(i, d);
                let q2 = post.queue(i, d);
                assert(q2 == self.queue_after_lights(new_lights, i, d));
                let k = choose|k: int| 0 <= k < q.len() && q[k] == c as u8;
                if q2.len() == q.len() {
                    assert(q2[k] == c as u8);
                } else {
                    assert(self.queue_ok(i, d));
                    assert(self.waits_here(q[0], i, d));
                    if k == 0 {
                        assert(self.heads_queue(c));
                    }
                    assert(q2[k - 1] == c as u8);
                }
            }
        }
    }

    /// What a light phase makes of a simulator does not depend on the state
    /// of its generator.
    pub proof fn lemma_lights_ignore_rng(
        self,
        start: Simulator,
        post: Simulator,
        new_lights: Seq<LightConfig>,
    )
        requires
            self.same_world(start),
            start.lights_applied(post, new_lights),
        ensures
            self.lights_applied(post, new_lights),
    {
        assert forall|c: int| 0 <= c < self.cars@.len() implies #[trigger] post.cars@[c]
            == self.car_after_lights(new_lights, c) by {
            assert(post.cars@[c] == start.car_after_lights(new_lights, c));
            assert(start.heads_queue(c) == self.heads_queue(c));
        }
        assert forall|j: int, e: int|
            0 <= j < self.intersections@.len() && 0 <= e < 4 implies #[trigger] post.queue(j, e)
            == self.queue_after_lights(new_lights, j, e) by {
            assert(post.queue(j, e) == start.queue_after_lights(new_lights, j, e));
        }
    }

    /// Draws a pattern for every intersection. Which patterns come out is
    /// up to the generator; nothing but the generator changes.
    pub fn create_random_lights(&mut self) -> (lights: Vec<LightConfig>)
        ensures
            lights@.len() == old(self).intersections@.len(),
            *final(self) == (Simulator { rng: final(self).rng, ..*old(self) }),
            old(self).wf() ==> final(self).wf(),
    {
        let n: usize = self.intersections.len();
        let mut lights: Vec<LightConfig> = Vec::new();
        let mut i: usize = 0;
        while i < n
            invariant
                i <= n,
                n == old(self).intersections@.len(),
                lights@.len() == i,
                *self == (Simulator { rng: self.rng, ..*old(self) }),
            decreases n - i,
        {
            let config = LightConfig::random(&mut self.rng);
            lights.push(config);
            i += 1;
        }
        proof {
            if old(self).wf() {
                old(self).lemma_wf_ignores_rng(*self);
            }
        }
        lights
    }

    /// The light phase of a tick. Every intersection switches to its pattern
    /// in `new_lights` and shows the new lights to its queues: the first car
    /// of a queue leaves it if the light at its approach permits its intent,
    /// and stays first in it, having waited one tick more, if not. No other
    /// car and no position changes.
    pub fn tick_lights(&mut self, new_lights: &Vec<LightConfig>)
        requires
            old(self).wf(),
            old(self).timestep < usize::MAX,
            new_lights@.len() == old(self).intersections@.len(),
        ensures
            final(self).wf(),
            old(self).lights_applied(*final(self), new_lights@),
    {
        let ghost pre = *self;
        self.timestep = self.timestep + 1;
        let n: usize = self.intersections.len();
        let mut i: usize = 0;
        proof {
            assert forall|j: int, e: int| 0 <= j < n && 0 <= e < 4 implies #[trigger] self.queue(
                j,
                e,
            ) == pre.queue(j, e) by {}
            assert forall|c: int| 0 <= c < pre.cars@.len() implies !pre.car_served(c, 0) by {
                assert(pre.car_ok(c));
            }
        }
        while i < n
            invariant
                i <= n,
                n == pre.intersections@.len(),
                new_lights@.len() == n,
                pre.wf(),
                pre.timestep < usize::MAX,
                pre.lights_progress(*self, new_lights@, i as int),
            decreases n - i,
        {
            let ghost before = *self;
            self.intersections[i].apply_light_config(new_lights[i]);
            let ghost lit = self.intersections@[i as int];
            proof {
                assert forall|e: int| 0 <= e < 4 implies #[trigger] lit.queue(e) == before.queue(
                    i as int,
                    e,
                ) by {}
                pre.lemma_can_publish(before, lit, new_lights@, i as int);
            }
            self.intersections[i].publish(&mut self.cars);
            proof {
                assert forall|j: int| 0 <= j < n && j != i implies #[trigger] self.intersections@[j]
                    == before.intersections@[j] by {}
                pre.lemma_intersection_served(before, lit, *self, new_lights@, i as int);
            }
            i += 1;
        }
        proof {
            assert forall|c: int| 0 <= c < pre.cars@.len() implies #[trigger] self.cars@[c]
                == pre.car_after_lights(new_lights@, c) by {
                assert(pre.car_ok(c));
            }
            assert(pre.lights_applied(*self, new_lights@));
            pre.lemma_lights_keep_wf(*self, new_lights@);
        }
    }

    /// In the middle of a light phase the next intersection, with its
    /// lights switched already (`lit`), can show them to its queues.
    proof fn lemma_can_publish(
        self,
        before: Simulator,
        lit: Intersection,
        new_lights: Seq<LightConfig>,
        i: int,
    )
        requires
            self.wf(),
            self.timestep < usize::MAX,
            0 <= i < self.intersections@.len(),
            self.lights_progress(before, new_lights, i),
            forall|e: int| 0 <= e < 4 ==> #[trigger] lit.queue(e) == before.queue(i, e),
        ensures
            lit.can_publish(before.cars@),
    {
        assert forall|d: int| 0 <= d < 4 && (#[trigger] lit.queue(d)).len() > 0 implies lit.queue(
            d,
        )[0] < before.cars@.len() && before.cars@[lit.queue(d)[0] as int].wait_time
            < usize::MAX by {
            let h = lit.queue(d)[0];
            assert(before.queue(i, d) == self.queue(i, d));
            assert(self.queue_ok(i, d));
            assert(self.waits_here(self.queue(i, d)[0], i, d));
            assert(self.car_ok(h as int));
            assert(!self.car_served(h as int, i));
            assert(before.cars@[h as int] == self.cars@[h as int]);
        }
        assert forall|d: int, e: int|
            0 <= d < e < 4 && (#[trigger] lit.queue(d)).len() > 0 && (#[trigger] lit.queue(e)).len()
                > 0 implies lit.queue(d)[0] != lit.queue(e)[0] by {
            assert(before.queue(i, d) == self.queue(i, d));
            assert(before.queue(i, e) == self.queue(i, e));
            assert(self.queue_ok(i, d));
            assert(self.queue_ok(i, e));
            assert(self.waits_here(self.queue(i, d)[0], i, d));
            assert(self.waits_here(self.queue(i, e)[0], i, e));
        }
    }

    /// One more intersection has switched its lights and shown them to its
    /// queues: the light phase is one intersection further.
    proof fn lemma_intersection_served(
        self,
        before: Simulator,
        lit: Intersection,
        after: Simulator,
        new_lights: Seq<LightConfig>,
        i: int,
    )
        requires
            self.wf(),
            0 <= i < self.intersections@.len(),
            new_lights.len() == self.intersections@.len(),
            self.lights_progress(before, new_lights, i),
            shows(lit.lights, new_lights[i]),
            forall|e: int| 0 <= e < 4 ==> #[trigger] lit.queue(e) == before.queue(i, e),
            after.road == before.road,
            after.car_positions@ == before.car_positions@,
            after.timestep == before.timestep,
            after.cars@.len() == before.cars@.len(),
            after.intersections@.len() == before.intersections@.len(),
            forall|j: int|
                0 <= j < before.intersections@.len() && j != i ==> #[trigger] after.intersections@[j]
                    == before.intersections@[j],
            after.intersections@[i].id == before.intersections@[i].id,
            after.intersections@[i].lights == lit.lights,
            forall|d: int|
                0 <= d < 4 ==> #[trigger] after.intersections@[i].queue(d)
                    == lit.queue_after_publish(before.cars@, d),
            forall|c: int|
                0 <= c < before.cars@.len() ==> #[trigger] after.cars@[c] == lit.car_after_publish(
                    before.cars@,
                    c,
                ),
        ensures
            self.lights_progress(after, new_lights, i + 1),
    {
        assert forall|d: int| 0 <= d < 4 && lit.queue(d).len() > 0 implies self.waits_here(
            #[trigger] lit.queue(d)[0],
            i,
            d,
        ) && before.cars@[lit.queue(d)[0] as int] == self.cars@[lit.queue(d)[0] as int] by {
            let h = lit.queue(d)[0];
            assert(before.queue(i, d) == self.queue(i, d));
            assert(self.queue_ok(i, d));
            assert(self.waits_here(self.queue(i, d)[0], i, d));
            assert(self.car_ok(h as int));
            assert(!self.car_served(h as int, i));
        }
        assert forall|j: int, e: int|
            0 <= j < self.intersections@.len() && 0 <= e < 4 implies #[trigger] after.queue(j, e)
            == if j < i + 1 {
            self.queue_after_lights(new_lights, j, e)
        } else {
            self.queue(j, e)
        } by {
            if j != i {
                assert(after.intersections@[j] == before.intersections@[j]);
                assert(after.queue(j, e) == before.queue(j, e));
            } else {
                assert(after.queue(i, e) == lit.queue_after_publish(before.cars@, e));
                assert(lit.queue(e) == self.queue(i, e));
                if lit.queue(e).len() > 0 {
                    assert(self.waits_here(lit.queue(e)[0], i, e));
                }
            }
        }
        assert forall|c: int| 0 <= c < self.cars@.len() implies #[trigger] after.cars@[c] == if self.car_served(
            c,
            i + 1,
        ) {
            self.car_after_lights(new_lights, c)
        } else {
            self.cars@[c]
        } by {
            assert(self.car_ok(c));
            assert(after.cars@[c] == lit.car_after_publish(before.cars@, c));
            assert(before.cars@[c] == if self.car_served(c, i) {
                self.car_after_lights(new_lights, c)
            } else {
                self.cars@[c]
            });
            let pos = self.car_positions@[c];
            let cur = pos.current_intersection.unwrap();
            assert forall|e: int| 0 <= e < 4 && lit.heads(c, e) implies pos.is_at_intersection()
                && cur.int_id - 1 == i && cur.direction == e && self.heads_queue(c) by {
                assert(self.waits_here(lit.queue(e)[0], i, e));
                assert(lit.queue(e) == self.queue(i, e));
            }
            if pos.is_at_intersection() && cur.int_id - 1 == i && self.heads_queue(c) {
                let d = cur.direction as int;
                assert(lit.queue(d) == self.queue(i, d));
                assert(lit.heads(c, d));
                assert(before.cars@[c] == self.cars@[c]);
                assert(lit.lights@[d] == new_lights[i].spec_light(d));
            } else {
                assert(!lit.heads(c, 0) && !lit.heads(c, 1) && !lit.heads(c, 2) && !lit.heads(c, 3));
            }
        }
        assert forall|j: int|
            0 <= j < self.intersections@.len() implies (#[trigger] after.intersections@[j]).id
            == self.intersections@[j].id && (j < i + 1 ==> shows(
            after.intersections@[j].lights,
            new_lights[j],
        )) by {
            assert(before.intersections@[j].id == self.intersections@[j].id);
            if j != i {
                assert(after.intersections@[j] == before.intersections@[j]);
            }
        }
    }
}

} // verus!
