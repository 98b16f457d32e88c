//! Whole ticks: a light phase followed by a movement phase, and runs of
//! several ticks.

use vstd::prelude::*;
use crate::error::Fault;
use crate::simulator::Simulator;
use crate::traffic_logic::intersection::LightConfig;

verus! {

impl Simulator {
    /// `post` is `self` one tick later, where the tick drew the patterns
    /// `lights`, stood at `mid` between its two phases and ended with `res`.
    pub open spec fn tick_via(
        self,
        mid: Simulator,
        lights: Seq<LightConfig>,
        post: Simulator,
        res: Result<(), Fault>,
    ) -> bool {
        &&& lights.len() == self.intersections@.len()
        &&& self.lights_applied(mid, lights)
        &&& mid.movement_done(post, res)
    }

    /// `post` is `self` one tick later, and the tick ended with `res`. The
    /// tick drew some pattern for each intersection: which ones is up to the
    /// generator.
    pub open spec fn ticks_to(self, post: Simulator, res: Result<(), Fault>) -> bool {
        exists|mid: Simulator, lights: Seq<LightConfig>| #[trigger]
            self.tick_via(mid, lights, post, res)
    }

    /// What no tick changes: the roads, how many intersections and cars
    /// there are, and which id each has.
    pub open spec fn same_network(self, post: Simulator) -> bool {
        &&& post.road == self.road
        &&& post.intersections@.len() == self.intersections@.len()
        &&& post.cars@.len() == self.cars@.len()
        &&& post.car_positions@.len() == self.car_positions@.len()
    }

    /// `post` has the roads, intersections, cars, positions and clock of
    /// `self`.
    pub open spec fn same_world(self, post: Simulator) -> bool {
        &&& post.road == self.road
        &&& post.timestep == self.timestep
        &&& post.intersections@ == self.intersections@
        &&& post.cars@ == self.cars@
        &&& post.car_positions@ == self.car_positions@
    }

    /// `post` is `self` after `n` ticks that all ended well.
    pub open spec fn reaches(self, post: Simulator, n: nat) -> bool
        decreases n,
    {
        if n == 0 {
            self.same_world(post)
        } else {
            exists|prev: Simulator|
                #![trigger prev.ticks_to(post, Ok(()))]
                self.reaches(prev, (n - 1) as nat) && prev.ticks_to(post, Ok(()))
        }
    }

    /// `post` is where a run from `self` stopped with the fault `fault`,
    /// after `n` ticks that ended well: either the clock was at its end, or
    /// the next tick failed.
    pub open spec fn stops_after(self, post: Simulator, n: nat, fault: Fault) -> bool {
        exists|prev: Simulator|
            #![trigger self.reaches(prev, n)]
            self.reaches(prev, n) && match fault {
                Fault::ClockExhausted => prev.timestep == usize::MAX && prev.same_world(post),
                _ => prev.timestep < usize::MAX && prev.ticks_to(post, Err(fault)),
            }
    }

    /// Plays one tick: draws new lights for every intersection, plays the
    /// light phase with them, then the movement phase.
    pub fn play_timestep(&mut self) -> (res: Result<(), Fault>)
        requires
            old(self).wf(),
            old(self).timestep < usize::MAX,
        ensures
            final(self).wf(),
            old(self).ticks_to(*final(self), res),
            old(self).same_network(*final(self)),
            final(self).timestep == old(self).timestep + 1,
    {
        let new_lights = self.create_random_lights();
        let ghost start = *self;
        self.tick_lights(&new_lights);
        let ghost mid = *self;
        let res = self.tick_cars();
        proof {
            old(self).lemma_lights_ignore_rng(start, mid, new_lights@);
            assert(old(self).tick_via(mid, new_lights@, *self, res));
        }
        res
    }

    /// Plays `ticks` ticks, one after the other, and stops at the first
    /// that fails, or before the tick that the clock cannot count.
    pub fn run(&mut self, ticks: usize) -> (res: Result<(), Fault>)
        requires
            old(self).wf(),
        ensures
            final(self).wf(),
            match res {
                Ok(_) => old(self).reaches(*final(self), ticks as nat),
                Err(fault) => exists|n: nat|
                    n < ticks && #[trigger] old(self).stops_after(*final(self), n, fault),
            },
            old(self).same_network(*final(self)),
            res.is_ok() ==> final(self).timestep == old(self).timestep + ticks,
            final(self).timestep <= old(self).timestep + ticks,
    {
        let mut done: usize = 0;
        while done < ticks
            invariant
                done <= ticks,
                self.wf(),
                old(self).reaches(*self, done as nat),
                old(self).same_network(*self),
                self.timestep == old(self).timestep + done,
            decreases ticks - done,
        {
            let ghost prev = *self;
            if self.timestep == usize::MAX {
                proof {
                    assert(old(self).reaches(prev, done as nat) && prev.timestep == usize::MAX
                        && prev.same_world(*self));
                    assert(old(self).stops_after(*self, done as nat, Fault::ClockExhausted));
                }
                return Err(Fault::ClockExhausted);
            }
            let res = self.play_timestep();
            match res {
                Ok(unit) => {
                    proof {
                        assert(unit == ());
                        assert(res == Ok::<(), Fault>(unit));
                        assert(old(self).reaches(prev, done as nat) && prev.ticks_to(*self, Ok(())));
                    }
                },
                Err(fault) => {
                    proof {
                        assert(prev.ticks_to(*self, Err(fault)));
                        assert(fault != Fault::ClockExhausted);
                        assert(old(self).reaches(prev, done as nat) && prev.timestep < usize::MAX
                            && prev.ticks_to(*self, Err(fault)));
                        assert(old(self).stops_after(*self, done as nat, fault));
                    }
                    return Err(fault);
                },
            }
            done += 1;
            proof {
                assert(old(self).reaches(prev, (done as nat - 1) as nat) && prev.ticks_to(
                    *self,
                    Ok(()),
                ));
            }
        }
        Ok(())
    }
}

} // verus!
