//! What holds of every well-formed simulator and of every tick.

use vstd::prelude::*;
use crate::error::Fault;
use crate::simulator::Simulator;
use crate::traffic_logic::car::Car;
use crate::traffic_logic::intersection::LightConfig;

verus! {

/// A car stands in at most one place of one queue: if car `c` is found at
/// place `k1` of one queue and at place `k2` of another, the two queues are
/// the same queue and the two places the same place.
pub proof fn lemma_car_queued_at_most_once(
    s: Simulator,
    c: u8,
    i1: int,
    d1: int,
    k1: int,
    i2: int,
    d2: int,
    k2: int,
)
    requires
        s.wf(),
        0 <= i1 < s.intersections@.len(),
        0 <= d1 < 4,
        0 <= k1 < s.queue(i1, d1).len(),
        0 <= i2 < s.intersections@.len(),
        0 <= d2 < 4,
        0 <= k2 < s.queue(i2, d2).len(),
        s.queue(i1, d1)[k1] == c,
        s.queue(i2, d2)[k2] == c,
    ensures
        i1 == i2,
        d1 == d2,
        k1 == k2,
{
    assert(s.queue_ok(i1, d1));
    assert(s.queue_ok(i2, d2));
    assert(s.waits_here(s.queue(i1, d1)[k1], i1, d1));
    assert(s.waits_here(s.queue(i2, d2)[k2], i2, d2));
}

/// A car that waits stands in the queue of the approach it is at; a car
/// that does not wait stands in no queue.
pub proof fn lemma_queued_iff_waiting(s: Simulator, c: u8, i: int, d: int)
    requires
        s.wf(),
        c < s.cars@.len(),
        0 <= i < s.intersections@.len(),
        0 <= d < 4,
    ensures
        s.queue(i, d).contains(c) <==> s.waits_here(c, i, d),
{
    assert(s.queue_ok(i, d));
    assert(s.car_ok(c as int));
    if s.queue(i, d).contains(c) {
        let k = choose|k: int| 0 <= k < s.queue(i, d).len() && s.queue(i, d)[k] == c;
        assert(s.waits_here(s.queue(i, d)[k], i, d));
    }
}

/// Every car is either at an intersection or on a road, never both and
/// never neither; and a car on a road has at least one tick to go.
pub proof fn lemma_position_exclusive(s: Simulator, c: int)
    requires
        s.wf(),
        0 <= c < s.cars@.len(),
    ensures
        s.car_positions@[c].is_at_intersection() != s.car_positions@[c].is_in_transit(),
        s.car_positions@[c].current_intersection.is_some()
            != s.car_positions@[c].in_between.is_some(),
        s.car_positions@[c].in_between.is_some()
            ==> s.car_positions@[c].in_between.unwrap().distance_to_target > 0,
{
    assert(s.car_ok(c));
}

/// What the light accessor answers is a matter of the intersections'
/// lights alone. Looking at them takes the simulator as it is and leaves it
/// so; as long as no tick is played, every look gives the same answer.
pub proof fn lemma_lights_seen_are_stable(a: Simulator, b: Simulator, int_id: u8, direction: u8)
    requires
        a.same_signals(b),
    ensures
        a.spec_lights_at(int_id, direction) == b.spec_lights_at(int_id, direction),
{
}

/// A car that is first in its queue and is shown a light that does not
/// permit its intent is still first in that queue after the tick, stands
/// where it stood, and has waited exactly one tick more.
pub proof fn lemma_denied_car_stays_first(
    pre: Simulator,
    mid: Simulator,
    lights: Seq<LightConfig>,
    post: Simulator,
    res: Result<(), Fault>,
    c: int,
)
    requires
        pre.wf(),
        pre.tick_via(mid, lights, post, res),
        0 <= c < pre.cars@.len(),
        pre.heads_queue(c),
        !Car::permits(
            lights[pre.car_positions@[c].current_intersection.unwrap().int_id - 1].spec_light(
                pre.car_positions@[c].current_intersection.unwrap().direction as int,
            ),
            pre.cars@[c].intention,
        ),
    ensures
        post.car_positions@[c] == pre.car_positions@[c],
        post.cars@[c].wait_time == pre.cars@[c].wait_time + 1,
        post.cars@[c].at_intersection,
        ({
            let cur = pre.car_positions@[c].current_intersection.unwrap();
            post.queue(cur.int_id - 1, cur.direction as int).len() > 0 && post.queue(
                cur.int_id - 1,
                cur.direction as int,
            )[0] == c
        }),
{
    let cur = pre.car_positions@[c].current_intersection.unwrap();
    let i = cur.int_id - 1;
    let d = cur.direction as int;
    assert(pre.car_ok(c));
    assert(mid.cars@[c] == pre.car_after_lights(lights, c));
    assert(mid.queue(i, d) == pre.queue_after_lights(lights, i, d));
    assert(mid.queue(i, d).is_prefix_of(post.queue(i, d)));
    lemma_movement_spares_waiting(mid, post, res, c);
}

/// A car that is first in its queue and is shown a light that permits its
/// intent is let go, and its wait counter is after the tick what it was
/// before.
pub proof fn lemma_released_car_wait_unchanged(
    pre: Simulator,
    mid: Simulator,
    lights: Seq<LightConfig>,
    post: Simulator,
    res: Result<(), Fault>,
    c: int,
)
    requires
        pre.wf(),
        pre.tick_via(mid, lights, post, res),
        0 <= c < pre.cars@.len(),
        pre.heads_queue(c),
        Car::permits(
            lights[pre.car_positions@[c].current_intersection.unwrap().int_id - 1].spec_light(
                pre.car_positions@[c].current_intersection.unwrap().direction as int,
            ),
            pre.cars@[c].intention,
        ),
    ensures
        !mid.cars@[c].at_intersection,
        mid.cars@[c].wait_time == pre.cars@[c].wait_time,
        post.cars@[c].wait_time == pre.cars@[c].wait_time,
{
    assert(mid.cars@[c] == pre.car_after_lights(lights, c));
    lemma_movement_keeps_wait(mid, post, res, c);
}

/// A movement phase that ends well leaves no car standing at an
/// intersection after it was let go: every car then either waits in a queue
/// or is on a road.
pub proof fn lemma_released_cars_have_left(mid: Simulator, post: Simulator, c: int)
    requires
        mid.wf(),
        mid.movement_done(post, Ok(())),
        0 <= c < mid.cars@.len(),
    ensures
        post.car_positions@[c].is_at_intersection() ==> post.cars@[c].at_intersection,
        post.car_positions@[c].is_in_transit() ==> !post.cars@[c].at_intersection,
{
    assert(mid.car_ok(c));
    assert(mid.moved_up_to(post, mid.cars@.len() as int));
    assert(mid.car_moved(post, c));
}

/// The movement phase changes no wait counter.
pub proof fn lemma_movement_keeps_wait(mid: Simulator, post: Simulator, res: Result<(), Fault>, c: int)
    requires
        mid.movement_done(post, res),
        0 <= c < mid.cars@.len(),
    ensures
        post.cars@[c].wait_time == mid.cars@[c].wait_time,
        post.cars@[c].id == mid.cars@[c].id,
{
    let n: int = match res {
        Ok(_) => mid.cars@.len() as int,
        Err(Fault::NoOutboundEdge { car, intersection }) => car as int,
        Err(_) => 0,
    };
    assert(mid.moved_up_to(post, n));
    if c < n {
        assert(mid.car_moved(post, c));
    } else {
        assert(post.cars@[c] == mid.cars@[c]);
    }
}

/// The movement phase leaves a waiting car alone.
pub proof fn lemma_movement_spares_waiting(mid: Simulator, post: Simulator, res: Result<(), Fault>, c: int)
    requires
        mid.movement_done(post, res),
        0 <= c < mid.cars@.len(),
        mid.car_positions@[c].is_at_intersection(),
        mid.cars@[c].at_intersection,
    ensures
        post.cars@[c] == mid.cars@[c],
        post.car_positions@[c] == mid.car_positions@[c],
{
    let n: int = match res {
        Ok(_) => mid.cars@.len() as int,
        Err(Fault::NoOutboundEdge { car, intersection }) => car as int,
        Err(_) => 0,
    };
    assert(mid.moved_up_to(post, n));
    if c < n {
        assert(mid.car_moved(post, c));
    } else {
        assert(post.cars@[c] == mid.cars@[c]);
        assert(post.car_positions@[c] == mid.car_positions@[c]);
    }
}

} // verus!
