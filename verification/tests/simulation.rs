use rand::rngs::StdRng;
use rand::SeedableRng;
use std::collections::VecDeque;
use traffic_sim::error::{ConfigError, Fault};
use traffic_sim::simulator::{Between, Current, Position, Simulator};
use traffic_sim::traffic_logic::car::Direction;
use traffic_sim::traffic_logic::intersection::LightConfig;
use traffic_sim::traffic_logic::road::Node;

fn at(int_id: u8, direction: u8) -> Position {
    Position::new(Some(Current { int_id, direction }), None)
}

fn on_road(int_1_id: u8, int_2_id: u8, distance_to_target: u8, from: u8) -> Position {
    Position::new(None, Some(Between { int_1_id, int_2_id, distance_to_target, from }))
}

/// Four intersections in a ring: 1 east to 2 (5), 2 south to 3 (3),
/// 3 west to 4 (6), 4 north to 1 (2).
fn ring(seed: u64) -> Simulator {
    let mut sim = Simulator::new(seed);
    assert_eq!(sim.add_intersections(4), Ok(()));
    assert_eq!(sim.add_road(1, 1, 2, 5), Ok(()));
    assert_eq!(sim.add_road(2, 2, 3, 3), Ok(()));
    assert_eq!(sim.add_road(3, 3, 4, 6), Ok(()));
    assert_eq!(sim.add_road(4, 0, 1, 2), Ok(()));
    sim
}

fn all(sim: &Simulator, config: LightConfig) -> Vec<LightConfig> {
    vec![config; sim.intersections.len()]
}

fn queue(sim: &Simulator, int_id: u8, direction: u8) -> Vec<u8> {
    sim.intersections[(int_id - 1) as usize].light_queues[direction as usize]
        .iter()
        .copied()
        .collect()
}

fn assert_consistent(sim: &Simulator) {
    assert_eq!(sim.cars.len(), sim.car_positions.len());
    let mut times_queued = vec![0usize; sim.cars.len()];
    for (i, x) in sim.intersections.iter().enumerate() {
        assert_eq!(x.id as usize, i + 1);
        for d in 0..4 {
            for c in x.light_queues[d].iter() {
                times_queued[*c as usize] += 1;
                let pos = sim.car_positions[*c as usize];
                assert_eq!(pos, at(x.id, d as u8));
                assert!(sim.cars[*c as usize].at_intersection);
            }
        }
    }
    for (c, car) in sim.cars.iter().enumerate() {
        let pos = sim.car_positions[c];
        assert_eq!(car.id as usize, c);
        assert!(car.wait_time <= sim.timestep);
        assert!(pos.current_intersection.is_some() != pos.in_between.is_some());
        assert!(times_queued[c] <= 1);
        assert_eq!(times_queued[c] == 1, car.at_intersection);
        if let Some(b) = pos.in_between {
            assert!(b.distance_to_target > 0);
            assert!(!car.at_intersection);
            let edge = sim.road.edge(b.int_1_id, b.from).unwrap();
            assert_eq!(edge.dest_int_id, b.int_2_id);
            assert!(b.distance_to_target <= edge.dist_from_source);
        }
    }
}

#[test]
fn position_new_keeps_both_fields() {
    let cur = Current { int_id: 2, direction: 3 };
    let b = Between { int_1_id: 1, int_2_id: 2, distance_to_target: 4, from: 1 };
    let p = Position::new(Some(cur), None);
    assert_eq!(p.current_intersection, Some(cur));
    assert_eq!(p.in_between, None);
    let q = Position::new(None, Some(b));
    assert_eq!(q.current_intersection, None);
    assert_eq!(q.in_between, Some(b));
}

#[test]
fn a_new_simulator_is_empty() {
    let sim = Simulator::new(1);
    assert!(sim.intersections.is_empty());
    assert!(sim.cars.is_empty());
    assert!(sim.car_positions.is_empty());
    assert!(sim.road.road.is_empty());
    assert_eq!(sim.timestep, 0);
    assert!(sim.get_car(0).is_none());
    assert!(sim.get_intersection(1).is_none());
    assert_eq!(sim.get_pos(0), None);
    assert_eq!(sim.lights_at(1, 0), None);
}

#[test]
fn intersections_are_numbered_from_one() {
    let mut sim = Simulator::new(1);
    assert_eq!(sim.add_intersection(), Ok(()));
    assert_eq!(sim.add_intersection(), Ok(()));
    assert_eq!(sim.add_intersections(3), Ok(()));
    assert_eq!(sim.intersections.len(), 5);
    assert_eq!(sim.road.road.len(), 5);
    for (i, x) in sim.intersections.iter().enumerate() {
        assert_eq!(x.id as usize, i + 1);
        assert_eq!(x.light_queues, [VecDeque::new(), VecDeque::new(), VecDeque::new(), VecDeque::new()]);
    }
    assert_eq!(sim.get_intersection(5).map(|x| x.id), Some(5));
    assert!(sim.get_intersection(0).is_none());
    assert!(sim.get_intersection(6).is_none());
    assert_eq!(sim.add_intersections(0), Ok(()));
    assert_eq!(sim.intersections.len(), 5);
}

#[test]
fn there_is_room_for_255_intersections() {
    let mut sim = Simulator::new(1);
    assert_eq!(sim.add_intersections(255), Ok(()));
    assert_eq!(sim.intersections.len(), 255);
    assert_eq!(sim.intersections[254].id, 255);
    assert_eq!(sim.add_intersection(), Err(ConfigError::TooManyIntersections));
    assert_eq!(sim.add_intersections(1), Err(ConfigError::TooManyIntersections));
    assert_eq!(sim.intersections.len(), 255);
    assert_eq!(sim.add_road(255, 0, 1, 3), Ok(()));
}

#[test]
fn too_many_intersections_at_once_adds_none() {
    let mut sim = Simulator::new(1);
    assert_eq!(sim.add_intersections(200), Ok(()));
    assert_eq!(sim.add_intersections(56), Err(ConfigError::TooManyIntersections));
    assert_eq!(sim.intersections.len(), 200);
    assert_eq!(sim.add_intersections(55), Ok(()));
    assert_eq!(sim.intersections.len(), 255);
}

#[test]
fn add_road_builds_both_ways() {
    let sim = ring(1);
    assert_eq!(sim.road.edge(1, 1), Some(Node { dest_int_id: 2, dist_from_source: 5, direction: 1 }));
    assert_eq!(sim.road.edge(2, 3), Some(Node { dest_int_id: 1, dist_from_source: 5, direction: 3 }));
    assert_eq!(sim.road.edge(4, 0), Some(Node { dest_int_id: 1, dist_from_source: 2, direction: 0 }));
    assert_eq!(sim.road.edge(1, 2), Some(Node { dest_int_id: 4, dist_from_source: 2, direction: 2 }));
    assert_eq!(sim.road.edge(1, 0), None);
    assert_eq!(sim.road.edge(1, 3), None);
    assert_eq!(sim.road.get_distance(1, 2), Some(5));
    assert_eq!(sim.road.get_distance(3, 4), Some(6));
    assert_eq!(sim.road.get_distance(1, 3), None);
}

#[test]
fn add_road_reports_each_mistake() {
    let mut sim = ring(1);
    assert_eq!(sim.add_road(1, 0, 5, 3), Err(ConfigError::UnknownIntersection));
    assert_eq!(sim.add_road(0, 0, 2, 3), Err(ConfigError::UnknownIntersection));
    assert_eq!(sim.add_road(1, 4, 3, 3), Err(ConfigError::InvalidDirection));
    assert_eq!(sim.add_road(1, 0, 3, 0), Err(ConfigError::ZeroDistance));
    assert_eq!(sim.add_road(1, 1, 3, 3), Err(ConfigError::SlotOccupied));
    assert_eq!(sim.add_road(3, 0, 1, 3), Err(ConfigError::SlotOccupied));
    assert_eq!(sim.road.edge(1, 0), None);
    assert_eq!(sim.road.edge(3, 2), None);
    assert_eq!(sim.road.edge(3, 0), Some(Node { dest_int_id: 2, dist_from_source: 3, direction: 0 }));
    assert_eq!(sim.add_road(1, 0, 3, 3), Ok(()));
}

#[test]
fn cars_are_numbered_from_zero_and_queue_up() {
    let mut sim = ring(1);
    assert_eq!(sim.add_car(at(1, 1)), Ok(()));
    assert_eq!(sim.add_car(at(1, 1)), Ok(()));
    assert_eq!(sim.add_car(at(3, 0)), Ok(()));
    assert_eq!(sim.cars.len(), 3);
    for (c, car) in sim.cars.iter().enumerate() {
        assert_eq!(car.id as usize, c);
        assert_eq!(car.wait_time, 0);
        assert_eq!(car.intention, Direction::Straight);
        assert!(car.at_intersection);
    }
    assert_eq!(queue(&sim, 1, 1), vec![0, 1]);
    assert_eq!(queue(&sim, 3, 0), vec![2]);
    assert_eq!(queue(&sim, 1, 0), Vec::<u8>::new());
    assert_eq!(sim.get_pos(1), Some(at(1, 1)));
    assert_eq!(sim.get_pos(2), Some(at(3, 0)));
    assert_eq!(sim.get_pos(3), None);
    assert_eq!(sim.get_car(2).map(|c| c.id), Some(2));
    assert!(sim.get_car(3).is_none());
    assert_consistent(&sim);
}

#[test]
fn add_car_reports_each_mistake() {
    let mut sim = ring(1);
    assert_eq!(sim.add_car(on_road(1, 2, 3, 1)), Err(ConfigError::InvalidPosition));
    assert_eq!(sim.add_car(Position::new(None, None)), Err(ConfigError::InvalidPosition));
    assert_eq!(
        sim.add_car(Position::new(
            Some(Current { int_id: 1, direction: 1 }),
            Some(Between { int_1_id: 1, int_2_id: 2, distance_to_target: 3, from: 1 }),
        )),
        Err(ConfigError::InvalidPosition)
    );
    assert_eq!(sim.add_car(at(0, 1)), Err(ConfigError::UnknownIntersection));
    assert_eq!(sim.add_car(at(5, 1)), Err(ConfigError::UnknownIntersection));
    assert_eq!(sim.add_car(at(1, 4)), Err(ConfigError::InvalidDirection));
    assert!(sim.cars.is_empty());
    assert!(sim.car_positions.is_empty());
    assert_eq!(queue(&sim, 1, 1), Vec::<u8>::new());
}

#[test]
fn there_is_room_for_255_cars() {
    let mut sim = ring(1);
    for _ in 0..255 {
        assert_eq!(sim.add_car(at(2, 3)), Ok(()));
    }
    assert_eq!(sim.add_car(at(2, 3)), Err(ConfigError::TooManyCars));
    assert_eq!(sim.cars.len(), 255);
    assert_eq!(queue(&sim, 2, 3).len(), 255);
    assert_consistent(&sim);
}

#[test]
fn a_denied_car_stays_first_and_has_waited_once_more() {
    let mut sim = ring(1);
    assert_eq!(sim.add_car(at(1, 1)), Ok(()));
    assert_eq!(sim.add_car(at(1, 1)), Ok(()));
    // North-south through: approach 1 shows red.
    let lights = all(&sim, LightConfig::NorthSouth);
    sim.tick_lights(&lights);
    assert_eq!(queue(&sim, 1, 1), vec![0, 1]);
    assert_eq!(sim.cars[0].wait_time, 1);
    assert!(sim.cars[0].at_intersection);
    assert_eq!(sim.cars[1].wait_time, 0);
    assert_eq!(sim.get_pos(0), Some(at(1, 1)));
    assert_eq!(sim.tick_cars(), Ok(()));
    assert_eq!(queue(&sim, 1, 1), vec![0, 1]);
    assert_eq!(sim.cars[0].wait_time, 1);
    sim.tick_lights(&lights);
    assert_eq!(queue(&sim, 1, 1), vec![0, 1]);
    assert_eq!(sim.cars[0].wait_time, 2);
    assert_eq!(sim.cars[1].wait_time, 0);
    assert_eq!(sim.timestep, 2);
    assert_consistent(&sim);
}

#[test]
fn a_released_car_leaves_its_queue_without_waiting() {
    let mut sim = ring(1);
    assert_eq!(sim.add_car(at(1, 1)), Ok(()));
    assert_eq!(sim.add_car(at(1, 1)), Ok(()));
    assert_eq!(sim.add_car(at(2, 0)), Ok(()));
    let lights = all(&sim, LightConfig::EastWest);
    sim.tick_lights(&lights);
    assert_eq!(queue(&sim, 1, 1), vec![1]);
    assert!(!sim.cars[0].at_intersection);
    assert_eq!(sim.cars[0].wait_time, 0);
    assert!(sim.cars[1].at_intersection);
    assert_eq!(sim.cars[1].wait_time, 0);
    assert_eq!(queue(&sim, 2, 0), vec![2]);
    assert_eq!(sim.cars[2].wait_time, 1);
    assert_eq!(sim.get_pos(0), Some(at(1, 1)));
    assert_eq!(sim.timestep, 1);
    for x in sim.intersections.iter() {
        assert_eq!(x.lights, LightConfig::EastWest.get_lights());
    }
}

#[test]
fn each_intersection_gets_its_own_lights() {
    let mut sim = ring(1);
    assert_eq!(sim.add_car(at(1, 1)), Ok(()));
    assert_eq!(sim.add_car(at(2, 1)), Ok(()));
    let lights = vec![
        LightConfig::EastWest,
        LightConfig::NorthSouth,
        LightConfig::WestLeft,
        LightConfig::EastWestTurns,
    ];
    sim.tick_lights(&lights);
    for i in 0..4 {
        assert_eq!(sim.intersections[i].lights, lights[i].get_lights());
    }
    assert!(!sim.cars[0].at_intersection);
    assert!(sim.cars[1].at_intersection);
    assert_eq!(sim.cars[1].wait_time, 1);
    assert_eq!(queue(&sim, 1, 1), Vec::<u8>::new());
    assert_eq!(queue(&sim, 2, 1), vec![1]);
}

#[test]
fn a_released_car_sets_out_one_tick_closer() {
    let mut sim = ring(1);
    assert_eq!(sim.add_car(at(1, 1)), Ok(()));
    sim.cars[0].intention = Direction::UTurn;
    let lights = all(&sim, LightConfig::EastWest);
    sim.tick_lights(&lights);
    assert_eq!(sim.tick_cars(), Ok(()));
    assert_eq!(sim.get_pos(0), Some(on_road(1, 2, 4, 1)));
    assert_eq!(sim.cars[0].intention, Direction::UTurn);
    assert!(!sim.cars[0].at_intersection);
    assert_eq!(sim.cars[0].wait_time, 0);
    assert_consistent(&sim);
}

#[test]
fn a_car_on_the_road_comes_closer_tick_by_tick() {
    let mut sim = ring(1);
    assert_eq!(sim.add_car(at(1, 1)), Ok(()));
    sim.cars[0].intention = Direction::UTurn;
    sim.tick_lights(&all(&sim, LightConfig::EastWest));
    assert_eq!(sim.tick_cars(), Ok(()));
    assert_eq!(sim.tick_cars(), Ok(()));
    assert_eq!(sim.get_pos(0), Some(on_road(1, 2, 3, 1)));
    assert_eq!(sim.tick_cars(), Ok(()));
    assert_eq!(sim.get_pos(0), Some(on_road(1, 2, 2, 1)));
    assert_eq!(sim.tick_cars(), Ok(()));
    assert_eq!(sim.get_pos(0), Some(on_road(1, 2, 1, 1)));
    assert_eq!(sim.cars[0].intention, Direction::UTurn);
    assert_eq!(sim.cars[0].wait_time, 0);
    assert_consistent(&sim);
}

#[test]
fn a_car_that_arrives_at_red_queues_up() {
    let mut sim = ring(1);
    assert_eq!(sim.add_car(at(2, 1)), Ok(()));
    assert_eq!(sim.add_car(at(1, 1)), Ok(()));
    sim.cars[1].intention = Direction::UTurn;
    // Let car 1 go at intersection 1 and hold car 0 back at intersection 2.
    let mut lights = all(&sim, LightConfig::NorthSouth);
    lights[0] = LightConfig::EastWest;
    sim.tick_lights(&lights);
    for _ in 0..4 {
        assert_eq!(sim.tick_cars(), Ok(()));
    }
    assert_eq!(sim.get_pos(1), Some(on_road(1, 2, 1, 1)));
    assert_eq!(sim.tick_cars(), Ok(()));
    assert_eq!(sim.get_pos(1), Some(at(2, 1)));
    assert!(sim.cars[1].at_intersection);
    assert_eq!(sim.cars[1].wait_time, 0);
    assert_eq!(queue(&sim, 2, 1), vec![0, 1]);
    assert_consistent(&sim);
    assert_eq!(sim.tick_cars(), Ok(()));
    assert_eq!(sim.get_pos(1), Some(at(2, 1)));
    assert_eq!(queue(&sim, 2, 1), vec![0, 1]);
}

#[test]
fn a_car_that_arrives_at_green_drives_on() {
    let mut sim = ring(1);
    assert_eq!(sim.add_car(at(1, 1)), Ok(()));
    sim.cars[0].intention = Direction::UTurn;
    // Approach 1 shows both signals green everywhere.
    sim.tick_lights(&all(&sim, LightConfig::EastLeft));
    for _ in 0..4 {
        assert_eq!(sim.tick_cars(), Ok(()));
    }
    assert_eq!(sim.get_pos(0), Some(on_road(1, 2, 1, 1)));
    assert_eq!(sim.tick_cars(), Ok(()));
    // Turning around at approach 1 of intersection 2 leads nowhere, so the
    // car takes one of the two roads that leave: south to 3 or west to 1.
    let pos = sim.get_pos(0).unwrap();
    match sim.cars[0].intention {
        Direction::Left => assert_eq!(pos, on_road(2, 3, 2, 2)),
        Direction::Straight => assert_eq!(pos, on_road(2, 1, 4, 3)),
        other => panic!("leads nowhere: {:?}", other),
    }
    assert!(!sim.cars[0].at_intersection);
    assert_eq!(sim.cars[0].wait_time, 0);
    assert_eq!(queue(&sim, 2, 1), Vec::<u8>::new());
    assert_consistent(&sim);
}

#[test]
fn a_dead_end_intent_is_drawn_again() {
    let mut sim = ring(5);
    assert_eq!(sim.add_car(at(1, 1)), Ok(()));
    // Straight on from approach 1 of intersection 1 would be west: no road.
    sim.tick_lights(&all(&sim, LightConfig::EastWest));
    assert_eq!(sim.tick_cars(), Ok(()));
    let pos = sim.get_pos(0).unwrap();
    match sim.cars[0].intention {
        Direction::UTurn => assert_eq!(pos, on_road(1, 2, 4, 1)),
        Direction::Left => assert_eq!(pos, on_road(1, 4, 1, 2)),
        other => panic!("leads nowhere: {:?}", other),
    }
    let b = pos.in_between.unwrap();
    assert!(b.distance_to_target > 0);
    assert_consistent(&sim);
}

#[test]
fn a_road_of_length_one_is_travelled_in_one_tick() {
    let mut sim = Simulator::new(1);
    assert_eq!(sim.add_intersections(2), Ok(()));
    assert_eq!(sim.add_road(1, 0, 2, 1), Ok(()));
    assert_eq!(sim.add_car(at(1, 0)), Ok(()));
    sim.cars[0].intention = Direction::UTurn;
    sim.tick_lights(&all(&sim, LightConfig::NorthSouth));
    assert_eq!(sim.tick_cars(), Ok(()));
    assert_eq!(sim.get_pos(0), Some(on_road(1, 2, 1, 0)));
    sim.tick_lights(&all(&sim, LightConfig::EastWest));
    assert_eq!(sim.tick_cars(), Ok(()));
    assert_eq!(sim.get_pos(0), Some(at(2, 0)));
    assert_eq!(queue(&sim, 2, 0), vec![0]);
    assert_consistent(&sim);
}

#[test]
fn a_car_with_no_way_out_is_a_fault() {
    let mut sim = Simulator::new(1);
    assert_eq!(sim.add_intersections(3), Ok(()));
    assert_eq!(sim.add_road(1, 1, 2, 4), Ok(()));
    assert_eq!(sim.add_car(at(1, 0)), Ok(()));
    assert_eq!(sim.add_car(at(3, 0)), Ok(()));
    assert_eq!(sim.add_car(at(2, 0)), Ok(()));
    sim.tick_lights(&all(&sim, LightConfig::NorthSouth));
    assert_eq!(sim.tick_cars(), Err(Fault::NoOutboundEdge { car: 1, intersection: 3 }));
    // The car before the stranded one has moved, the one after it has not.
    assert!(sim.get_pos(0).unwrap().in_between.is_some());
    assert_eq!(sim.get_pos(1), Some(at(3, 0)));
    assert_eq!(sim.get_pos(2), Some(at(2, 0)));
    assert!(!sim.cars[2].at_intersection);
}

#[test]
fn run_stops_at_a_fault() {
    let mut sim = Simulator::new(1);
    assert_eq!(sim.add_intersection(), Ok(()));
    assert_eq!(sim.add_car(at(1, 2)), Ok(()));
    let res = sim.run(1000);
    assert_eq!(res, Err(Fault::NoOutboundEdge { car: 0, intersection: 1 }));
    assert!(sim.timestep >= 1 && sim.timestep <= 1000);
    assert_eq!(sim.cars[0].wait_time, sim.timestep - 1);
    assert_eq!(sim.get_pos(0), Some(at(1, 2)));
}

#[test]
fn run_counts_its_ticks() {
    let mut sim = ring(3);
    assert_eq!(sim.add_car(at(1, 1)), Ok(()));
    assert_eq!(sim.run(0), Ok(()));
    assert_eq!(sim.timestep, 0);
    assert_eq!(sim.run(25), Ok(()));
    assert_eq!(sim.timestep, 25);
    assert_eq!(sim.play_timestep(), Ok(()));
    assert_eq!(sim.timestep, 26);
    assert_consistent(&sim);
}

#[test]
fn run_stops_where_the_clock_ends() {
    let mut sim = ring(3);
    assert_eq!(sim.add_car(at(1, 1)), Ok(()));
    sim.timestep = usize::MAX - 2;
    assert_eq!(sim.run(5), Err(Fault::ClockExhausted));
    assert_eq!(sim.timestep, usize::MAX);
    assert_eq!(sim.run(0), Ok(()));
    assert_eq!(sim.run(1), Err(Fault::ClockExhausted));
}

#[test]
fn the_ring_takes_a_car_towards_intersection_two() {
    let mut sim = ring(2023);
    assert_eq!(sim.add_car(at(1, 1)), Ok(()));
    let mut seen = false;
    for _ in 0..20000 {
        assert_eq!(sim.run(1), Ok(()));
        if sim.get_pos(0) == Some(on_road(1, 2, 4, 1)) {
            seen = true;
            break;
        }
    }
    assert!(seen);
}

#[test]
fn invariants_hold_tick_after_tick() {
    let mut sim = ring(77);
    assert_eq!(sim.add_road(1, 0, 3, 1), Ok(()));
    for c in 0..40u8 {
        assert_eq!(sim.add_car(at(c % 4 + 1, c % 3)), Ok(()));
    }
    assert_consistent(&sim);
    for _ in 0..600 {
        assert_eq!(sim.play_timestep(), Ok(()));
        assert_consistent(&sim);
        for (c, car) in sim.cars.iter().enumerate() {
            // After a whole tick no car stands released at an intersection.
            assert_eq!(sim.car_positions[c].current_intersection.is_some(), car.at_intersection);
        }
    }
    assert_eq!(sim.timestep, 600);
    assert!(sim.cars.iter().any(|car| car.wait_time > 0));
    assert!(sim.car_positions.iter().any(|pos| pos.in_between.is_some()));
}

#[test]
fn wait_counters_move_by_at_most_one_a_tick() {
    let mut sim = ring(4);
    for c in 0..12u8 {
        assert_eq!(sim.add_car(at(c % 4 + 1, 1)), Ok(()));
    }
    for _ in 0..300 {
        let before: Vec<usize> = sim.cars.iter().map(|car| car.wait_time).collect();
        let mut heads: Vec<Option<u8>> = Vec::new();
        for x in 1..=4u8 {
            for d in 0..4u8 {
                heads.push(queue(&sim, x, d).first().copied());
            }
        }
        assert_eq!(sim.play_timestep(), Ok(()));
        for (c, car) in sim.cars.iter().enumerate() {
            let was_head = heads.contains(&Some(c as u8));
            if car.wait_time == before[c] + 1 {
                assert!(was_head);
                let cur = sim.car_positions[c].current_intersection.unwrap();
                assert_eq!(queue(&sim, cur.int_id, cur.direction)[0], c as u8);
            } else {
                assert_eq!(car.wait_time, before[c]);
            }
        }
    }
}

#[test]
fn the_same_seed_replays_the_same_run() {
    let mut a = ring(31);
    let mut b = ring(31);
    for c in 0..10u8 {
        assert_eq!(a.add_car(at(c % 4 + 1, c % 4)), Ok(()));
        assert_eq!(b.add_car(at(c % 4 + 1, c % 4)), Ok(()));
    }
    assert_eq!(a.run(500), Ok(()));
    assert_eq!(b.run(500), Ok(()));
    assert_eq!(a.car_positions, b.car_positions);
    for c in 0..10 {
        assert_eq!(a.cars[c].wait_time, b.cars[c].wait_time);
        assert_eq!(a.cars[c].intention, b.cars[c].intention);
    }
    for i in 0..4 {
        assert_eq!(a.intersections[i].lights, b.intersections[i].lights);
        assert_eq!(a.intersections[i].light_queues, b.intersections[i].light_queues);
    }
}

#[test]
fn looking_at_the_lights_changes_nothing() {
    let mut sim = ring(6);
    assert_eq!(sim.add_car(at(1, 1)), Ok(()));
    assert_eq!(sim.run(10), Ok(()));
    for id in 0..=5u8 {
        for d in 0..=4u8 {
            let first = sim.lights_at(id, d);
            let second = sim.lights_at(id, d);
            assert_eq!(first, second);
            assert_eq!(first.is_some(), (1..=4).contains(&id) && d < 4);
            if let Some(light) = first {
                assert_eq!(light, sim.intersections[(id - 1) as usize].lights[d as usize]);
                assert_eq!(light, sim.get_intersection(id).unwrap().get_lights(d));
            }
        }
    }
}

#[test]
fn a_pattern_is_drawn_for_every_intersection() {
    let mut sim = ring(12);
    let mut distinct = Vec::new();
    for _ in 0..100 {
        let lights = sim.create_random_lights();
        assert_eq!(lights.len(), 4);
        for config in lights {
            if !distinct.contains(&config) {
                distinct.push(config);
            }
        }
    }
    assert_eq!(distinct.len(), 8);
    assert_eq!(sim.timestep, 0);
    for x in sim.intersections.iter() {
        assert!(x.light_queues.iter().all(|q| q.is_empty()));
    }
}

#[test]
fn a_tick_shows_one_of_the_eight_patterns_everywhere() {
    let mut sim = ring(21);
    assert_eq!(sim.add_car(at(1, 1)), Ok(()));
    for _ in 0..200 {
        assert_eq!(sim.play_timestep(), Ok(()));
        for x in sim.intersections.iter() {
            assert!((0..8u8).any(|n| LightConfig::from_index(n).get_lights() == x.lights));
        }
    }
}

#[test]
fn cars_that_arrive_together_line_up_by_id() {
    let mut sim = Simulator::new(1);
    assert_eq!(sim.add_intersections(3), Ok(()));
    assert_eq!(sim.add_road(1, 1, 2, 2), Ok(()));
    assert_eq!(sim.add_road(3, 0, 1, 4), Ok(()));
    assert_eq!(sim.add_car(at(2, 1)), Ok(()));
    assert_eq!(sim.add_car(at(1, 1)), Ok(()));
    assert_eq!(sim.add_car(at(1, 0)), Ok(()));
    assert_eq!(sim.add_car(at(1, 3)), Ok(()));
    for c in 1..4 {
        sim.cars[c].intention = Direction::UTurn;
    }
    // Intersection 1 lets the car at approach 1 go, intersection 2 nobody at approach 1.
    let mut lights = all(&sim, LightConfig::NorthSouth);
    lights[0] = LightConfig::EastLeft;
    sim.tick_lights(&lights);
    assert_eq!(sim.tick_cars(), Ok(()));
    assert_eq!(sim.get_pos(1), Some(on_road(1, 2, 1, 1)));
    assert_eq!(sim.get_pos(2), Some(at(1, 0)));
    // Put the two others on the same road, one tick from the end, by hand.
    sim.intersections[0].light_queues[0].clear();
    sim.intersections[0].light_queues[3].clear();
    sim.cars[2].at_intersection = false;
    sim.cars[3].at_intersection = false;
    sim.car_positions[3] = on_road(1, 2, 1, 1);
    sim.car_positions[2] = on_road(1, 2, 1, 1);
    assert_consistent(&sim);
    assert_eq!(sim.tick_cars(), Ok(()));
    assert_eq!(queue(&sim, 2, 1), vec![0, 1, 2, 3]);
    for c in 1..4u8 {
        assert_eq!(sim.get_pos(c), Some(at(2, 1)));
        assert!(sim.cars[c as usize].at_intersection);
    }
    assert_consistent(&sim);
}

#[test]
fn cars_and_intersections_are_told_apart_by_id() {
    let mut sim = ring(1);
    assert_eq!(sim.add_car(at(1, 1)), Ok(()));
    assert_eq!(sim.add_car(at(1, 1)), Ok(()));
    let mut twin = *sim.get_car(0).unwrap();
    twin.wait_time = 9;
    twin.intention = Direction::Left;
    twin.at_intersection = false;
    assert!(twin == sim.cars[0]);
    assert!(twin != sim.cars[1]);
    assert!(sim.intersections[0] == sim.intersections[0]);
    assert!(sim.intersections[0] != sim.intersections[1]);
}

#[test]
fn the_seed_decides_the_generator() {
    let mut a = Simulator::new(31);
    let mut b = Simulator::with_generator(StdRng::seed_from_u64(31));
    assert!(a.rng == b.rng);
    assert!(a.rng == StdRng::seed_from_u64(31));
    assert!(a.rng != Simulator::new(32).rng);
    assert_eq!(a.add_intersections(6), Ok(()));
    assert_eq!(b.add_intersections(6), Ok(()));
    for _ in 0..50 {
        assert_eq!(a.create_random_lights(), b.create_random_lights());
    }
    assert!(a.rng == b.rng);
}

#[test]
fn different_seeds_draw_different_lights() {
    let mut a = Simulator::new(1);
    let mut b = Simulator::new(2);
    assert_eq!(a.add_intersections(8), Ok(()));
    assert_eq!(b.add_intersections(8), Ok(()));
    let mut same = true;
    for _ in 0..20 {
        if a.create_random_lights() != b.create_random_lights() {
            same = false;
        }
    }
    assert!(!same);
}

#[test]
fn a_simulator_around_a_generator_is_empty() {
    let sim = Simulator::with_generator(StdRng::seed_from_u64(9));
    assert!(sim.intersections.is_empty());
    assert!(sim.cars.is_empty());
    assert!(sim.car_positions.is_empty());
    assert!(sim.road.road.is_empty());
    assert_eq!(sim.timestep, 0);
    assert!(sim.rng == StdRng::seed_from_u64(9));
}
