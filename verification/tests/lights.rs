use rand::rngs::StdRng;
use rand::SeedableRng;
use traffic_sim::traffic_logic::car::{Car, Direction};
use traffic_sim::traffic_logic::intersection::{Intersection, LightConfig, LightStatus, TrafficLight};

const RED: TrafficLight =
    TrafficLight { main_status: LightStatus::Red, left_turn_status: LightStatus::Red };
const MAIN: TrafficLight =
    TrafficLight { main_status: LightStatus::Green, left_turn_status: LightStatus::Red };
const LEFT: TrafficLight =
    TrafficLight { main_status: LightStatus::Red, left_turn_status: LightStatus::Green };
const BOTH: TrafficLight =
    TrafficLight { main_status: LightStatus::Green, left_turn_status: LightStatus::Green };

#[test]
fn light_status_from_index() {
    assert_eq!(LightStatus::from_index(0), LightStatus::Green);
    assert_eq!(LightStatus::from_index(1), LightStatus::Yellow);
    assert_eq!(LightStatus::from_index(2), LightStatus::Red);
    assert_eq!(LightStatus::from_index(77), LightStatus::Red);
}

#[test]
fn light_status_is_written_out() {
    assert_eq!(LightStatus::Green.as_str(), "Green");
    assert_eq!(LightStatus::Yellow.as_str(), "Yellow");
    assert_eq!(LightStatus::Red.as_str(), "Red");
}

#[test]
fn only_green_lets_through() {
    assert!(LightStatus::Green.is_green());
    assert!(!LightStatus::Yellow.is_green());
    assert!(!LightStatus::Red.is_green());
}

#[test]
fn through_patterns() {
    assert_eq!(LightConfig::NorthSouth.get_lights(), [MAIN, RED, MAIN, RED]);
    assert_eq!(LightConfig::EastWest.get_lights(), [RED, MAIN, RED, MAIN]);
}

#[test]
fn turn_patterns() {
    assert_eq!(LightConfig::NorthSouthTurns.get_lights(), [LEFT, RED, LEFT, RED]);
    assert_eq!(LightConfig::EastWestTurns.get_lights(), [RED, LEFT, RED, LEFT]);
}

#[test]
fn single_approach_patterns() {
    assert_eq!(LightConfig::NorthLeft.get_lights(), [BOTH, RED, RED, RED]);
    assert_eq!(LightConfig::EastLeft.get_lights(), [RED, BOTH, RED, RED]);
    assert_eq!(LightConfig::SouthLeft.get_lights(), [RED, RED, BOTH, RED]);
    assert_eq!(LightConfig::WestLeft.get_lights(), [RED, RED, RED, BOTH]);
}

#[test]
fn no_pattern_shows_yellow() {
    for n in 0..8u8 {
        for light in LightConfig::from_index(n).get_lights() {
            assert_ne!(light.main_status, LightStatus::Yellow);
            assert_ne!(light.left_turn_status, LightStatus::Yellow);
        }
    }
}

#[test]
fn light_config_from_index() {
    assert_eq!(LightConfig::from_index(0), LightConfig::NorthSouth);
    assert_eq!(LightConfig::from_index(1), LightConfig::EastWest);
    assert_eq!(LightConfig::from_index(2), LightConfig::EastWestTurns);
    assert_eq!(LightConfig::from_index(3), LightConfig::NorthSouthTurns);
    assert_eq!(LightConfig::from_index(4), LightConfig::EastLeft);
    assert_eq!(LightConfig::from_index(5), LightConfig::WestLeft);
    assert_eq!(LightConfig::from_index(6), LightConfig::NorthLeft);
    assert_eq!(LightConfig::from_index(7), LightConfig::SouthLeft);
    assert_eq!(LightConfig::from_index(8), LightConfig::SouthLeft);
}

#[test]
fn random_patterns_vary_and_repeat_with_the_seed() {
    let mut a = StdRng::seed_from_u64(99);
    let mut b = StdRng::seed_from_u64(99);
    let mut seen = [false; 8];
    for _ in 0..400 {
        let x = LightConfig::random(&mut a);
        let y = LightConfig::random(&mut b);
        assert_eq!(x, y);
        for n in 0..8u8 {
            if LightConfig::from_index(n) == x {
                seen[n as usize] = true;
            }
        }
    }
    assert_eq!(seen, [true; 8]);
}

#[test]
fn random_lights_take_every_status() {
    let mut rng = StdRng::seed_from_u64(17);
    let mut main = [false; 3];
    let mut left = [false; 3];
    for _ in 0..300 {
        let light = TrafficLight::rand(&mut rng);
        for n in 0..3u8 {
            if LightStatus::from_index(n) == light.main_status {
                main[n as usize] = true;
            }
            if LightStatus::from_index(n) == light.left_turn_status {
                left[n as usize] = true;
            }
        }
    }
    assert_eq!(main, [true; 3]);
    assert_eq!(left, [true; 3]);
}

#[test]
fn new_intersection_has_empty_queues_and_four_like_lights() {
    let mut rng = StdRng::seed_from_u64(1);
    let x = Intersection::new(7, &mut rng);
    assert_eq!(x.id, 7);
    for d in 0..4 {
        assert!(x.light_queues[d].is_empty());
        assert_eq!(x.lights[d], x.lights[0]);
    }
}

#[test]
fn queue_is_first_come_first_served() {
    let mut rng = StdRng::seed_from_u64(1);
    let mut x = Intersection::new(1, &mut rng);
    x.add_car_to_queue(4, 2);
    x.add_car_to_queue(9, 2);
    x.add_car_to_queue(1, 2);
    x.add_car_to_queue(5, 0);
    assert_eq!(x.light_queues[2].iter().copied().collect::<Vec<u8>>(), vec![4, 9, 1]);
    assert_eq!(x.release_head(2), Some(4));
    assert_eq!(x.release_head(2), Some(9));
    assert_eq!(x.release_head(1), None);
    assert_eq!(x.release_head(0), Some(5));
    assert_eq!(x.release_head(0), None);
    assert_eq!(x.release_head(2), Some(1));
    assert_eq!(x.release_head(2), None);
}

#[test]
fn a_returned_car_is_first_again() {
    let mut rng = StdRng::seed_from_u64(1);
    let mut x = Intersection::new(1, &mut rng);
    x.add_car_to_queue(4, 3);
    x.add_car_to_queue(9, 3);
    assert_eq!(x.release_head(3), Some(4));
    x.return_to_front(4, 3);
    assert_eq!(x.light_queues[3].iter().copied().collect::<Vec<u8>>(), vec![4, 9]);
    assert!(x.light_queues[0].is_empty());
}

#[test]
fn applying_a_pattern_sets_all_four_lights() {
    let mut rng = StdRng::seed_from_u64(1);
    let mut x = Intersection::new(1, &mut rng);
    x.add_car_to_queue(4, 3);
    x.apply_light_config(LightConfig::EastLeft);
    assert_eq!(x.lights, [RED, BOTH, RED, RED]);
    assert_eq!(x.get_lights(1), BOTH);
    assert_eq!(x.get_lights(0), RED);
    x.apply_light_config(LightConfig::NorthSouthTurns);
    assert_eq!(x.lights, [LEFT, RED, LEFT, RED]);
    assert_eq!(x.get_lights(2), LEFT);
    assert_eq!(x.light_queues[3].iter().copied().collect::<Vec<u8>>(), vec![4]);
    assert_eq!(x.id, 1);
}

#[test]
fn publish_asks_only_the_first_car_of_each_queue() {
    let mut rng = StdRng::seed_from_u64(1);
    let mut x = Intersection::new(1, &mut rng);
    let mut cars: Vec<Car> = (0..6u8).map(Car::new).collect();
    cars[4].intention = Direction::Left;
    cars[5].intention = Direction::Left;
    x.add_car_to_queue(0, 0);
    x.add_car_to_queue(1, 0);
    x.add_car_to_queue(2, 1);
    x.add_car_to_queue(3, 1);
    x.add_car_to_queue(4, 2);
    x.add_car_to_queue(5, 3);
    // North shows both signals green, everything else is red.
    x.apply_light_config(LightConfig::NorthLeft);
    x.publish(&mut cars);
    assert_eq!(x.light_queues[0].iter().copied().collect::<Vec<u8>>(), vec![1]);
    assert_eq!(x.light_queues[1].iter().copied().collect::<Vec<u8>>(), vec![2, 3]);
    assert_eq!(x.light_queues[2].iter().copied().collect::<Vec<u8>>(), vec![4]);
    assert_eq!(x.light_queues[3].iter().copied().collect::<Vec<u8>>(), vec![5]);
    let waits: Vec<usize> = cars.iter().map(|car| car.wait_time).collect();
    assert_eq!(waits, vec![0, 0, 1, 0, 1, 1]);
    let waiting: Vec<bool> = cars.iter().map(|car| car.at_intersection).collect();
    assert_eq!(waiting, vec![false, true, true, true, true, true]);
    assert_eq!(cars[4].intention, Direction::Left);
    // Protected left for north and south: car 4 goes, the cars going straight stay.
    x.apply_light_config(LightConfig::NorthSouthTurns);
    x.publish(&mut cars);
    assert_eq!(x.light_queues[0].iter().copied().collect::<Vec<u8>>(), vec![1]);
    assert_eq!(x.light_queues[1].iter().copied().collect::<Vec<u8>>(), vec![2, 3]);
    assert!(x.light_queues[2].is_empty());
    assert_eq!(x.light_queues[3].iter().copied().collect::<Vec<u8>>(), vec![5]);
    let waits: Vec<usize> = cars.iter().map(|car| car.wait_time).collect();
    assert_eq!(waits, vec![0, 1, 2, 0, 1, 2]);
    let waiting: Vec<bool> = cars.iter().map(|car| car.at_intersection).collect();
    assert_eq!(waiting, vec![false, true, true, true, false, true]);
    assert_eq!(x.lights, LightConfig::NorthSouthTurns.get_lights());
}

#[test]
fn publish_with_empty_queues_changes_nothing() {
    let mut rng = StdRng::seed_from_u64(1);
    let mut x = Intersection::new(3, &mut rng);
    let mut cars: Vec<Car> = (0..2u8).map(Car::new).collect();
    x.apply_light_config(LightConfig::EastWest);
    x.publish(&mut cars);
    for d in 0..4 {
        assert!(x.light_queues[d].is_empty());
    }
    for car in cars.iter() {
        assert_eq!(car.wait_time, 0);
        assert!(car.at_intersection);
    }
    assert_eq!(x.id, 3);
}
