use lovrle::bike::{Bike, BikeBuilder, YStarSelectionStrategy};
use lovrle::car::CarBuilder;
use lovrle::geometry::RoadOccupier;
use lovrle::road::{Coord, RectangleOccupier, Road, RoadCells, Vehicle};
use lovrle::RoadError;

fn deterministic_bike_at(front: isize, right: isize) -> Bike {
    BikeBuilder {
        front,
        right,
        length: 2,
        width: 2,
        forward_speed_max: 5,
        forward_speed: 0,
        forward_acceleration: 1,
        rightward_speed_max: 2,
        lateral_ignorance: 0,
        deceleration_prob: 0,
        y_star_selection_strategy: YStarSelectionStrategy::Rightmost,
    }
    .build()
    .unwrap()
}

#[test]
fn empty_road_single_bike_moves_rightmost_then_forward() {
    // one bike at front 3, right 3 on a 20 by 6 grid: after one tick its
    // right edge reaches 5 and its front advances to 4
    let bikes = vec![deterministic_bike_at(3, 3)];
    let mut road = Road::new(bikes, Vec::new(), 20, 3, 3).unwrap();

    road.update().unwrap();

    let occupation = road.get_bike(0).rectangle_occupation();
    assert_eq!(occupation.right, 5);
    assert_eq!(occupation.front, 4);
}

#[test]
fn deterministic_car_advance() {
    // default car, no deceleration, front 10, speed 0, slow acceleration 2:
    // one tick moves the front to 12
    let cars = vec![
        CarBuilder::default()
            .with_front_at(10)
            .with_slow_acceleration(2)
            .with_speed(0)
            .with_deceleration_prob(0)
            .unwrap()
            .build()
            .unwrap(),
    ];
    let mut road = Road::new(Vec::new(), cars, 20, 3, 3).unwrap();

    road.update().unwrap();

    assert_eq!(road.get_car(0).front, 12);
}

#[test]
fn car_with_full_deceleration_advances_one_less() {
    // speed 0, slow acceleration 2, certain deceleration: each tick moves
    // the car forward by one
    let cars = vec![
        CarBuilder::default()
            .with_front_at(10)
            .with_slow_acceleration(2)
            .with_speed(0)
            .with_deceleration_prob(1_000_000)
            .unwrap()
            .build()
            .unwrap(),
    ];
    let mut road = Road::new(Vec::new(), cars, 20, 3, 3).unwrap();

    road.update().unwrap();

    assert_eq!(road.get_car(0).front, 11);
}

#[test]
fn bike_prefers_bike_lane_when_available() {
    // a bike partly on the motor lane escapes it entirely within one tick
    let bikes = vec![deterministic_bike_at(3, 3)];
    let mut road = Road::new(bikes, Vec::new(), 20, 3, 3).unwrap();

    road.update().unwrap();

    let occupation = road.get_bike(0).rectangle_occupation();
    let left = occupation.right - occupation.width as isize + 1;
    assert!(left >= 3);
}

#[test]
fn front_gap_of_lone_occupier_is_ring_length_less_length() {
    let bikes = vec![
        BikeBuilder::default()
            .with_dimensions((2, 3))
            .unwrap()
            .with_front_at(5)
            .with_right_at(3)
            .build()
            .unwrap(),
    ];
    let road = Road::new(bikes, Vec::new(), 20, 3, 3).unwrap();

    let gap = road
        .front_gap(&road.get_bike(0).rectangle_occupation())
        .unwrap();
    assert_eq!(gap, 20 - 3);
}

#[test]
fn tick_on_empty_road_is_a_no_op() {
    let mut road = Road::new(Vec::new(), Vec::new(), 20, 3, 3).unwrap();

    road.update().unwrap();

    assert_eq!(road.bike_count(), 0);
    assert_eq!(road.car_count(), 0);
    assert!(road.cells().cells().is_empty());
    assert!(road.mean_bike_speed().is_none());
    assert!(road.mean_car_speed().is_none());
    assert_eq!(road.bike_density(), (0, 120));
    assert_eq!(road.car_density(), (0, 120));
}

#[test]
fn inert_single_bike_tick_changes_nothing() {
    // certain ignorance, certain deceleration, acceleration one and speed
    // zero: the configuration survives a tick untouched
    let bikes = vec![Bike {
        lateral_ignorance: 1_000_000,
        deceleration_prob: 1_000_000,
        ..deterministic_bike_at(3, 3)
    }];
    let mut road = Road::new(bikes, Vec::new(), 20, 3, 3).unwrap();
    let before = road.get_bike(0).rectangle_occupation();

    road.update().unwrap();

    let after = road.get_bike(0).rectangle_occupation();
    assert_eq!(before, after);
    assert_eq!(road.get_bike(0).forward_speed, 0);
}

#[test]
fn full_ignorance_never_changes_right() {
    let bikes = vec![
        Bike { lateral_ignorance: 1_000_000, ..deterministic_bike_at(0, 3) },
        Bike { lateral_ignorance: 1_000_000, ..deterministic_bike_at(9, 4) },
    ];
    let mut road = Road::new(bikes, Vec::new(), 20, 3, 3).unwrap();
    let rights: Vec<isize> = vec![
        road.get_bike(0).rectangle_occupation().right,
        road.get_bike(1).rectangle_occupation().right,
    ];

    for _ in 0..50 {
        road.update().unwrap();
        assert_eq!(road.get_bike(0).rectangle_occupation().right, rights[0]);
        assert_eq!(road.get_bike(1).rectangle_occupation().right, rights[1]);
        // the index lists every cell of both bikes after each tick
        assert_eq!(road.cells().cells().len(), 8);
    }
}

#[test]
fn unhindered_bike_speed_climbs_to_the_cap() {
    let bikes = vec![deterministic_bike_at(3, 3)];
    let mut road = Road::new(bikes, Vec::new(), 20, 3, 3).unwrap();

    let mut last_speed = road.get_bike(0).forward_speed;
    for _ in 0..10 {
        road.update().unwrap();
        let speed = road.get_bike(0).forward_speed;
        assert!(speed >= last_speed);
        last_speed = speed;
    }
    assert_eq!(last_speed, 5);
}

#[test]
fn long_simulation_preserves_all_invariants() {
    // ten bikes and ten cars on a 100 by 14 ring, spaced ten apart, for a
    // thousand ticks: all on the road, never overlapping, within their
    // speed caps, dimensions untouched
    let bikes: Vec<Bike> = (0..10)
        .map(|i| {
            BikeBuilder::default()
                .with_front_at(10 * i)
                .with_right_at(8)
                .build()
                .unwrap()
        })
        .collect();
    let cars: Vec<_> = (0..10)
        .map(|j| CarBuilder::default().with_front_at(10 * j).build().unwrap())
        .collect();
    let mut road = Road::new(bikes, cars, 100, 7, 7).unwrap();

    for _tick in 0..1000 {
        road.update().unwrap();
        for i in 0..road.bike_count() {
            let bike = road.get_bike(i);
            let occupation = bike.rectangle_occupation();
            assert!(road.road_contains_occupier(&occupation));
            assert!(!road.is_collision_for(&occupation, Vehicle::Bike(i)));
            assert_eq!(occupation.width, 2);
            assert_eq!(occupation.length, 2);
            assert!(0 <= bike.forward_speed && bike.forward_speed <= bike.forward_speed_max);
        }
        for j in 0..road.car_count() {
            let car = *road.get_car(j);
            let width = car.lateral_occupancy();
            let occupation = RectangleOccupier {
                front: car.front,
                right: width as isize - 1,
                width,
                length: car.length,
            };
            assert!(road.road_contains_occupier(&occupation));
            assert!(!road.is_collision_for(&occupation, Vehicle::Car(j)));
            assert_eq!(car.length, 5);
            assert!(0 <= car.speed && car.speed <= car.speed_max);
        }
    }
}

#[test]
fn builder_rejects_non_positive_dimensions() {
    assert_eq!(
        BikeBuilder::default().with_length(0),
        Err(RoadError::NonPositiveDimension)
    );
    assert_eq!(
        BikeBuilder::default().with_width(-2),
        Err(RoadError::NonPositiveDimension)
    );
}

#[test]
fn builder_rejects_negative_speeds() {
    assert_eq!(
        BikeBuilder::default().with_forward_speed(-1),
        Err(RoadError::NegativeSpeed)
    );
    assert_eq!(
        BikeBuilder::default().with_forward_max_speed(-1),
        Err(RoadError::NegativeSpeed)
    );
}

#[test]
fn builder_rejects_speed_above_max() {
    let builder = BikeBuilder { forward_speed: 7, forward_speed_max: 6, ..Default::default() };
    assert_eq!(builder.build(), Err(RoadError::SpeedAboveMax));
}

#[test]
fn builder_rejects_low_acceleration_and_negative_lateral_speed() {
    assert_eq!(
        BikeBuilder::default().with_forward_acceleration(0),
        Err(RoadError::AccelerationBelowOne)
    );
    assert_eq!(
        BikeBuilder::default().with_rightward_speed_max(-1),
        Err(RoadError::NegativeLateralSpeed)
    );
}

#[test]
fn builder_rejects_probability_above_one() {
    assert_eq!(
        BikeBuilder::default().with_lateral_ignorance(1_000_001),
        Err(RoadError::ProbabilityAboveOne)
    );
    assert_eq!(
        CarBuilder::default().with_deceleration_prob(1_000_001),
        Err(RoadError::ProbabilityAboveOne)
    );
}

#[test]
fn builder_rejects_oversized_parameters() {
    assert_eq!(
        BikeBuilder::default()
            .with_forward_max_speed(2_000_000)
            .unwrap()
            .with_forward_speed(0)
            .unwrap()
            .build(),
        Err(RoadError::ParameterTooLarge)
    );
}

#[test]
fn road_rejects_bad_dimensions() {
    assert_eq!(
        Road::new(Vec::new(), Vec::new(), 0, 3, 3).unwrap_err(),
        RoadError::InvalidDimensions
    );
    assert_eq!(
        Road::new(Vec::new(), Vec::new(), 20, 0, 0).unwrap_err(),
        RoadError::InvalidDimensions
    );
}

#[test]
fn road_rejects_too_many_agents() {
    let tiny = BikeBuilder {
        front: 0,
        right: 0,
        length: 1,
        width: 1,
        ..Default::default()
    }
    .build()
    .unwrap();
    assert_eq!(
        Road::new(vec![tiny, tiny], Vec::new(), 1, 1, 0).unwrap_err(),
        RoadError::TooManyAgents
    );
}

#[test]
fn road_rejects_invalid_agent() {
    let broken = Bike { forward_speed: -3, ..deterministic_bike_at(3, 3) };
    assert_eq!(
        Road::new(vec![broken], Vec::new(), 20, 3, 3).unwrap_err(),
        RoadError::InvalidAgent { vehicle: Vehicle::Bike(0) }
    );
}

#[test]
fn road_rejects_off_road_placement() {
    let outside = deterministic_bike_at(3, 10);
    assert_eq!(
        Road::new(vec![outside], Vec::new(), 20, 3, 3).unwrap_err(),
        RoadError::OffRoad { vehicle: Vehicle::Bike(0) }
    );
}

#[test]
fn road_rejects_overlapping_agents() {
    let a = deterministic_bike_at(3, 3);
    let b = deterministic_bike_at(3, 3);
    let err = Road::new(vec![a, b], Vec::new(), 20, 3, 3).unwrap_err();
    match err {
        RoadError::Collision { moving, found, at: _ } => {
            assert_eq!(moving, Vehicle::Bike(1));
            assert_eq!(found, Vehicle::Bike(0));
        },
        other => panic!("expected a collision, found {:?}", other),
    }
}

#[test]
fn cells_insert_get_remove_round_trip() {
    let mut cells = RoadCells::empty(10, 2, 2);
    let coord = Coord { lat: 1, long: 3 };

    assert_eq!(cells.get(&coord).unwrap(), None);
    cells.insert(coord, Vehicle::Bike(0)).unwrap();
    assert_eq!(cells.get(&coord).unwrap(), Some(Vehicle::Bike(0)));
    match cells.insert(coord, Vehicle::Car(0)).unwrap_err() {
        RoadError::Collision { moving, found, at } => {
            assert_eq!(moving, Vehicle::Car(0));
            assert_eq!(found, Vehicle::Bike(0));
            assert_eq!(at, coord);
        },
        other => panic!("expected a collision, found {:?}", other),
    }
    assert_eq!(cells.remove(coord).unwrap(), Some(Vehicle::Bike(0)));
    assert_eq!(cells.get(&coord).unwrap(), None);

    assert_eq!(
        cells.get(&Coord { lat: -1, long: 0 }).unwrap_err(),
        RoadError::LatBelowZero
    );
    assert_eq!(
        cells.get(&Coord { lat: 9, long: 0 }).unwrap_err(),
        RoadError::LatAboveWidth
    );
    // a long far around the ring wraps
    cells.insert(Coord { lat: 1, long: 23 }, Vehicle::Car(4)).unwrap();
    assert_eq!(cells.get(&Coord { lat: 1, long: 3 }).unwrap(), Some(Vehicle::Car(4)));
}

#[test]
fn positions_string_names_both_cohorts() {
    let bikes = vec![deterministic_bike_at(3, 3)];
    let road = Road::new(bikes, Vec::new(), 20, 3, 3).unwrap();
    let rendered = road.vehicle_positions_as_string();
    assert!(rendered.contains("\"cars\":[]"));
    assert!(rendered.contains("\"bikes\":[3]"));
}

#[test]
fn mean_speeds_and_densities_count_correctly() {
    let bikes = vec![
        BikeBuilder::default()
            .with_front_at(3)
            .with_forward_speed(2)
            .unwrap()
            .build()
            .unwrap(),
        BikeBuilder::default()
            .with_front_at(10)
            .with_forward_speed(4)
            .unwrap()
            .build()
            .unwrap(),
    ];
    let road = Road::new(bikes, Vec::new(), 20, 3, 3).unwrap();

    assert_eq!(road.mean_bike_speed(), Some((6, 2)));
    assert_eq!(road.mean_car_speed(), None);
    // two bikes of four cells each on a 20 by 6 grid
    assert_eq!(road.bike_density(), (8, 120));
    assert_eq!(road.car_density(), (0, 120));
}

#[test]
fn occupied_cells_trait_matches_inherent_listing() {
    let bike = deterministic_bike_at(3, 3);
    let cells_a = RoadOccupier::occupied_cells(&bike);
    let cells_b = bike.rectangle_occupation().occupied_cells();
    assert_eq!(cells_a, cells_b);
    assert!(RoadOccupier::occupier_is_within(&bike, 3));
    assert!(!RoadOccupier::occupier_is_entirely_within(&bike, 3));
    assert!(!RoadOccupier::occupier_is_without(&bike, 4));
    assert!(RoadOccupier::occupier_is_entirely_without(&bike, 2));
}
