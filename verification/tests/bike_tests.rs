use lovrle::bike::{
    determine_y_prime_prime_j_t_plus_1_filter, y_prime_prime_j_t_plus_1, Bike, BikeBuilder,
    YPrimePrimeFilter, YStarSelectionStrategy,
};
use lovrle::road::{RectangleOccupier, Road, Vehicle};

fn builder_at(front: isize, right: isize) -> BikeBuilder {
    BikeBuilder {
        front,
        right,
        length: 2,
        width: 2,
        forward_speed_max: 5,
        forward_speed: 0,
        forward_acceleration: 1,
        rightward_speed_max: 2,
        lateral_ignorance: 0,
        ..Default::default()
    }
}

#[test]
fn bike_can_move_laterally() {
    let bike: Bike = builder_at(3, 3).build().unwrap();

    let lateral_options: Vec<isize> = bike.potential_lateral_positions();

    assert!(!lateral_options.is_empty())
}

#[test]
fn bike_has_y_prime_empty_road() {
    let bikes = vec![builder_at(3, 3).build().unwrap()];
    let road = Road::new(bikes, Vec::new(), 20, 3, 3).unwrap();
    let bike_id = 0;

    let y_prime: Vec<RectangleOccupier> =
        road.get_bike(bike_id).y_prime_j_t_plus_1(&road, bike_id);

    assert!(!y_prime.is_empty());
}

#[test]
fn bike_has_no_collisions_empty_road() {
    let bikes = vec![builder_at(3, 3).build().unwrap()];
    let road = Road::new(bikes, Vec::new(), 20, 3, 3).unwrap();

    let bike = road.get_bike(0);

    let bike_collides = road.is_collision_for(&bike.rectangle_occupation(), Vehicle::Bike(0));

    assert!(!bike_collides);
}

#[test]
fn bike_bike_is_on_road() {
    let bikes = vec![builder_at(3, 3).build().unwrap()];
    let road = Road::new(bikes, Vec::new(), 20, 3, 3).unwrap();

    assert!(road.road_contains_occupier(&road.get_bike(0).rectangle_occupation()));
}

#[test]
fn bike_is_ml_non_blocking_empty_road_no_bl() {
    let bikes = vec![
        BikeBuilder::default()
            .with_lateral_ignorance(0)
            .unwrap()
            .build()
            .unwrap(),
    ];
    let road = Road::new(bikes, Vec::new(), 20, 6, 0).unwrap();
    let bike = road.get_bike(0);

    let filter_type =
        determine_y_prime_prime_j_t_plus_1_filter(&road, bike.rectangle_occupation());
    assert_eq!(filter_type, YPrimePrimeFilter::MotorLaneNonBlocking);
}

#[test]
fn y_prime_prime_is_y_prime_empty_road() {
    let bikes = vec![BikeBuilder {
        front: 3,
        right: 9,
        length: 2,
        width: 2,
        forward_speed_max: 5,
        forward_speed: 0,
        forward_acceleration: 1,
        // high enough to move anywhere on the road
        rightward_speed_max: 20,
        lateral_ignorance: 0,
        ..Default::default()
    }
    .build()
    .unwrap()];
    let road = Road::new(bikes, Vec::new(), 20, 10, 10).unwrap();
    let bike = road.get_bike(0);
    let y_prime: Vec<RectangleOccupier> = bike.y_prime_j_t_plus_1(&road, 0);
    let y_prime_prime: Vec<RectangleOccupier> = bike.y_prime_prime_j_t_plus_1(&road, 0);

    assert_eq!(y_prime, y_prime_prime);
}

#[test]
fn y_star_expected_empty_road() {
    let bikes = vec![BikeBuilder {
        front: 3,
        right: 9,
        length: 2,
        width: 2,
        forward_speed_max: 5,
        forward_speed: 0,
        forward_acceleration: 1,
        // high enough to move anywhere on the road
        rightward_speed_max: 20,
        lateral_ignorance: 0,
        y_star_selection_strategy: YStarSelectionStrategy::Rightmost,
        ..Default::default()
    }
    .build()
    .unwrap()];
    let road = Road::new(bikes, Vec::new(), 20, 10, 10).unwrap();
    let bike = road.get_bike(0);
    let y_star_right = bike.select_y_star(&road, 0).right;
    assert_eq!(y_star_right, road.self_total_width() - 1);
}

#[test]
fn zero_ignorance_never_ignores() {
    let bike = BikeBuilder::default()
        .with_lateral_ignorance(0)
        .unwrap()
        .build()
        .unwrap();

    assert!(!bike.should_ignore_lateral_movement())
}

#[test]
fn one_ignorance_always_ignores() {
    let bike = BikeBuilder::default()
        .with_lateral_ignorance(1_000_000)
        .unwrap()
        .build()
        .unwrap();

    assert!(bike.should_ignore_lateral_movement())
}

#[test]
fn zero_deceleration_prob_never_decelerates() {
    let bike = BikeBuilder::default()
        .with_deceleration_prob(0)
        .unwrap()
        .build()
        .unwrap();

    assert!(!bike.should_decelerate())
}

#[test]
fn one_deceleration_prob_always_decelerates() {
    let bike = BikeBuilder::default()
        .with_deceleration_prob(1_000_000)
        .unwrap()
        .build()
        .unwrap();

    assert!(bike.should_decelerate())
}

#[test]
fn y_expected_empty_road() {
    let bike = BikeBuilder {
        front: 3,
        right: 9,
        length: 2,
        width: 2,
        forward_speed_max: 5,
        forward_speed: 0,
        forward_acceleration: 1,
        rightward_speed_max: 5,
        lateral_ignorance: 0,
        ..Default::default()
    }
    .build()
    .unwrap();

    let y: Vec<isize> = bike.potential_lateral_positions();
    assert_eq!(y, vec![4, 5, 6, 7, 8, 9, 10, 11, 12, 13, 14]);
}

#[test]
fn y_prime_expected_empty_road() {
    let bikes = vec![BikeBuilder {
        front: 3,
        right: 9,
        length: 2,
        width: 2,
        forward_speed_max: 5,
        forward_speed: 0,
        forward_acceleration: 1,
        rightward_speed_max: 5,
        lateral_ignorance: 0,
        ..Default::default()
    }
    .build()
    .unwrap()];
    let road = Road::new(bikes, Vec::new(), 20, 10, 10).unwrap();
    let bike = road.get_bike(0);

    let y_prime: Vec<RectangleOccupier> = bike.y_prime_j_t_plus_1(&road, 0);
    let expected_occupations: Vec<RectangleOccupier> = [4, 5, 6, 7, 8, 9, 10, 11, 12, 13, 14]
        .map(|right| RectangleOccupier { right, ..bike.rectangle_occupation() })
        .into();

    assert_eq!(y_prime, expected_occupations);
}

#[test]
fn y_prime_prime_expected_empty_road() {
    let bikes = vec![BikeBuilder {
        front: 3,
        right: 9,
        length: 2,
        width: 2,
        forward_speed_max: 5,
        forward_speed: 0,
        forward_acceleration: 1,
        rightward_speed_max: 5,
        lateral_ignorance: 0,
        ..Default::default()
    }
    .build()
    .unwrap()];
    let road = Road::new(bikes, Vec::new(), 20, 10, 10).unwrap();
    let bike = road.get_bike(0);

    let y_prime_prime: Vec<RectangleOccupier> = y_prime_prime_j_t_plus_1(
        &road,
        bike.rectangle_occupation(),
        bike.y_prime_j_t_plus_1(&road, 0),
    );
    let expected_occupations: Vec<RectangleOccupier> = [4, 5, 6, 7, 8, 9, 10, 11, 12, 13, 14]
        .map(|right| RectangleOccupier { right, ..bike.rectangle_occupation() })
        .into();

    assert_eq!(y_prime_prime, expected_occupations);
}

#[test]
fn y_prime_prime_type_expected_empty_road() {
    let bikes = vec![BikeBuilder {
        front: 3,
        right: 9,
        length: 2,
        width: 2,
        forward_speed_max: 5,
        forward_speed: 0,
        forward_acceleration: 1,
        rightward_speed_max: 5,
        lateral_ignorance: 0,
        ..Default::default()
    }
    .build()
    .unwrap()];
    let road = Road::new(bikes, Vec::new(), 20, 10, 10).unwrap();
    let bike = road.get_bike(0);

    let y_prime_prime_type: YPrimePrimeFilter =
        determine_y_prime_prime_j_t_plus_1_filter(&road, bike.rectangle_occupation());

    assert_eq!(y_prime_prime_type, YPrimePrimeFilter::MotorLaneNonBlocking);
}
