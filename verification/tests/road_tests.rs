use lovrle::bike::{Bike, BikeBuilder};
use lovrle::car::{Car, CarBuilder};
use lovrle::road::{Coord, RectangleOccupier, Road, Vehicle};
use std::collections::HashSet;

#[test]
fn road_bike_is_on_road() {
    let bikes = vec![
        BikeBuilder::default()
            .with_lateral_ignorance(0)
            .unwrap()
            .build()
            .unwrap(),
    ];
    let road = Road::new(bikes, Vec::new(), 20, 3, 3).unwrap();

    let new_position = road.get_bike(0).rectangle_occupation();

    assert!(road.motor_lane_contains_occupier(&new_position));
}

#[test]
fn bike_is_on_road_after_update() {
    let bikes = vec![
        BikeBuilder::default()
            .with_lateral_ignorance(0)
            .unwrap()
            .build()
            .unwrap(),
    ];
    let mut road = Road::new(bikes, Vec::new(), 20, 3, 3).unwrap();

    road.update().unwrap();

    let new_position = road.get_bike(0).rectangle_occupation();

    assert!(road.road_contains_occupier(&new_position));
}

#[test]
fn bikes_same_size_after_update() {
    let bikes = vec![
        BikeBuilder::default()
            .with_lateral_ignorance(0)
            .unwrap()
            .build()
            .unwrap(),
    ];
    let mut road = Road::new(bikes, Vec::new(), 20, 3, 3).unwrap();
    let original_dims = {
        let RectangleOccupier { width, length, .. } = road.get_bike(0).rectangle_occupation();
        (width, length)
    };
    road.update().unwrap();
    let new_dims = {
        let RectangleOccupier { width, length, .. } = road.get_bike(0).rectangle_occupation();
        (width, length)
    };

    assert_eq!(original_dims, new_dims);
}

#[test]
fn single_bike_multiple_updates_work() {
    let bikes = vec![BikeBuilder::default().build().unwrap()];
    let mut road = Road::new(bikes, Vec::new(), 20, 3, 3).unwrap();

    for _iter_num in 0u16..1000 {
        road.update().unwrap();
    }

    let new_position = road.get_bike(0).rectangle_occupation();

    assert!(road.road_contains_occupier(&new_position));
}

#[test]
fn single_bike_front_gap_works_as_expected() {
    let front_right = Coord { lat: 4, long: 16 };
    let bikes = vec![
        BikeBuilder::default()
            .with_front_right_at(front_right)
            .build()
            .unwrap(),
    ];
    let road = Road::new(bikes, Vec::new(), 20, 3, 3).unwrap();

    let bike_front_gap_1 = road
        .front_gap(&road.get_bike(0).rectangle_occupation())
        .expect("bike should have width");
    let bike_front_gap_2 = road.cells().front_gap(&front_right, None);

    assert_eq!(bike_front_gap_1, bike_front_gap_2);
    assert_eq!(bike_front_gap_1, 18)
}

#[test]
fn multiple_bikes_multiple_updates_work() {
    let bikes: Vec<Bike> = [0, 3, 6, 9, 12]
        .map(|front| BikeBuilder::default().with_front_at(front))
        .map(|builder| builder.build().unwrap())
        .into();
    let mut road = Road::new(bikes, Vec::new(), 20, 3, 3).unwrap();

    for _iter_num in 0u16..1000 {
        road.update().unwrap();
    }
}

#[test]
fn single_bike_lateral_update_works() {
    let bikes = vec![BikeBuilder::deterministic_default().build().unwrap()];
    let mut road = Road::new(bikes, Vec::new(), 20, 3, 3).unwrap();

    road.bikes_lateral_update();

    let new_position = road.get_bike(0).rectangle_occupation();

    assert!(road.road_contains_occupier(&new_position));
}

#[test]
fn single_bike_forward_update_works() {
    let bikes = vec![BikeBuilder::deterministic_default().build().unwrap()];
    let mut road = Road::new(bikes, Vec::new(), 20, 3, 3).unwrap();

    road.bikes_forward_update().unwrap();

    let new_position = road.get_bike(0).rectangle_occupation();

    assert!(road.road_contains_occupier(&new_position));
}

#[test]
fn single_bike_forward_update_works_as_expected() {
    let bikes = vec![
        BikeBuilder::default()
            .with_front_at(2) // 2
            .with_forward_speed(3)
            .unwrap() // + 3 = 5
            .with_forward_acceleration(1)
            .unwrap() // + 1 = 6
            .with_forward_max_speed(10)
            .unwrap() // min(6, 10) = 6
            .with_deceleration_prob(0)
            .unwrap() // - 0 = 6
            .build()
            .unwrap(),
    ];
    let mut road = Road::new(bikes, Vec::new(), 20, 3, 3).unwrap();

    road.bikes_forward_update().unwrap();

    let RectangleOccupier { front: new_front, .. } = road.get_bike(0).rectangle_occupation();

    assert_eq!(new_front, 6);
}

#[test]
fn single_bike_next_forward_works_as_expected() {
    let bikes = vec![
        BikeBuilder::default()
            .with_front_at(2) // 2
            .with_forward_speed(3)
            .unwrap() // + 3 = 5
            .with_forward_acceleration(1)
            .unwrap() // + 1 = 6
            .with_forward_max_speed(10)
            .unwrap() // min(6, 10) = 6
            .with_deceleration_prob(0)
            .unwrap() // - 0 = 6
            .build()
            .unwrap(),
    ];
    let road = Road::new(bikes, Vec::new(), 20, 3, 3).unwrap();

    let next_bikes = road.next_bikes_forward();
    let next_bike = next_bikes[0];

    let RectangleOccupier { front: new_front, .. } = next_bike.rectangle_occupation();

    assert_eq!(new_front, 6);
}

#[test]
fn single_bike_forward_update_speeds_up_as_expected() {
    let speed = 3;
    let acceleration = 1;
    let expected_speed = speed + acceleration;
    let bikes = vec![
        BikeBuilder::default()
            .with_forward_speed(speed)
            .unwrap()
            .with_forward_acceleration(acceleration)
            .unwrap()
            .with_forward_max_speed(expected_speed + 25)
            .unwrap() // too big to matter
            .with_deceleration_prob(0)
            .unwrap() // won't be messed up
            .build()
            .unwrap(),
    ];
    let road = Road::new(bikes, Vec::new(), 20, 3, 3).unwrap();

    let next_bikes = road.next_bikes_forward();
    let Bike { forward_speed, .. } = next_bikes[0];

    assert_eq!(forward_speed, expected_speed);
}

#[test]
fn single_bike_lateral_and_forward_update_works() {
    let bikes = vec![BikeBuilder::deterministic_default().build().unwrap()];
    let mut road = Road::new(bikes, Vec::new(), 20, 3, 3).unwrap();

    road.bikes_lateral_update();
    road.bikes_forward_update().unwrap();

    let new_position = road.get_bike(0).rectangle_occupation();

    assert!(road.road_contains_occupier(&new_position));
}

#[test]
fn front_gap_works() {
    let bikes = vec![
        BikeBuilder::default()
            .with_front_right_at(Coord { lat: 3, long: 3 })
            .build()
            .unwrap(),
        BikeBuilder::default()
            .with_front_right_at(Coord { lat: 3, long: 10 })
            .build()
            .unwrap(),
    ];
    let road = Road::new(bikes, Vec::new(), 20, 3, 3).unwrap();

    let trailing_bike = road.get_bike(0);

    let front_gap = road
        .front_gap(&trailing_bike.rectangle_occupation())
        .unwrap();

    assert_eq!(front_gap, 5);
}

#[test]
fn cells_front_gap_works() {
    let trailing_coord = Coord { lat: 3, long: 3 };
    let leading_coord = Coord { lat: 3, long: 10 };
    let dimensions = (2, 2);
    let bikes = vec![
        BikeBuilder::default()
            .with_dimensions(dimensions)
            .unwrap()
            .with_front_right_at(trailing_coord)
            .build()
            .unwrap(),
        BikeBuilder::default()
            .with_dimensions(dimensions)
            .unwrap()
            .with_front_right_at(leading_coord)
            .build()
            .unwrap(),
    ];
    let road = Road::new(bikes, Vec::new(), 20, 3, 3).unwrap();

    let front_gap = road.cells().front_gap(&trailing_coord, None);

    assert_eq!(front_gap, 5);
}

#[test]
fn route_width_works_bike() {
    let long = 3;
    let lat = 3;
    let dimensions = (2, 2);
    let bikes = vec![
        BikeBuilder::default()
            .with_dimensions(dimensions)
            .unwrap()
            .with_front_at(long)
            .with_right_at(lat)
            .build()
            .unwrap(),
    ];
    let road = Road::new(bikes, Vec::new(), 20, 3, 3).unwrap();

    assert_eq!(road.route_width(0), 6);
    assert_eq!(road.route_width(1), 6);
    assert_eq!(road.route_width(2), 2);
    assert_eq!(road.route_width(3), 2);
    assert_eq!(road.route_width(4), 6);
    assert_eq!(road.route_width(5), 6);
    assert_eq!(road.route_width(21), 6);
    assert_eq!(road.route_width(22), 2);
    assert_eq!(road.route_width(23), 2);
    assert_eq!(road.route_width(24), 6);
}

#[test]
fn route_width_works_car() {
    let long = 3;
    let cars = vec![CarBuilder::default().with_front_at(long).build().unwrap()];
    let road_len: usize = 20;
    let road_wid: usize = 14;
    let road = Road::new(Vec::new(), cars, road_len, road_wid, 0).unwrap();

    let car_cells = lovrle::road::RoadOccupier::occupied_cells(road.get_car(0));
    let car_longs: HashSet<isize> = car_cells
        .iter()
        .map(|coord| coord.long.rem_euclid(road_len as isize))
        .collect();
    for long in 0..road_len as isize {
        let expected_width = if car_longs.contains(&long) { 0 } else { road_wid };
        assert_eq!(road.route_width(long), expected_width);
    }
}

#[test]
fn cells_front_gap_works_no_space() {
    let trailing_coord = Coord { lat: 3, long: 3 };
    let leading_coord = Coord { lat: 3, long: 5 };
    let dimensions = (2, 2);
    let bikes = vec![
        BikeBuilder::default()
            .with_dimensions(dimensions)
            .unwrap()
            .with_front_right_at(trailing_coord)
            .build()
            .unwrap(),
        BikeBuilder::default()
            .with_dimensions(dimensions)
            .unwrap()
            .with_front_right_at(leading_coord)
            .build()
            .unwrap(),
    ];
    let road = Road::new(bikes, Vec::new(), 20, 3, 3).unwrap();

    let front_gap = road.cells().front_gap(&trailing_coord, None);

    assert_eq!(front_gap, 0);
}

#[test]
fn bike_is_where_expected() {
    let coord = Coord { lat: 3, long: 10 };
    let dimensions = (2, 2);
    let bikes = vec![
        BikeBuilder::default()
            .with_dimensions(dimensions)
            .unwrap()
            .with_front_right_at(coord)
            .build()
            .unwrap(),
    ];
    let road = Road::new(bikes, Vec::new(), 20, 3, 3).unwrap();

    let found_vehicle = road.cells().get(&coord).unwrap().unwrap();

    assert_eq!(found_vehicle, Vehicle::Bike(0));
}

#[test]
fn positions_on_nm_lane_higher_priority_than_m_lane() {
    let _road = Road::new(
        vec![BikeBuilder::default().build().unwrap()],
        Vec::new(),
        100,
        7,
        7,
    );
}

#[test]
fn medium_sized_example_road_builds() {
    let bikes: Vec<Bike> = (0..10)
        .map(|bike_id| {
            BikeBuilder::default()
                .with_front_at(10 * bike_id)
                .with_right_at(8)
                .build()
                .unwrap()
        })
        .collect();
    let cars: Vec<Car> = (0..10)
        .map(|car_id| CarBuilder::default().with_front_at(10 * car_id).build().unwrap())
        .collect();
    let road = Road::new(bikes, cars, 100, 7, 7).unwrap();
    assert_eq!(road.bike_count(), 10);
    assert_eq!(road.car_count(), 10);
}

#[test]
fn medium_sized_example_road_updates() {
    let bikes: Vec<Bike> = (0..10)
        .map(|bike_id| {
            BikeBuilder::default()
                .with_front_at(10 * bike_id)
                .with_right_at(8)
                .build()
                .unwrap()
        })
        .collect();
    let cars: Vec<Car> = (0..10)
        .map(|car_id| CarBuilder::default().with_front_at(10 * car_id).build().unwrap())
        .collect();
    let mut road = Road::new(bikes, cars, 100, 7, 7).unwrap();

    for _iter_num in 0u16..1000 {
        road.update().unwrap();
    }
}

#[test]
fn one_car_one_bike_updates() {
    let mut road = Road::new(
        vec![
            BikeBuilder::default()
                .with_front_at(0)
                .with_right_at(7)
                .build()
                .unwrap(),
        ],
        vec![CarBuilder::default().with_front_at(0).build().unwrap()],
        10,
        4,
        4,
    )
    .unwrap();

    for _iter_num in 0u16..60000 {
        road.update().unwrap();
    }
}

#[test]
fn one_car_one_bike_updates_v2() {
    let mut road = Road::new(
        vec![
            BikeBuilder::default()
                .with_front_at(5)
                .with_right_at(5)
                .with_forward_speed(3)
                .unwrap()
                .build()
                .unwrap(),
        ],
        vec![CarBuilder::default().with_front_at(0).build().unwrap()],
        10,
        4,
        4,
    )
    .unwrap();

    road.update().unwrap();
}

#[test]
fn car_occupation_correct() {
    let cars = vec![CarBuilder::default().build().unwrap()];
    let road = Road::new(Vec::new(), cars, 20, 3, 3).unwrap();

    let car_occupation: HashSet<Coord> =
        lovrle::road::RoadOccupier::occupied_cells(road.get_car(0))
            .into_iter()
            .map(|c| Coord { lat: c.lat, long: c.long.rem_euclid(20) })
            .collect();
    let cells_occupation: HashSet<Coord> = road
        .cells()
        .cells()
        .into_iter()
        .map(|pair| pair.0)
        .collect();

    assert_eq!(car_occupation, cells_occupation);
}
